//! Ordering items by a small integer level: one bucket per level, filled in
//! the items' order and emptied level by level.

use vstd::prelude::*;

verus! {

/// The levels of a list of items never decrease.
pub open spec fn levels_sorted<T>(s: Seq<(u32, T)>) -> bool {
    forall|i: int, j: int| 0 <= i < j < s.len() ==> s[i].0 <= s[j].0
}

/// The items of level `l`, in their order.
pub open spec fn level_items<T>(s: Seq<(u32, T)>, l: int) -> Seq<(u32, T)> {
    s.filter(|e: (u32, T)| e.0 == l)
}

/// The items of levels below `n`: those of level 0 in their order, then
/// those of level 1, and so on.
pub open spec fn by_levels<T>(s: Seq<(u32, T)>, n: int) -> Seq<(u32, T)>
    decreases n,
{
    if n <= 0 {
        Seq::empty()
    } else {
        by_levels(s, n - 1) + level_items(s, n - 1)
    }
}

/// The items, reordered so that their levels never decrease; items of one
/// level keep their order, and every item stays as often as it came.
pub fn sort_by_level<T: Copy>(pairs: &Vec<(u32, T)>, max_level: u32) -> (r: Vec<(u32, T)>)
    requires
        forall|j: int| 0 <= j < pairs@.len() ==> #[trigger] pairs@[j].0 <= max_level,
        max_level < u32::MAX,
    ensures
        r@ == by_levels(pairs@, max_level + 1),
        levels_sorted(r@),
        forall|e: (u32, T)| #[trigger] r@.contains(e) <==> pairs@.contains(e),
        pairs@.no_duplicates() ==> r@.no_duplicates(),
{
    let nb = max_level as usize + 1;
    let mut buckets: Vec<Vec<(u32, T)>> = Vec::new();
    let mut b: usize = 0;
    while b < nb
        invariant
            nb == max_level + 1,
            b <= nb,
            buckets@.len() == b,
            forall|l: int| 0 <= l < b ==> (#[trigger] buckets@[l])@ == Seq::<(u32, T)>::empty(),
        decreases nb - b,
    {
        buckets.push(Vec::new());
        b = b + 1;
    }
    let n = pairs.len();
    let mut i: usize = 0;
    while i < n
        invariant
            n == pairs@.len(),
            nb == max_level + 1,
            forall|j: int| 0 <= j < pairs@.len() ==> #[trigger] pairs@[j].0 <= max_level,
            i <= n,
            buckets@.len() == nb,
            forall|l: int, e: (u32, T)|
                0 <= l < nb && #[trigger] buckets@[l]@.contains(e) ==> e.0 == l && exists|j: int|
                    0 <= j < i && pairs@[j] == e,
            forall|j: int| 0 <= j < i ==> (#[trigger] buckets@[pairs@[j].0 as int])@.contains(pairs@[j]),
            pairs@.no_duplicates() ==> forall|l: int| 0 <= l < nb ==> (#[trigger] buckets@[l])@.no_duplicates(),
            forall|l: int| 0 <= l < nb ==> (#[trigger] buckets@[l])@ == level_items(pairs@.take(i as int), l),
        decreases n - i,
    {
        let p = pairs[i];
        let k = p.0 as usize;
        let ghost old_buckets = buckets@;
        let mut bucket: Vec<(u32, T)> = Vec::new();
        std::mem::swap(&mut bucket, &mut buckets[k]);
        bucket.push(p);
        std::mem::swap(&mut bucket, &mut buckets[k]);
        proof {
            assert(buckets@.len() == nb);
            assert(buckets@[k as int]@ == old_buckets[k as int]@.push(p));
            assert forall|l: int| 0 <= l < nb implies (#[trigger] buckets@[l])@ == level_items(pairs@.take(i + 1), l) by {
                let f = |e: (u32, T)| e.0 == l;
                assert(pairs@.take(i + 1) =~= pairs@.take(i as int).push(p));
                pairs@.take(i as int).lemma_filter_push(p, f);
                if l != k {
                    assert(buckets@[l] == old_buckets[l]);
                }
            }
            assert(forall|l: int| 0 <= l < nb && l != k ==> buckets@[l] == old_buckets[l]);
            assert forall|l: int, e: (u32, T)|
                0 <= l < nb && #[trigger] buckets@[l]@.contains(e) implies e.0 == l && exists|j: int|
                    0 <= j < i + 1 && pairs@[j] == e by {
                if l == k {
                    if e != p {
                        let q = choose|q: int| 0 <= q < buckets@[l]@.len() && buckets@[l]@[q] == e;
                        assert(old_buckets[l]@[q] == e);
                        assert(old_buckets[l]@.contains(e));
                    } else {
                        assert(pairs@[i as int] == e);
                    }
                } else {
                    assert(buckets@[l] == old_buckets[l]);
                    assert(old_buckets[l]@.contains(e));
                }
            }
            assert forall|j: int| 0 <= j < i + 1 implies (#[trigger] buckets@[pairs@[j].0 as int])@.contains(pairs@[j]) by {
                let l = pairs@[j].0 as int;
                if j == i {
                    assert(buckets@[l]@[buckets@[l]@.len() - 1] == p);
                } else if l == k {
                    let q = choose|q: int| 0 <= q < old_buckets[l]@.len() && old_buckets[l]@[q] == pairs@[j];
                    assert(buckets@[l]@[q] == pairs@[j]);
                } else {
                    assert(buckets@[l] == old_buckets[l]);
                }
            }
            if pairs@.no_duplicates() {
                assert forall|l: int| 0 <= l < nb implies (#[trigger] buckets@[l])@.no_duplicates() by {
                    if l == k {
                        assert(!old_buckets[l]@.contains(p)) by {
                            if old_buckets[l]@.contains(p) {
                                let j = choose|j: int| 0 <= j < i && pairs@[j] == p;
                                assert(pairs@[j] == pairs@[i as int]);
                            }
                        }
                        let s = buckets@[l]@;
                        assert forall|a: int, c: int| 0 <= a < s.len() && 0 <= c < s.len() && a != c implies s[a] != s[c] by {
                            if a == s.len() - 1 {
                                assert(old_buckets[l]@.contains(s[c]));
                            } else if c == s.len() - 1 {
                                assert(old_buckets[l]@.contains(s[a]));
                            } else {
                                assert(old_buckets[l]@[a] == s[a] && old_buckets[l]@[c] == s[c]);
                            }
                        }
                    } else {
                        assert(buckets@[l] == old_buckets[l]);
                    }
                }
            }
        }
        i = i + 1;
    }
    proof {
        assert(pairs@.take(n as int) =~= pairs@);
    }
    let mut r: Vec<(u32, T)> = Vec::new();
    let mut l: usize = 0;
    while l < nb
        invariant
            nb == max_level + 1,
            l <= nb,
            buckets@.len() == nb,
            n == pairs@.len(),
            forall|j: int| 0 <= j < pairs@.len() ==> #[trigger] pairs@[j].0 <= max_level,
            forall|m: int, e: (u32, T)|
                0 <= m < nb && #[trigger] buckets@[m]@.contains(e) ==> e.0 == m && exists|j: int|
                    0 <= j < n && pairs@[j] == e,
            forall|j: int| 0 <= j < n ==> (#[trigger] buckets@[pairs@[j].0 as int])@.contains(pairs@[j]),
            pairs@.no_duplicates() ==> forall|m: int| 0 <= m < nb ==> (#[trigger] buckets@[m])@.no_duplicates(),
            levels_sorted(r@),
            forall|q: int| 0 <= q < r@.len() ==> (#[trigger] r@[q]).0 < l,
            forall|e: (u32, T)| #[trigger] r@.contains(e) <==> (pairs@.contains(e) && e.0 < l),
            pairs@.no_duplicates() ==> r@.no_duplicates(),
            forall|m: int| 0 <= m < nb ==> (#[trigger] buckets@[m])@ == level_items(pairs@, m),
            r@ == by_levels(pairs@, l as int),
        decreases nb - l,
    {
        let bucket = &buckets[l];
        let m = bucket.len();
        let mut q: usize = 0;
        let ghost r0 = r@;
        while q < m
            invariant
                m == bucket@.len(),
                q <= m,
                bucket == buckets@[l as int],
                l < nb,
                forall|e: (u32, T)| #[trigger] bucket@.contains(e) ==> e.0 == l,
                levels_sorted(r0),
                forall|t: int| 0 <= t < r0.len() ==> (#[trigger] r0[t]).0 < l,
                r@ == r0 + bucket@.take(q as int),
            decreases m - q,
        {
            let e = bucket[q];
            proof {
                assert(bucket@.contains(e));
            }
            r.push(e);
            proof {
                assert(r@ =~= r0 + bucket@.take(q + 1));
            }
            q = q + 1;
        }
        proof {
            assert(bucket@.take(m as int) =~= bucket@);
            assert(r@ == r0 + bucket@);
            assert(r@ == by_levels(pairs@, l + 1));
            assert forall|a: int, c: int| 0 <= a < c < r@.len() implies r@[a].0 <= r@[c].0 by {
                if c >= r0.len() {
                    assert(bucket@.contains(r@[c]));
                    if a >= r0.len() {
                        assert(bucket@.contains(r@[a]));
                    }
                }
            }
            assert forall|t: int| 0 <= t < r@.len() implies (#[trigger] r@[t]).0 < l + 1 by {
                if t >= r0.len() {
                    assert(bucket@.contains(r@[t]));
                }
            }
            assert forall|e: (u32, T)| #[trigger] r@.contains(e) <==> (pairs@.contains(e) && e.0 < l + 1) by {
                if r@.contains(e) {
                    let t = choose|t: int| 0 <= t < r@.len() && r@[t] == e;
                    if t >= r0.len() {
                        assert(bucket@.contains(e));
                        let j = choose|j: int| 0 <= j < n && pairs@[j] == e;
                    } else {
                        assert(r0.contains(e));
                    }
                }
                if pairs@.contains(e) && e.0 < l + 1 {
                    if e.0 == l {
                        let j = choose|j: int| 0 <= j < n && pairs@[j] == e;
                        assert(buckets@[pairs@[j].0 as int]@.contains(pairs@[j]));
                        let t = choose|t: int| 0 <= t < bucket@.len() && bucket@[t] == e;
                        assert(r@[r0.len() + t] == e);
                    } else {
                        assert(r0.contains(e));
                        let t = choose|t: int| 0 <= t < r0.len() && r0[t] == e;
                        assert(r@[t] == e);
                    }
                }
            }
            if pairs@.no_duplicates() {
                assert forall|a: int, c: int| 0 <= a < r@.len() && 0 <= c < r@.len() && a != c implies r@[a] != r@[c] by {
                    if a >= r0.len() && c >= r0.len() {
                        assert(bucket@.no_duplicates());
                        assert(bucket@[a - r0.len()] != bucket@[c - r0.len()]);
                    } else if a >= r0.len() {
                        assert(bucket@.contains(r@[a]));
                        assert(r0[c].0 < l);
                    } else if c >= r0.len() {
                        assert(bucket@.contains(r@[c]));
                        assert(r0[a].0 < l);
                    } else {
                        assert(r0[a] != r0[c]);
                    }
                }
            }
        }
        l = l + 1;
    }
    proof {
        assert forall|e: (u32, T)| #[trigger] r@.contains(e) <==> pairs@.contains(e) by {
            if pairs@.contains(e) {
                let j = choose|j: int| 0 <= j < n && pairs@[j] == e;
                assert(pairs@[j].0 <= max_level);
            }
        }
    }
    r
}

} // verus!
