//! A least-recently-used cache whose entries are kept in recency order:
//! the least recently used entry first, the most recently used last.
//!
//! Each key occurs at most once. A full cache evicts its least recently used
//! entry before a new key is inserted; reading or rewriting a key makes it the
//! most recently used.

use vstd::prelude::*;

verus! {

/// The laws the key type must obey: equality is exactly equality of values.
pub open spec fn key_laws<Key: PartialEq>() -> bool {
    vstd::laws_eq::obeys_concrete_eq::<Key>()
}

/// No key occurs twice.
pub open spec fn distinct_keys<Key, Value>(s: Seq<(Key, Value)>) -> bool {
    forall|i: int, j: int| 0 <= i < j < s.len() ==> s[i].0 != s[j].0
}

/// Whether `key` has an entry.
pub open spec fn has_key<Key, Value>(s: Seq<(Key, Value)>, key: Key) -> bool {
    exists|i: int| 0 <= i < s.len() && s[i].0 == key
}

/// The position of `key`'s entry (meaningful when it has one).
pub open spec fn position_of<Key, Value>(s: Seq<(Key, Value)>, key: Key) -> int {
    choose|i: int| 0 <= i < s.len() && s[i].0 == key
}

/// The entries after `put(key, value)`.
pub open spec fn put_result<Key, Value>(
    s: Seq<(Key, Value)>,
    capacity: nat,
    key: Key,
    value: Value,
) -> Seq<(Key, Value)> {
    if has_key(s, key) {
        s.remove(position_of(s, key)).push((key, value))
    } else if s.len() >= capacity && s.len() > 0 {
        s.drop_first().push((key, value))
    } else {
        s.push((key, value))
    }
}

/// The entries after a successful read of `key`.
pub open spec fn touch_result<Key, Value>(s: Seq<(Key, Value)>, key: Key) -> Seq<(Key, Value)> {
    s.remove(position_of(s, key)).push(s[position_of(s, key)])
}

/// The entries after evicting down to `capacity`: the most recent ones stay.
pub open spec fn shrink_result<Key, Value>(s: Seq<(Key, Value)>, capacity: nat) -> Seq<
    (Key, Value),
> {
    if s.len() > capacity {
        s.subrange(s.len() - capacity, s.len() as int)
    } else {
        s
    }
}

/// A value just put is the most recently used entry: reading the key back
/// gives that value.
pub proof fn lemma_put_then_get<Key, Value>(
    s: Seq<(Key, Value)>,
    capacity: nat,
    key: Key,
    value: Value,
)
    requires
        distinct_keys(s),
    ensures
        has_key(put_result(s, capacity, key, value), key),
        put_result(s, capacity, key, value).last() == (key, value),
        distinct_keys(put_result(s, capacity, key, value)) ==> position_of(
            put_result(s, capacity, key, value),
            key,
        ) == put_result(s, capacity, key, value).len() - 1,
{
    let r = put_result(s, capacity, key, value);
    assert(r[r.len() - 1].0 == key);
}

/// A cache within its capacity stays within it after a put (a cache of
/// capacity zero holds the one entry just put).
pub proof fn lemma_put_bounded<Key, Value>(
    s: Seq<(Key, Value)>,
    capacity: nat,
    key: Key,
    value: Value,
)
    requires
        s.len() <= if capacity == 0 {
            1
        } else {
            capacity
        },
    ensures
        put_result(s, capacity, key, value).len() <= if capacity == 0 {
            1
        } else {
            capacity
        },
{
}

/// Putting a new key into a full cache evicts exactly the least recently used
/// entry and keeps every other one.
pub proof fn lemma_put_evicts_least_recent<Key, Value>(
    s: Seq<(Key, Value)>,
    capacity: nat,
    key: Key,
    value: Value,
)
    requires
        distinct_keys(s),
        !has_key(s, key),
        s.len() >= capacity,
        s.len() > 0,
    ensures
        !has_key(put_result(s, capacity, key, value), s[0].0),
        forall|i: int|
            0 < i < s.len() ==> has_key(put_result(s, capacity, key, value), #[trigger] s[i].0),
{
    let r = put_result(s, capacity, key, value);
    assert forall|i: int| 0 < i < s.len() implies has_key(r, #[trigger] s[i].0) by {
        assert(r[i - 1] == s[i]);
    }
    if has_key(r, s[0].0) {
        let j = choose|j: int| 0 <= j < r.len() && r[j].0 == s[0].0;
        if j < r.len() - 1 {
            assert(r[j] == s[j + 1]);
        }
    }
}

/// A read neither adds nor drops entries nor changes any value.
pub proof fn lemma_touch_keeps_entries<Key, Value>(s: Seq<(Key, Value)>, key: Key, other: Key)
    requires
        distinct_keys(s),
        has_key(s, key),
    ensures
        touch_result(s, key).len() == s.len(),
        has_key(touch_result(s, key), other) <==> has_key(s, other),
        has_key(s, other) ==> touch_result(s, key)[position_of(touch_result(s, key), other)]
            == s[position_of(s, other)],
{
    let p = position_of(s, key);
    let t = touch_result(s, key);
    if has_key(s, other) {
        let q = position_of(s, other);
        let tq = if q == p {
            t.len() - 1
        } else if q < p {
            q
        } else {
            q - 1
        };
        assert(t[tq] == s[q]);
        assert(has_key(t, other));
        let tp = position_of(t, other);
        let sq = if tp == t.len() - 1 {
            p
        } else if tp < p {
            tp
        } else {
            tp + 1
        };
        assert(t[tp] == s[sq]);
    }
    if has_key(t, other) {
        let j = choose|j: int| 0 <= j < t.len() && t[j].0 == other;
        if j == t.len() - 1 {
            assert(t[j] == s[p]);
        } else if j < p {
            assert(t[j] == s[j]);
        } else {
            assert(t[j] == s[j + 1]);
        }
    }
}

pub struct LRUCache<Key: Eq + std::hash::Hash + Clone, Value: Clone> {
    entries: Vec<(Key, Value)>,
    capacity: usize,
}

impl<Key: Eq + std::hash::Hash + Clone, Value: Clone> LRUCache<Key, Value> {
    /// The entries, least recently used first.
    pub closed spec fn recency(&self) -> Seq<(Key, Value)> {
        self.entries@
    }

    pub closed spec fn cap(&self) -> nat {
        self.capacity as nat
    }

    /// The key laws hold and no key has two entries.
    pub open spec fn wf(&self) -> bool {
        &&& key_laws::<Key>()
        &&& distinct_keys(self.recency())
    }

    pub fn new(capacity: usize) -> (r: Self)
        requires
            key_laws::<Key>(),
        ensures
            r.wf(),
            r.recency() == Seq::<(Key, Value)>::empty(),
            r.cap() == capacity,
    {
        LRUCache { entries: Vec::new(), capacity }
    }

    /// The position of `key`'s entry, if it has one.
    fn find(&self, key: &Key) -> (r: Option<usize>)
        requires
            self.wf(),
        ensures
            r is None <==> !has_key(self.entries@, *key),
            r matches Some(i) ==> i < self.entries@.len() && self.entries@[i as int].0 == *key
                && i == position_of(self.entries@, *key),
    {
        let n = self.entries.len();
        let mut i: usize = 0;
        while i < n
            invariant
                n == self.entries@.len(),
                i <= n,
                self.wf(),
                forall|j: int| 0 <= j < i ==> self.entries@[j].0 != *key,
            decreases n - i,
        {
            let eq = self.entries[i].0 == *key;
            proof {
                reveal(vstd::laws_eq::obeys_concrete_eq);
            }
            if eq {
                return Some(i);
            }
            i = i + 1;
        }
        None
    }

    pub fn has(&self, key: &Key) -> (r: bool)
        requires
            self.wf(),
        ensures
            r == has_key(self.recency(), *key),
    {
        self.find(key).is_some()
    }

    pub fn put(&mut self, key: Key, value: Value)
        requires
            old(self).wf(),
        ensures
            final(self).wf(),
            final(self).cap() == old(self).cap(),
            final(self).recency() == put_result(old(self).recency(), old(self).cap(), key, value),
    {
        let ghost s0 = self.entries@;
        match self.find(&key) {
            Some(i) => {
                self.move_to_tail(i);
                let last = self.entries.len() - 1;
                let (k, _) = self.entries.remove(last);
                self.entries.push((k, value));
                proof {
                    assert(self.entries@ =~= s0.remove(i as int).push((key, value)));
                }
            },
            None => {
                if self.entries.len() >= self.capacity {
                    self.evict_lru();
                }
                self.add_to_tail(key, value);
                proof {
                    if s0.len() >= self.capacity && s0.len() > 0 {
                        assert(self.entries@ =~= s0.drop_first().push((key, value)));
                    } else {
                        assert(self.entries@ =~= s0.push((key, value)));
                    }
                }
            },
        }
    }

    pub fn get(&mut self, key: &Key) -> (r: Option<Value>)
        requires
            old(self).wf(),
        ensures
            final(self).wf(),
            final(self).cap() == old(self).cap(),
            has_key(old(self).recency(), *key) ==> {
                &&& r is Some
                &&& cloned(old(self).recency()[position_of(old(self).recency(), *key)].1, r->0)
                &&& final(self).recency() == touch_result(old(self).recency(), *key)
            },
            !has_key(old(self).recency(), *key) ==> {
                &&& r is None
                &&& final(self).recency() == old(self).recency()
            },
    {
        match self.find(key) {
            Some(i) => {
                let result = Some(self.entries[i].1.clone());
                self.update_recent_usage(key);
                result
            },
            None => None,
        }
    }

    /// Make `key`'s entry, if it has one, the most recently used.
    fn update_recent_usage(&mut self, key: &Key)
        requires
            old(self).wf(),
        ensures
            final(self).wf(),
            final(self).cap() == old(self).cap(),
            has_key(old(self).entries@, *key) ==> final(self).entries@ == touch_result(
                old(self).entries@,
                *key,
            ),
            !has_key(old(self).entries@, *key) ==> final(self).entries@ == old(self).entries@,
    {
        if let Some(i) = self.find(key) {
            self.move_to_tail(i);
        }
    }

    /// Drop the least recently used entry, if any.
    fn evict_lru(&mut self)
        requires
            old(self).wf(),
        ensures
            final(self).wf(),
            final(self).cap() == old(self).cap(),
            old(self).entries@.len() > 0 ==> final(self).entries@ == old(self).entries@.drop_first(),
            old(self).entries@.len() == 0 ==> final(self).entries@ == old(self).entries@,
    {
        if self.entries.len() > 0 {
            self.entries.remove(0);
            proof {
                assert(self.entries@ =~= old(self).entries@.drop_first());
            }
        }
    }

    /// Append a new most recently used entry for a key that has none.
    fn add_to_tail(&mut self, key: Key, value: Value)
        requires
            old(self).wf(),
            !has_key(old(self).entries@, key),
        ensures
            final(self).wf(),
            final(self).cap() == old(self).cap(),
            final(self).entries@ == old(self).entries@.push((key, value)),
    {
        self.entries.push((key, value));
        proof {
            assert forall|i: int, j: int| 0 <= i < j < self.entries@.len() implies self.entries@[i].0
                != self.entries@[j].0 by {
                if j == self.entries@.len() - 1 {
                    assert(old(self).entries@[i].0 == self.entries@[i].0);
                }
            }
        }
    }

    /// Move the entry at `pos` to the most recently used end.
    fn move_to_tail(&mut self, pos: usize)
        requires
            old(self).wf(),
            pos < old(self).entries@.len(),
        ensures
            final(self).wf(),
            final(self).cap() == old(self).cap(),
            final(self).entries@ == old(self).entries@.remove(pos as int).push(
                old(self).entries@[pos as int],
            ),
    {
        let ghost s0 = self.entries@;
        let e = self.entries.remove(pos);
        self.entries.push(e);
        proof {
            let s = self.entries@;
            assert forall|i: int, j: int| 0 <= i < j < s.len() implies s[i].0 != s[j].0 by {
                let oi = if i < pos {
                    i
                } else {
                    i + 1
                };
                let oj = if j == s.len() - 1 {
                    pos as int
                } else if j < pos {
                    j
                } else {
                    j + 1
                };
                assert(s[i] == s0[oi]);
                assert(s[j] == s0[oj]);
                assert(oi != oj);
            }
        }
    }

    pub fn set_capacity(&mut self, new_capacity: usize)
        requires
            old(self).wf(),
        ensures
            final(self).wf(),
            final(self).cap() == new_capacity,
            final(self).recency() == shrink_result(old(self).recency(), new_capacity as nat),
    {
        self.capacity = new_capacity;
        let ghost s0 = self.entries@;
        while self.entries.len() > self.capacity
            invariant
                self.wf(),
                self.capacity == new_capacity,
                s0.len() >= self.entries@.len() >= new_capacity || self.entries@ == s0,
                self.entries@ == s0.subrange(s0.len() - self.entries@.len(), s0.len() as int),
            decreases self.entries@.len(),
        {
            self.evict_lru();
        }
        proof {
            if s0.len() <= new_capacity {
                assert(self.entries@ =~= s0);
            }
        }
    }
}

} // verus!
