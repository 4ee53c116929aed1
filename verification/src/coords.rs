//! The chunk offsets around the eye that the terrain pipeline visits, nearest
//! first.

use crate::level_sort::sort_by_level;
use vstd::prelude::*;

verus! {

/// Squared distance of a chunk offset from the eye's chunk.
pub open spec fn dst(c: (i32, i32)) -> int {
    c.0 * c.0 + c.1 * c.1
}

/// Whether an offset lies in the square of half-width `max_coord` and within
/// squared distance `max_dist_sq`.
pub open spec fn in_disc(c: (i32, i32), max_coord: int, max_dist_sq: int) -> bool {
    &&& -max_coord <= c.0 <= max_coord
    &&& -max_coord <= c.1 <= max_coord
    &&& dst(c) <= max_dist_sq
}

/// Lexicographic order on offsets: by x, then by y.
pub open spec fn lex_lt(a: (i32, i32), b: (i32, i32)) -> bool {
    a.0 < b.0 || (a.0 == b.0 && a.1 < b.1)
}

/// Offsets whose squared sum stays far inside `i32`.
pub open spec fn coord_limit() -> int {
    32767
}

pub proof fn lemma_dst_nonneg(c: (i32, i32))
    ensures
        dst(c) >= 0,
{
    assert(c.0 * c.0 >= 0 && c.1 * c.1 >= 0) by (nonlinear_arith);
}

/// All offsets in the disc, in lexicographic order.
pub fn get_coords(max_coord: i32, max_dist_sq: i32) -> (r: Vec<(i32, i32)>)
    requires
        0 <= max_coord <= coord_limit(),
    ensures
        forall|i: int, j: int| 0 <= i < j < r@.len() ==> lex_lt(r@[i], r@[j]),
        forall|i: int| 0 <= i < r@.len() ==> in_disc(#[trigger] r@[i], max_coord as int, max_dist_sq as int),
        forall|c: (i32, i32)| in_disc(c, max_coord as int, max_dist_sq as int) ==> #[trigger] r@.contains(c),
{
    let mut coords: Vec<(i32, i32)> = Vec::new();
    let mut x: i32 = -max_coord;
    while x <= max_coord
        invariant
            0 <= max_coord <= coord_limit(),
            -max_coord <= x <= max_coord + 1,
            forall|i: int, j: int| 0 <= i < j < coords@.len() ==> lex_lt(coords@[i], coords@[j]),
            forall|i: int| 0 <= i < coords@.len() ==> in_disc(#[trigger] coords@[i], max_coord as int, max_dist_sq as int),
            forall|i: int| 0 <= i < coords@.len() ==> #[trigger] coords@[i].0 < x,
            forall|c: (i32, i32)| in_disc(c, max_coord as int, max_dist_sq as int) && c.0 < x ==> #[trigger] coords@.contains(c),
        decreases max_coord + 1 - x,
    {
        let mut y: i32 = -max_coord;
        while y <= max_coord
            invariant
                0 <= max_coord <= coord_limit(),
                -max_coord <= x <= max_coord,
                -max_coord <= y <= max_coord + 1,
                forall|i: int, j: int| 0 <= i < j < coords@.len() ==> lex_lt(coords@[i], coords@[j]),
                forall|i: int| 0 <= i < coords@.len() ==> in_disc(#[trigger] coords@[i], max_coord as int, max_dist_sq as int),
                forall|i: int| 0 <= i < coords@.len() ==> lex_lt(#[trigger] coords@[i], (x, y)),
                forall|c: (i32, i32)| in_disc(c, max_coord as int, max_dist_sq as int) && lex_lt(c, (x, y)) ==> #[trigger] coords@.contains(c),
            decreases max_coord + 1 - y,
        {
            proof {
                assert(x * x <= coord_limit() * coord_limit()) by (nonlinear_arith)
                    requires
                        -coord_limit() <= x <= coord_limit(),
                ;
                assert(y * y <= coord_limit() * coord_limit()) by (nonlinear_arith)
                    requires
                        -coord_limit() <= y <= coord_limit(),
                ;
                assert(x * x >= 0 && y * y >= 0) by (nonlinear_arith);
            }
            let dist_sq = x * x + y * y;
            let ghost before = coords@;
            if dist_sq <= max_dist_sq {
                coords.push((x, y));
                proof {
                    assert forall|c: (i32, i32)| in_disc(c, max_coord as int, max_dist_sq as int) && lex_lt(c, (x, (y + 1) as i32)) implies #[trigger] coords@.contains(c) by {
                        if c == (x, y) {
                            assert(coords@[coords@.len() - 1] == c);
                        } else {
                            assert(before.contains(c));
                            let k = choose|k: int| 0 <= k < before.len() && before[k] == c;
                            assert(coords@[k] == c);
                        }
                    }
                }
            } else {
                proof {
                    assert forall|c: (i32, i32)| in_disc(c, max_coord as int, max_dist_sq as int) && lex_lt(c, (x, (y + 1) as i32)) implies #[trigger] coords@.contains(c) by {
                        if c == (x, y) {
                            assert(dst(c) == dist_sq);
                        }
                    }
                }
            }
            y = y + 1;
        }
        proof {
            assert forall|c: (i32, i32)| in_disc(c, max_coord as int, max_dist_sq as int) && c.0 < x + 1 implies #[trigger] coords@.contains(c) by {
                assert(lex_lt(c, (x, y)));
            }
        }
        x = x + 1;
    }
    coords
}

/// The offsets of the disc of radius `distance`, nearest first.
pub fn calculate_coords(distance: i32) -> (r: Vec<(i32, i32)>)
    requires
        0 <= distance <= coord_limit(),
    ensures
        forall|i: int, j: int| 0 <= i < j < r@.len() ==> dst(r@[i]) <= dst(r@[j]),
        r@.no_duplicates(),
        forall|c: (i32, i32)| #[trigger] r@.contains(c) <==> in_disc(c, distance as int, distance as int * distance as int),
{
    proof {
        assert(0 <= distance * distance <= coord_limit() * coord_limit()) by (nonlinear_arith)
            requires
                0 <= distance <= coord_limit(),
        ;
    }
    let bound = distance * distance;
    let all = get_coords(distance, bound);
    let n = all.len();
    let mut pairs: Vec<(u32, (i32, i32))> = Vec::new();
    let mut k: usize = 0;
    while k < n
        invariant
            0 <= distance <= coord_limit(),
            bound == distance * distance,
            0 <= bound <= coord_limit() * coord_limit(),
            n == all@.len(),
            k <= n,
            forall|i: int| 0 <= i < all@.len() ==> in_disc(#[trigger] all@[i], distance as int, bound as int),
            pairs@.len() == k,
            forall|j: int| 0 <= j < k ==> #[trigger] pairs@[j] == (dst(all@[j]) as u32, all@[j]),
            forall|j: int| 0 <= j < k ==> #[trigger] pairs@[j].0 == dst(all@[j]),
        decreases n - k,
    {
        let c = all[k];
        proof {
            assert(in_disc(all@[k as int], distance as int, bound as int));
            lemma_dst_nonneg(c);
            assert(c.0 * c.0 <= coord_limit() * coord_limit() && c.1 * c.1 <= coord_limit()
                * coord_limit()) by (nonlinear_arith)
                requires
                    -coord_limit() <= c.0 <= coord_limit(),
                    -coord_limit() <= c.1 <= coord_limit(),
            ;
            assert(c.0 * c.0 >= 0 && c.1 * c.1 >= 0) by (nonlinear_arith);
        }
        let d = c.0 * c.0 + c.1 * c.1;
        pairs.push((d as u32, c));
        k = k + 1;
    }
    proof {
        assert forall|j: int| 0 <= j < pairs@.len() implies #[trigger] pairs@[j].0 <= bound as u32 by {
            assert(in_disc(all@[j], distance as int, bound as int));
        }
        assert(pairs@.no_duplicates()) by {
            assert forall|a: int, b: int| 0 <= a < pairs@.len() && 0 <= b < pairs@.len() && a != b implies pairs@[a] != pairs@[b] by {
                if a < b {
                    assert(lex_lt(all@[a], all@[b]));
                } else {
                    assert(lex_lt(all@[b], all@[a]));
                }
            }
        }
    }
    let sorted = sort_by_level(&pairs, bound as u32);
    let m = sorted.len();
    let mut result: Vec<(i32, i32)> = Vec::new();
    let mut q: usize = 0;
    while q < m
        invariant
            m == sorted@.len(),
            q <= m,
            result@.len() == q,
            forall|t: int| 0 <= t < q ==> #[trigger] result@[t] == sorted@[t].1,
        decreases m - q,
    {
        result.push(sorted[q].1);
        q = q + 1;
    }
    proof {
        assert forall|t: int| 0 <= t < m implies (#[trigger] sorted@[t]).0 == dst(sorted@[t].1) by {
            assert(sorted@.contains(sorted@[t]));
            assert(pairs@.contains(sorted@[t]));
            let j = choose|j: int| 0 <= j < pairs@.len() && pairs@[j] == sorted@[t];
            assert(pairs@[j].0 == dst(all@[j]));
        }
        assert forall|i: int, j: int| 0 <= i < j < result@.len() implies dst(result@[i]) <= dst(result@[j]) by {
            assert(sorted@[i].0 <= sorted@[j].0);
            assert(sorted@[i].0 == dst(sorted@[i].1));
            assert(sorted@[j].0 == dst(sorted@[j].1));
        }
        assert forall|a: int, b: int| 0 <= a < result@.len() && 0 <= b < result@.len() && a != b implies result@[a] != result@[b] by {
            assert(sorted@[a] != sorted@[b]);
            assert(sorted@[a].0 == dst(sorted@[a].1));
            assert(sorted@[b].0 == dst(sorted@[b].1));
        }
        assert forall|c: (i32, i32)| #[trigger] result@.contains(c) <==> in_disc(c, distance as int, distance as int * distance as int) by {
            if result@.contains(c) {
                let t = choose|t: int| 0 <= t < result@.len() && result@[t] == c;
                assert(sorted@.contains(sorted@[t]));
                assert(pairs@.contains(sorted@[t]));
                let j = choose|j: int| 0 <= j < pairs@.len() && pairs@[j] == sorted@[t];
                assert(in_disc(all@[j], distance as int, bound as int));
            }
            if in_disc(c, distance as int, distance as int * distance as int) {
                assert(all@.contains(c));
                let j = choose|j: int| 0 <= j < all@.len() && all@[j] == c;
                assert(pairs@[j] == (dst(c) as u32, c));
                assert(pairs@.contains(pairs@[j]));
                assert(sorted@.contains(pairs@[j]));
                let t = choose|t: int| 0 <= t < sorted@.len() && sorted@[t] == pairs@[j];
                assert(result@[t] == c);
            }
        }
    }
    result
}

} // verus!
