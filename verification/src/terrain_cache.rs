//! The two chunk windows of the terrain manager: generated chunks (with the
//! chunks being generated) and the GPU buffers built from their meshes.

use crate::coords::{calculate_coords, coord_limit, dst, in_disc};
use crate::grid::{axis_ok, side_of, small_shift, RingGrid2};
use std::collections::BTreeSet;
use vstd::prelude::*;

verus! {

broadcast use {vstd::std_specs::btree::group_btree_axioms, vstd::laws_cmp::group_laws_cmp};

/// A cache distance whose window's slots can be indexed and whose offsets
/// stay within `i32` arithmetic.
pub open spec fn cache_distance_ok(distance: int) -> bool {
    &&& 0 <= distance <= coord_limit()
    &&& side_of(distance) * side_of(distance) <= usize::MAX
}

/// A window center whose coordinates and neighbourhood stay inside `i32`.
pub open spec fn center_ok(x: int, y: int, distance: int) -> bool {
    &&& axis_ok(x, distance)
    &&& axis_ok(y, distance)
}

/// Chunk position of an offset from the window center.
pub open spec fn at(cx: int, cy: int, o: (i32, i32)) -> (i32, i32) {
    ((cx + o.0) as i32, (cy + o.1) as i32)
}

/// The four horizontal neighbours of a chunk, in the order +x, -x, +y, -y.
pub open spec fn neighbour(p: (i32, i32), k: int) -> (i32, i32) {
    if k == 0 {
        ((p.0 + 1) as i32, p.1)
    } else if k == 1 {
        ((p.0 - 1) as i32, p.1)
    } else if k == 2 {
        (p.0, (p.1 + 1) as i32)
    } else {
        (p.0, (p.1 - 1) as i32)
    }
}

/// A chunk together with its four neighbours, in the order self, +x, -x, +y,
/// -y: the five chunks its mesh is built from.
pub open spec fn five(p: (i32, i32), k: int) -> (i32, i32) {
    if k == 0 {
        p
    } else {
        neighbour(p, k - 1)
    }
}

/// A chunk position at least `margin` away from the edges of `i32`.
pub open spec fn pos_ok(p: (i32, i32), margin: int) -> bool {
    i32::MIN + margin <= p.0 <= i32::MAX - margin && i32::MIN + margin <= p.1 <= i32::MAX - margin
}

pub struct MapCache<C> {
    chunk_loading: BTreeSet<(i32, i32)>,
    chunks: RingGrid2<C>,
    coords: Vec<(i32, i32)>,
}

/// The window positions, in the order of the offsets, whose grid cell holds
/// something.
pub open spec fn present_prefix<T>(grid: RingGrid2<T>, offs: Seq<(i32, i32)>, n: int) -> Seq<
    (i32, i32),
>
    decreases n,
{
    if n <= 0 {
        Seq::empty()
    } else {
        let prev = present_prefix(grid, offs, n - 1);
        let (cx, cy, _, _) = grid.center();
        let p = at(cx, cy, offs[n - 1]);
        if grid.cell(p.0 as int, p.1 as int) is Some {
            prev.push(p)
        } else {
            prev
        }
    }
}

/// Offsets of the disc of radius `d`, nearest first.
pub open spec fn disc_offsets(offs: Seq<(i32, i32)>, d: int) -> bool {
    &&& forall|i: int, j: int| 0 <= i < j < offs.len() ==> dst(offs[i]) <= dst(offs[j])
    &&& offs.no_duplicates()
    &&& forall|c: (i32, i32)| #[trigger] offs.contains(c) <==> in_disc(c, d, d * d)
}

impl<C> MapCache<C> {
    pub closed spec fn grid(&self) -> RingGrid2<C> {
        self.chunks
    }

    /// The chunks handed out for generation and not yet returned.
    pub closed spec fn loading(&self) -> Set<(i32, i32)> {
        self.chunk_loading@
    }

    /// Offsets from the center, in the order chunks are requested.
    pub closed spec fn offsets(&self) -> Seq<(i32, i32)> {
        self.coords@
    }

    pub closed spec fn wf(&self) -> bool {
        &&& self.chunks.wf()
        &&& cache_distance_ok(self.chunks.dist())
        &&& disc_offsets(self.coords@, self.chunks.dist())
    }

    /// What the cache holds for chunk (x, y).
    pub open spec fn cell(&self, x: int, y: int) -> Option<C> {
        self.grid().cell(x, y)
    }

    /// An empty cache of the given distance around the eye's chunk (x, y).
    pub fn new(cache_distance: usize, x: i32, y: i32, x_upper: bool, y_upper: bool) -> (r: Self)
        requires
            cache_distance_ok(cache_distance as int),
            center_ok(x as int, y as int, cache_distance as int),
        ensures
            r.wf(),
            r.grid().dist() == cache_distance,
            r.grid().center() == (x as int, y as int, x_upper, y_upper),
            r.loading() == Set::<(i32, i32)>::empty(),
            forall|a: int, b: int| #[trigger] r.cell(a, b) is None,
    {
        MapCache {
            chunk_loading: BTreeSet::new(),
            chunks: RingGrid2::new(cache_distance, x, y, x_upper, y_upper),
            coords: calculate_coords(cache_distance as i32),
        }
    }

    /// Store the chunk for (x, y); outside the window nothing changes.
    pub fn set(&mut self, x: i32, y: i32, chunk: Option<C>)
        requires
            old(self).wf(),
        ensures
            final(self).wf(),
            final(self).loading() == old(self).loading(),
            final(self).offsets() == old(self).offsets(),
            final(self).grid().dist() == old(self).grid().dist(),
            final(self).grid().center() == old(self).grid().center(),
            forall|a: int, b: int| #[trigger]
                final(self).cell(a, b) == if a == x && b == y && old(self).grid().contains(a, b) {
                    chunk
                } else {
                    old(self).cell(a, b)
                },
    {
        self.chunks.set(x, y, chunk);
    }

    /// Forget every chunk and every pending generation.
    pub fn reset(&mut self)
        requires
            old(self).wf(),
        ensures
            final(self).wf(),
            final(self).offsets() == old(self).offsets(),
            final(self).grid().dist() == old(self).grid().dist(),
            final(self).grid().center() == old(self).grid().center(),
            final(self).loading() == Set::<(i32, i32)>::empty(),
            forall|a: int, b: int| #[trigger] final(self).cell(a, b) is None,
    {
        self.chunks.reset();
        self.chunk_loading.clear();
    }

    /// Change how many chunks around the eye are kept; a new distance forgets
    /// everything.
    pub fn set_cache_distance(&mut self, new_cache_distance: usize)
        requires
            old(self).wf(),
            cache_distance_ok(new_cache_distance as int),
            ({
                let (x, y, _, _) = old(self).grid().center();
                center_ok(x, y, new_cache_distance as int)
            }),
        ensures
            final(self).wf(),
            final(self).grid().dist() == new_cache_distance,
            final(self).grid().center() == old(self).grid().center(),
            new_cache_distance == old(self).grid().dist() ==> *final(self) == *old(self),
            new_cache_distance != old(self).grid().dist() ==> {
                &&& final(self).loading() == Set::<(i32, i32)>::empty()
                &&& forall|a: int, b: int| #[trigger] final(self).cell(a, b) is None
            },
    {
        if self.chunks.distance() == new_cache_distance {
            return;
        }
        let (x, y, x_upper, y_upper) = self.chunks.center_exec();
        *self = MapCache::new(new_cache_distance, x, y, x_upper, y_upper);
    }

    /// Follow the eye: the window moves to the eye's chunk (x, y); see
    /// [`RingGrid2::recenter`] for which chunks are kept. A jump that empties
    /// the window also forgets the pending generations.
    pub fn set_eye(&mut self, x: i32, y: i32, x_upper: bool, y_upper: bool)
        requires
            old(self).wf(),
            center_ok(x as int, y as int, old(self).grid().dist()),
        ensures
            final(self).wf(),
            final(self).loading() == if ({
                let (ox, oy, oux, ouy) = old(self).grid().center();
                let d = old(self).grid().dist();
                small_shift(ox, oux, x as int, x_upper, d) && small_shift(oy, ouy, y as int, y_upper, d)
            }) {
                old(self).loading()
            } else {
                Set::<(i32, i32)>::empty()
            },
            final(self).offsets() == old(self).offsets(),
            final(self).grid().dist() == old(self).grid().dist(),
            final(self).grid().center() == (x as int, y as int, x_upper, y_upper),
            ({
                let (ox, oy, oux, ouy) = old(self).grid().center();
                let d = old(self).grid().dist();
                small_shift(ox, oux, x as int, x_upper, d) && small_shift(
                    oy,
                    ouy,
                    y as int,
                    y_upper,
                    d,
                )
            }) ==> forall|a: int, b: int| #[trigger]
                final(self).cell(a, b) == if old(self).grid().contains(a, b)
                    && final(self).grid().contains(a, b) {
                    old(self).cell(a, b)
                } else {
                    None
                },
            !({
                let (ox, oy, oux, ouy) = old(self).grid().center();
                let d = old(self).grid().dist();
                small_shift(ox, oux, x as int, x_upper, d) && small_shift(
                    oy,
                    ouy,
                    y as int,
                    y_upper,
                    d,
                )
            }) ==> forall|a: int, b: int| #[trigger] final(self).cell(a, b) is None,
    {
        let kept = self.chunks.recenter(x, y, x_upper, y_upper);
        if !kept {
            self.chunk_loading.clear();
        }
    }

    /// Whether chunk p still has to be generated: it is not held and nobody
    /// is generating it.
    pub open spec fn pending(&self, p: (i32, i32)) -> bool {
        &&& self.cell(p.0 as int, p.1 as int) is None
        &&& !self.loading().contains(p)
    }

    /// Hand out the nearest chunk that still has to be generated, and mark it
    /// as being generated.
    pub fn next_chunk_job(&mut self) -> (r: Option<(i32, i32)>)
        requires
            old(self).wf(),
        ensures
            final(self).wf(),
            final(self).grid() == old(self).grid(),
            final(self).offsets() == old(self).offsets(),
            ({
                let (cx, cy, _, _) = old(self).grid().center();
                let offs = old(self).offsets();
                match r {
                    Some(p) => {
                        &&& exists|i: int|
                            0 <= i < offs.len() && p == at(cx, cy, offs[i]) && forall|j: int|
                                0 <= j < i ==> !old(self).pending(#[trigger] at(cx, cy, offs[j]))
                        &&& old(self).pending(p)
                        &&& final(self).loading() == old(self).loading().insert(p)
                    },
                    None => {
                        &&& forall|i: int|
                            0 <= i < offs.len() ==> !old(self).pending(#[trigger] at(cx, cy, offs[i]))
                        &&& final(self).loading() == old(self).loading()
                    },
                }
            }),
    {
        let (cx, cy, _, _) = self.chunks.center_exec();
        let n = self.coords.len();
        let mut i: usize = 0;
        while i < n
            invariant
                self == old(self),
                self.wf(),
                n == self.coords@.len(),
                i <= n,
                (cx as int, cy as int) == (self.grid().center().0, self.grid().center().1),
                forall|j: int| 0 <= j < i ==> !self.pending(#[trigger] at(cx as int, cy as int, self.coords@[j])),
            decreases n - i,
        {
            let o = self.coords[i];
            proof {
                assert(self.coords@[i as int] == o);
                assert(self.coords@.contains(o));
                assert(in_disc(o, self.chunks.dist(), self.chunks.dist() * self.chunks.dist()));
                self.chunks.lemma_wf_center();
            }
            let p = (cx + o.0, cy + o.1);
            proof {
                assert(p == at(cx as int, cy as int, self.coords@[i as int]));
            }
            let held = self.chunks.has(p.0, p.1);
            if !held && !self.chunk_loading.contains(&p) {
                self.chunk_loading.insert(p);
                return Some(p);
            }
            i = i + 1;
        }
        None
    }
}

impl<C: Clone> MapCache<C> {
    /// `v` holds clones of the five chunks of `p`'s neighbourhood.
    pub open spec fn five_cloned(&self, p: (i32, i32), v: Seq<C>) -> bool {
        &&& v.len() == 5
        &&& forall|k: int|
            0 <= k < 5 ==> cloned(
                #[trigger] self.cell(five(p, k).0 as int, five(p, k).1 as int)->0,
                v[k],
            )
    }

    /// The chunk held for (x, y), cloned.
    pub fn get(&self, x: i32, y: i32) -> (r: Option<C>)
        requires
            self.wf(),
        ensures
            r is None <==> self.cell(x as int, y as int) is None,
            r is Some ==> cloned(self.cell(x as int, y as int)->0, r->0),
            !self.grid().contains(x as int, y as int) ==> r is None,
    {
        self.chunks.get(x, y)
    }

    /// The five chunks of `p`'s neighbourhood, if all are held.
    fn gather_five(&self, p: (i32, i32)) -> (r: Option<Vec<C>>)
        requires
            self.wf(),
            pos_ok(p, 1),
        ensures
            r is Some <==> forall|k: int| 0 <= k < 5 ==> (#[trigger] self.cell(five(p, k).0 as int, five(p, k).1 as int)) is Some,
            r matches Some(v) ==> self.five_cloned(p, v@),
    {
        let positions = [p, (p.0 + 1, p.1), (p.0 - 1, p.1), (p.0, p.1 + 1), (p.0, p.1 - 1)];
        let mut chunks: Vec<C> = Vec::new();
        let mut k: usize = 0;
        while k < 5
            invariant
                self.wf(),
                k <= 5,
                chunks@.len() == k,
                forall|j: int| 0 <= j < 5 ==> positions@[j] == five(p, j),
                forall|j: int| 0 <= j < k ==> (#[trigger] self.cell(five(p, j).0 as int, five(p, j).1 as int)) is Some,
                forall|j: int| 0 <= j < k ==> cloned(#[trigger] self.cell(five(p, j).0 as int, five(p, j).1 as int)->0, chunks@[j]),
            decreases 5 - k,
        {
            let q = positions[k];
            match self.chunks.get(q.0, q.1) {
                Some(c) => {
                    chunks.push(c);
                },
                None => {
                    proof {
                        assert(positions@[k as int] == five(p, k as int));
                        assert(self.cell(five(p, k as int).0 as int, five(p, k as int).1 as int) is None);
                    }
                    return None;
                },
            }
            k = k + 1;
        }
        Some(chunks)
    }

    /// Take a generated chunk: it stops being pending and is stored. Returns
    /// the mesh jobs it completes: for the chunk itself and then each of its
    /// four neighbours (+x, -x, +y, -y), every one that is held together with
    /// all four of its own neighbours, with those five chunks.
    pub fn chunk_arrived(&mut self, x: i32, y: i32, chunk: C) -> (r: Vec<((i32, i32), Vec<C>)>)
        requires
            old(self).wf(),
            pos_ok((x, y), 2),
        ensures
            final(self).wf(),
            final(self).offsets() == old(self).offsets(),
            final(self).loading() == old(self).loading().remove((x, y)),
            final(self).grid().center() == old(self).grid().center(),
            final(self).grid().dist() == old(self).grid().dist(),
            forall|a: int, b: int| #[trigger]
                final(self).cell(a, b) == if a == x && b == y && old(self).grid().contains(a, b) {
                    Some(chunk)
                } else {
                    old(self).cell(a, b)
                },
            r@.map_values(|q: ((i32, i32), Vec<C>)| q.0) == Seq::new(5, |k: int| five((x, y), k)).filter(
                |p: (i32, i32)| forall|k: int| 0 <= k < 5 ==> (#[trigger] final(self).cell(five(p, k).0 as int, five(p, k).1 as int)) is Some,
            ),
            forall|i: int| 0 <= i < r@.len() ==> final(self).five_cloned(#[trigger] r@[i].0, r@[i].1@),
    {
        self.chunk_loading.remove(&(x, y));
        self.chunks.set(x, y, Some(chunk));
        let centers = [(x, y), (x + 1, y), (x - 1, y), (x, y + 1), (x, y - 1)];
        let ghost all = Seq::new(5, |k: int| five((x, y), k));
        let ghost complete = |p: (i32, i32)| forall|k: int| 0 <= k < 5 ==> (#[trigger] self.cell(five(p, k).0 as int, five(p, k).1 as int)) is Some;
        let mut requests: Vec<((i32, i32), Vec<C>)> = Vec::new();
        let mut d: usize = 0;
        while d < 5
            invariant
                self.wf(),
                d <= 5,
                pos_ok((x, y), 2),
                forall|j: int| 0 <= j < 5 ==> centers@[j] == all[j],
                all == Seq::new(5, |k: int| five((x, y), k)),
                complete == (|p: (i32, i32)| forall|k: int| 0 <= k < 5 ==> (#[trigger] self.cell(five(p, k).0 as int, five(p, k).1 as int)) is Some),
                requests@.map_values(|q: ((i32, i32), Vec<C>)| q.0) == all.take(d as int).filter(complete),
                forall|i: int| 0 <= i < requests@.len() ==> self.five_cloned(#[trigger] requests@[i].0, requests@[i].1@),
            decreases 5 - d,
        {
            let p = centers[d];
            let ghost before = requests@;
            proof {
                assert(centers@[d as int] == p);
                assert(all[d as int] == five((x, y), d as int));
                assert(p == five((x, y), d as int));
                assert(pos_ok(p, 1));
            }
            proof {
                assert(all.take(d + 1).drop_last() =~= all.take(d as int));
                reveal_with_fuel(Seq::filter, 1);
            }
            match self.gather_five(p) {
                Some(chunks) => {
                    requests.push((p, chunks));
                    proof {
                        assert forall|i: int| 0 <= i < requests@.len() implies self.five_cloned(#[trigger] requests@[i].0, requests@[i].1@) by {
                            if i < before.len() {
                                assert(requests@[i] == before[i]);
                            }
                        }
                        assert(requests@.map_values(|q: ((i32, i32), Vec<C>)| q.0) =~= before.map_values(|q: ((i32, i32), Vec<C>)| q.0).push(p));
                    }
                },
                None => {},
            }
            d = d + 1;
        }
        proof {
            assert(all.take(5) =~= all);
        }
        requests
    }
}

pub struct BufferCache<B> {
    buffers: RingGrid2<B>,
    coords: Vec<(i32, i32)>,
    farthest_distance_sq: i32,
}

impl<B> BufferCache<B> {
    pub closed spec fn grid(&self) -> RingGrid2<B> {
        self.buffers
    }

    /// Offsets from the center, in the order buffers are listed.
    pub closed spec fn offsets(&self) -> Seq<(i32, i32)> {
        self.coords@
    }

    /// The largest squared distance from the center, in chunks, at which a
    /// buffer was stored.
    pub closed spec fn farthest(&self) -> int {
        self.farthest_distance_sq as int
    }

    pub closed spec fn wf(&self) -> bool {
        &&& self.buffers.wf()
        &&& cache_distance_ok(self.buffers.dist())
        &&& disc_offsets(self.coords@, self.buffers.dist())
        &&& self.farthest_distance_sq >= 0
    }

    pub open spec fn cell(&self, x: int, y: int) -> Option<B> {
        self.grid().cell(x, y)
    }

    pub fn new(cache_distance: usize, x: i32, y: i32, x_upper: bool, y_upper: bool) -> (r: Self)
        requires
            cache_distance_ok(cache_distance as int),
            center_ok(x as int, y as int, cache_distance as int),
        ensures
            r.wf(),
            r.grid().dist() == cache_distance,
            r.grid().center() == (x as int, y as int, x_upper, y_upper),
            r.farthest() == 0,
            forall|a: int, b: int| #[trigger] r.cell(a, b) is None,
    {
        BufferCache {
            buffers: RingGrid2::new(cache_distance, x, y, x_upper, y_upper),
            coords: calculate_coords(cache_distance as i32),
            farthest_distance_sq: 0,
        }
    }

    pub fn set(&mut self, x: i32, y: i32, buffer: Option<B>)
        requires
            old(self).wf(),
        ensures
            final(self).wf(),
            final(self).offsets() == old(self).offsets(),
            final(self).farthest() == old(self).farthest(),
            final(self).grid().dist() == old(self).grid().dist(),
            final(self).grid().center() == old(self).grid().center(),
            forall|a: int, b: int| #[trigger]
                final(self).cell(a, b) == if a == x && b == y && old(self).grid().contains(a, b) {
                    buffer
                } else {
                    old(self).cell(a, b)
                },
    {
        self.buffers.set(x, y, buffer);
    }

    pub fn reset(&mut self)
        requires
            old(self).wf(),
        ensures
            final(self).wf(),
            final(self).offsets() == old(self).offsets(),
            final(self).farthest() == old(self).farthest(),
            final(self).grid().dist() == old(self).grid().dist(),
            final(self).grid().center() == old(self).grid().center(),
            forall|a: int, b: int| #[trigger] final(self).cell(a, b) is None,
    {
        self.buffers.reset();
    }

    /// Change how many chunks around the eye are kept; a new distance forgets
    /// every buffer.
    pub fn set_cache_distance(&mut self, new_cache_distance: usize)
        requires
            old(self).wf(),
            cache_distance_ok(new_cache_distance as int),
            ({
                let (x, y, _, _) = old(self).grid().center();
                center_ok(x, y, new_cache_distance as int)
            }),
        ensures
            final(self).wf(),
            final(self).grid().dist() == new_cache_distance,
            final(self).grid().center() == old(self).grid().center(),
            final(self).farthest() == old(self).farthest(),
            new_cache_distance == old(self).grid().dist() ==> *final(self) == *old(self),
            new_cache_distance != old(self).grid().dist() ==> forall|a: int, b: int| #[trigger]
                final(self).cell(a, b) is None,
    {
        if self.buffers.distance() == new_cache_distance {
            return;
        }
        let (x, y, x_upper, y_upper) = self.buffers.center_exec();
        let farthest = self.farthest_distance_sq;
        let fresh = BufferCache::new(new_cache_distance, x, y, x_upper, y_upper);
        let ghost fresh_grid = fresh.grid();
        *self = BufferCache { farthest_distance_sq: farthest, ..fresh };
        proof {
            assert(self.grid() == fresh_grid);
            assert forall|a: int, b: int| #[trigger] self.cell(a, b) is None by {
                assert(fresh.cell(a, b) is None);
            }
        }
    }

    /// Follow the eye, as [`MapCache::set_eye`] does.
    pub fn set_eye(&mut self, x: i32, y: i32, x_upper: bool, y_upper: bool)
        requires
            old(self).wf(),
            center_ok(x as int, y as int, old(self).grid().dist()),
        ensures
            final(self).wf(),
            final(self).offsets() == old(self).offsets(),
            final(self).farthest() == old(self).farthest(),
            final(self).grid().dist() == old(self).grid().dist(),
            final(self).grid().center() == (x as int, y as int, x_upper, y_upper),
            ({
                let (ox, oy, oux, ouy) = old(self).grid().center();
                let d = old(self).grid().dist();
                small_shift(ox, oux, x as int, x_upper, d) && small_shift(
                    oy,
                    ouy,
                    y as int,
                    y_upper,
                    d,
                )
            }) ==> forall|a: int, b: int| #[trigger]
                final(self).cell(a, b) == if old(self).grid().contains(a, b)
                    && final(self).grid().contains(a, b) {
                    old(self).cell(a, b)
                } else {
                    None
                },
            !({
                let (ox, oy, oux, ouy) = old(self).grid().center();
                let d = old(self).grid().dist();
                small_shift(ox, oux, x as int, x_upper, d) && small_shift(
                    oy,
                    ouy,
                    y as int,
                    y_upper,
                    d,
                )
            }) ==> forall|a: int, b: int| #[trigger] final(self).cell(a, b) is None,
    {
        self.buffers.recenter(x, y, x_upper, y_upper);
    }

    /// Store the buffer built for chunk (x, y) and remember how far from the
    /// center it lies.
    pub fn store(&mut self, x: i32, y: i32, buffer: B)
        requires
            old(self).wf(),
            (x - old(self).grid().center().0) * (x - old(self).grid().center().0) + (y
                - old(self).grid().center().1) * (y - old(self).grid().center().1) <= i32::MAX,
        ensures
            final(self).wf(),
            final(self).offsets() == old(self).offsets(),
            final(self).grid().dist() == old(self).grid().dist(),
            final(self).grid().center() == old(self).grid().center(),
            forall|a: int, b: int| #[trigger]
                final(self).cell(a, b) == if a == x && b == y && old(self).grid().contains(a, b) {
                    Some(buffer)
                } else {
                    old(self).cell(a, b)
                },
            final(self).farthest() == vstd::math::max(
                old(self).farthest(),
                (x - old(self).grid().center().0) * (x - old(self).grid().center().0) + (y
                    - old(self).grid().center().1) * (y - old(self).grid().center().1),
            ),
    {
        let (cx, cy, _, _) = self.buffers.center_exec();
        proof {
            let a = x - cx;
            let b = y - cy;
            assert(a * a >= 0 && b * b >= 0) by (nonlinear_arith);
            assert(-46341 < a < 46341 && -46341 < b < 46341) by (nonlinear_arith)
                requires
                    a * a + b * b <= 2147483647,
                    a * a >= 0,
                    b * b >= 0,
            ;
        }
        let dx = x - cx;
        let dy = y - cy;
        let d = dx * dx + dy * dy;
        self.buffers.set(x, y, Some(buffer));
        if d > self.farthest_distance_sq {
            self.farthest_distance_sq = d;
        }
    }

    pub fn farthest_distance_sq(&self) -> (r: i32)
        ensures
            r == self.farthest(),
    {
        self.farthest_distance_sq
    }
}

impl<B: Clone> BufferCache<B> {
    pub fn get(&self, x: i32, y: i32) -> (r: Option<B>)
        requires
            self.wf(),
        ensures
            r is None <==> self.cell(x as int, y as int) is None,
            r is Some ==> cloned(self.cell(x as int, y as int)->0, r->0),
            !self.grid().contains(x as int, y as int) ==> r is None,
    {
        self.buffers.get(x, y)
    }

    /// The buffers inside the disc around the eye, nearest first, with their
    /// chunk positions.
    pub fn available(&self) -> (r: Vec<((i32, i32), B)>)
        requires
            self.wf(),
        ensures
            r@.map_values(|e: ((i32, i32), B)| e.0) == present_prefix(
                self.grid(),
                self.offsets(),
                self.offsets().len() as int,
            ),
            forall|i: int|
                0 <= i < r@.len() ==> cloned(
                    self.cell((#[trigger] r@[i]).0.0 as int, r@[i].0.1 as int)->0,
                    r@[i].1,
                ) && self.cell(r@[i].0.0 as int, r@[i].0.1 as int) is Some,
    {
        let (cx, cy, _, _) = self.buffers.center_exec();
        let n = self.coords.len();
        let mut result: Vec<((i32, i32), B)> = Vec::new();
        let mut i: usize = 0;
        while i < n
            invariant
                self.wf(),
                n == self.coords@.len(),
                i <= n,
                (cx as int, cy as int) == (self.grid().center().0, self.grid().center().1),
                result@.map_values(|e: ((i32, i32), B)| e.0) == present_prefix(
                    self.grid(),
                    self.offsets(),
                    i as int,
                ),
                forall|j: int|
                    0 <= j < result@.len() ==> cloned(
                        self.cell((#[trigger] result@[j]).0.0 as int, result@[j].0.1 as int)->0,
                        result@[j].1,
                    ) && self.cell(result@[j].0.0 as int, result@[j].0.1 as int) is Some,
            decreases n - i,
        {
            let o = self.coords[i];
            proof {
                assert(self.coords@[i as int] == o);
                assert(self.coords@.contains(o));
                assert(in_disc(o, self.buffers.dist(), self.buffers.dist() * self.buffers.dist()));
                self.buffers.lemma_wf_center();
            }
            let p = (cx + o.0, cy + o.1);
            let ghost before = result@;
            match self.buffers.get(p.0, p.1) {
                Some(b) => {
                    result.push((p, b));
                    proof {
                        assert(result@.map_values(|e: ((i32, i32), B)| e.0) =~= before.map_values(
                            |e: ((i32, i32), B)| e.0,
                        ).push(p));
                        assert forall|j: int| 0 <= j < result@.len() implies cloned(
                            self.cell((#[trigger] result@[j]).0.0 as int, result@[j].0.1 as int)->0,
                            result@[j].1,
                        ) && self.cell(result@[j].0.0 as int, result@[j].0.1 as int) is Some by {
                            if j < before.len() {
                                assert(result@[j] == before[j]);
                            }
                        }
                    }
                },
                None => {},
            }
            i = i + 1;
        }
        result
    }
}

} // verus!
