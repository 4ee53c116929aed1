//! The chunk cache of the fully three-dimensional world: a cubic window of
//! chunks and of their meshes around the eye, with the chunks handed out for
//! generation and the generated chunks waiting for a mesh.

use crate::coords3::{calculate_coords3, coord_limit3, dst3, in_ball};
use crate::grid::{axis_ok, side_of, small_shift};
use crate::grid3::RingGrid3;
use std::collections::BTreeSet;
use vstd::prelude::*;

verus! {

broadcast use {vstd::std_specs::btree::group_btree_axioms, vstd::laws_cmp::group_laws_cmp};

/// A chunk position in the three-dimensional grid.
pub type Pos3 = (i32, i32, i32);

/// A cache distance whose window's slots can be indexed and whose offsets
/// stay within `i32` arithmetic.
pub open spec fn cache_distance3_ok(distance: int) -> bool {
    &&& 0 <= distance <= coord_limit3()
    &&& side_of(distance) * side_of(distance) * side_of(distance) <= usize::MAX
}

/// A window center whose coordinates and neighbourhood stay inside `i32`.
pub open spec fn center3_ok(x: int, y: int, z: int, distance: int) -> bool {
    &&& axis_ok(x, distance)
    &&& axis_ok(y, distance)
    &&& axis_ok(z, distance)
}

/// Chunk position of an offset from the window center.
pub open spec fn at3(c: (int, int, int), o: Pos3) -> Pos3 {
    ((c.0 + o.0) as i32, (c.1 + o.1) as i32, (c.2 + o.2) as i32)
}

/// A chunk and its six neighbours, in the order itself, +x, -x, +y, -y, +z,
/// -z.
pub open spec fn seven(p: Pos3, k: int) -> Pos3 {
    if k == 0 {
        p
    } else if k == 1 {
        ((p.0 + 1) as i32, p.1, p.2)
    } else if k == 2 {
        ((p.0 - 1) as i32, p.1, p.2)
    } else if k == 3 {
        (p.0, (p.1 + 1) as i32, p.2)
    } else if k == 4 {
        (p.0, (p.1 - 1) as i32, p.2)
    } else if k == 5 {
        (p.0, p.1, (p.2 + 1) as i32)
    } else {
        (p.0, p.1, (p.2 - 1) as i32)
    }
}

/// A chunk position at least `margin` away from the edges of `i32`.
pub open spec fn pos3_ok(p: Pos3, margin: int) -> bool {
    &&& i32::MIN + margin <= p.0 <= i32::MAX - margin
    &&& i32::MIN + margin <= p.1 <= i32::MAX - margin
    &&& i32::MIN + margin <= p.2 <= i32::MAX - margin
}

/// Offsets of the ball of radius `d`, nearest first.
pub open spec fn ball_offsets(offs: Seq<Pos3>, d: int) -> bool {
    &&& forall|i: int, j: int| 0 <= i < j < offs.len() ==> dst3(offs[i]) <= dst3(offs[j])
    &&& offs.no_duplicates()
    &&& forall|c: Pos3| #[trigger] offs.contains(c) <==> in_ball(c, d, d * d)
}

/// The window positions, in the order of the offsets, whose grid cell holds
/// something.
pub open spec fn present3<T>(grid: RingGrid3<T>, offs: Seq<Pos3>, n: int) -> Seq<Pos3>
    decreases n,
{
    if n <= 0 {
        Seq::empty()
    } else {
        let prev = present3(grid, offs, n - 1);
        let c = grid.center();
        let p = at3((c.0, c.1, c.2), offs[n - 1]);
        if grid.cell(p.0 as int, p.1 as int, p.2 as int) is Some {
            prev.push(p)
        } else {
            prev
        }
    }
}

pub struct ChunkCache<C, M> {
    chunk_loading: BTreeSet<Pos3>,
    chunks: RingGrid3<C>,
    mesh_loading: BTreeSet<Pos3>,
    meshes: RingGrid3<M>,
    coords: Vec<Pos3>,
}

impl<C, M> ChunkCache<C, M> {
    pub closed spec fn chunk_grid(&self) -> RingGrid3<C> {
        self.chunks
    }

    pub closed spec fn mesh_grid(&self) -> RingGrid3<M> {
        self.meshes
    }

    /// The chunks handed out for generation and not yet returned.
    pub closed spec fn loading(&self) -> Set<Pos3> {
        self.chunk_loading@
    }

    /// The generated chunks still waiting for a mesh.
    pub closed spec fn awaiting_mesh(&self) -> Set<Pos3> {
        self.mesh_loading@
    }

    /// Offsets from the center, in the order chunks are requested.
    pub closed spec fn offsets(&self) -> Seq<Pos3> {
        self.coords@
    }

    /// The cache is well formed, and its mesh window is the eye's window:
    /// the same center and distance as the chunk window.
    pub open spec fn wf(&self) -> bool {
        &&& self.inv()
        &&& self.mesh_grid().dist() == self.dist()
        &&& self.mesh_grid().center() == self.center()
    }

    /// The windows, the offsets and the waiting positions are well formed.
    pub closed spec fn inv(&self) -> bool {
        &&& self.chunks.wf()
        &&& self.meshes.wf()
        &&& cache_distance3_ok(self.chunks.dist())
        &&& ball_offsets(self.coords@, self.chunks.dist())
        &&& forall|p: Pos3| #[trigger] self.mesh_loading@.contains(p) ==> pos3_ok(p, 1)
    }

    /// The window's distance.
    pub open spec fn dist(&self) -> int {
        self.chunk_grid().dist()
    }

    /// The eye's chunk and its halves.
    pub open spec fn center(&self) -> (int, int, int, bool, bool, bool) {
        self.chunk_grid().center()
    }

    /// The chunk held for (x, y, z).
    pub open spec fn chunk(&self, x: int, y: int, z: int) -> Option<C> {
        self.chunk_grid().cell(x, y, z)
    }

    /// The mesh held for (x, y, z).
    pub open spec fn mesh(&self, x: int, y: int, z: int) -> Option<M> {
        self.mesh_grid().cell(x, y, z)
    }

    /// Whether chunk p still has to be generated: it is not held and nobody
    /// is generating it.
    pub open spec fn pending(&self, p: Pos3) -> bool {
        &&& self.chunk(p.0 as int, p.1 as int, p.2 as int) is None
        &&& !self.loading().contains(p)
    }

    /// Whether chunk p and its six neighbours are all held.
    pub open spec fn complete(&self, p: Pos3) -> bool {
        forall|k: int| 0 <= k < 7 ==> (#[trigger] self.chunk(seven(p, k).0 as int, seven(p, k).1 as int, seven(p, k).2 as int)) is Some
    }

    /// An empty cache of the given distance around the eye's chunk
    /// (x, y, z).
    pub fn new(
        cache_distance: usize,
        x: i32,
        y: i32,
        z: i32,
        x_upper: bool,
        y_upper: bool,
        z_upper: bool,
    ) -> (r: Self)
        requires
            cache_distance3_ok(cache_distance as int),
            center3_ok(x as int, y as int, z as int, cache_distance as int),
        ensures
            r.wf(),
            r.dist() == cache_distance,
            r.center() == (x as int, y as int, z as int, x_upper, y_upper, z_upper),
            r.loading() == Set::<Pos3>::empty(),
            r.awaiting_mesh() == Set::<Pos3>::empty(),
            forall|a: int, b: int, c: int| #[trigger] r.chunk(a, b, c) is None,
            forall|a: int, b: int, c: int| #[trigger] r.mesh(a, b, c) is None,
    {
        ChunkCache {
            chunk_loading: BTreeSet::new(),
            chunks: RingGrid3::new(cache_distance, x, y, z, x_upper, y_upper, z_upper),
            mesh_loading: BTreeSet::new(),
            meshes: RingGrid3::new(cache_distance, x, y, z, x_upper, y_upper, z_upper),
            coords: calculate_coords3(cache_distance as i32),
        }
    }

    /// Store the chunk for (x, y, z); outside the window nothing changes.
    pub fn set_chunk(&mut self, x: i32, y: i32, z: i32, chunk: Option<C>)
        requires
            old(self).wf(),
        ensures
            final(self).wf(),
            final(self).loading() == old(self).loading(),
            final(self).awaiting_mesh() == old(self).awaiting_mesh(),
            final(self).offsets() == old(self).offsets(),
            final(self).mesh_grid() == old(self).mesh_grid(),
            final(self).dist() == old(self).dist(),
            final(self).center() == old(self).center(),
            forall|a: int, b: int, c: int| #[trigger]
                final(self).chunk(a, b, c) == if a == x && b == y && c == z && old(self).chunk_grid().contains(a, b, c) {
                    chunk
                } else {
                    old(self).chunk(a, b, c)
                },
    {
        self.chunks.set(x, y, z, chunk);
    }

    /// Store the mesh for (x, y, z); outside the window nothing changes.
    pub fn set_mesh(&mut self, x: i32, y: i32, z: i32, mesh: Option<M>)
        requires
            old(self).wf(),
        ensures
            final(self).wf(),
            final(self).loading() == old(self).loading(),
            final(self).awaiting_mesh() == old(self).awaiting_mesh(),
            final(self).offsets() == old(self).offsets(),
            final(self).chunk_grid() == old(self).chunk_grid(),
            final(self).mesh_grid().dist() == old(self).mesh_grid().dist(),
            final(self).mesh_grid().center() == old(self).mesh_grid().center(),
            forall|a: int, b: int, c: int| #[trigger]
                final(self).mesh(a, b, c) == if a == x && b == y && c == z && old(self).mesh_grid().contains(a, b, c) {
                    mesh
                } else {
                    old(self).mesh(a, b, c)
                },
    {
        self.meshes.set(x, y, z, mesh);
    }

    /// Forget every chunk, every mesh and every pending job.
    pub fn reset(&mut self)
        requires
            old(self).wf(),
        ensures
            final(self).wf(),
            final(self).offsets() == old(self).offsets(),
            final(self).dist() == old(self).dist(),
            final(self).center() == old(self).center(),
            final(self).loading() == Set::<Pos3>::empty(),
            final(self).awaiting_mesh() == Set::<Pos3>::empty(),
            forall|a: int, b: int, c: int| #[trigger] final(self).chunk(a, b, c) is None,
            forall|a: int, b: int, c: int| #[trigger] final(self).mesh(a, b, c) is None,
    {
        self.chunks.reset();
        self.meshes.reset();
        self.chunk_loading.clear();
        self.mesh_loading.clear();
    }

    /// Change how many chunks around the eye are kept; a new distance forgets
    /// everything.
    pub fn set_cache_distance(&mut self, new_cache_distance: usize)
        requires
            old(self).wf(),
            cache_distance3_ok(new_cache_distance as int),
            ({
                let c = old(self).center();
                center3_ok(c.0, c.1, c.2, new_cache_distance as int)
            }),
        ensures
            final(self).wf(),
            final(self).dist() == new_cache_distance,
            final(self).center() == old(self).center(),
            new_cache_distance == old(self).dist() ==> *final(self) == *old(self),
            new_cache_distance != old(self).dist() ==> {
                &&& final(self).loading() == Set::<Pos3>::empty()
                &&& final(self).awaiting_mesh() == Set::<Pos3>::empty()
                &&& forall|a: int, b: int, c: int| #[trigger] final(self).chunk(a, b, c) is None
                &&& forall|a: int, b: int, c: int| #[trigger] final(self).mesh(a, b, c) is None
            },
    {
        if self.chunks.distance() == new_cache_distance {
            return;
        }
        let (x, y, z, xu, yu, zu) = self.chunks.center_exec();
        *self = ChunkCache::new(new_cache_distance, x, y, z, xu, yu, zu);
    }

    /// Follow the eye: both windows move to the eye's chunk (x, y, z). When
    /// they slide by at most one chunk along each axis, everything still
    /// inside is kept; a longer jump forgets everything, the pending jobs
    /// included.
    pub fn set_eye(&mut self, x: i32, y: i32, z: i32, x_upper: bool, y_upper: bool, z_upper: bool)
        requires
            old(self).wf(),
            center3_ok(x as int, y as int, z as int, old(self).dist()),
        ensures
            final(self).wf(),
            final(self).offsets() == old(self).offsets(),
            final(self).dist() == old(self).dist(),
            final(self).center() == (x as int, y as int, z as int, x_upper, y_upper, z_upper),
            ({
                let o = old(self).center();
                let d = old(self).dist();
                small_shift(o.0, o.3, x as int, x_upper, d) && small_shift(o.1, o.4, y as int, y_upper, d)
                    && small_shift(o.2, o.5, z as int, z_upper, d)
            }) ==> {
                &&& final(self).loading() == old(self).loading()
                &&& final(self).awaiting_mesh() == old(self).awaiting_mesh()
                &&& forall|a: int, b: int, c: int| #[trigger]
                    final(self).chunk(a, b, c) == if old(self).chunk_grid().contains(a, b, c)
                        && final(self).chunk_grid().contains(a, b, c) {
                        old(self).chunk(a, b, c)
                    } else {
                        None
                    }
                &&& forall|a: int, b: int, c: int| #[trigger]
                    final(self).mesh(a, b, c) == if old(self).chunk_grid().contains(a, b, c)
                        && final(self).chunk_grid().contains(a, b, c) {
                        old(self).mesh(a, b, c)
                    } else {
                        None
                    }
            },
            !({
                let o = old(self).center();
                let d = old(self).dist();
                small_shift(o.0, o.3, x as int, x_upper, d) && small_shift(o.1, o.4, y as int, y_upper, d)
                    && small_shift(o.2, o.5, z as int, z_upper, d)
            }) ==> {
                &&& final(self).loading() == Set::<Pos3>::empty()
                &&& final(self).awaiting_mesh() == Set::<Pos3>::empty()
                &&& forall|a: int, b: int, c: int| #[trigger] final(self).chunk(a, b, c) is None
                &&& forall|a: int, b: int, c: int| #[trigger] final(self).mesh(a, b, c) is None
            },
    {
        let kept = self.chunks.recenter(x, y, z, x_upper, y_upper, z_upper);
        self.meshes.recenter(x, y, z, x_upper, y_upper, z_upper);
        if !kept {
            self.chunk_loading.clear();
            self.mesh_loading.clear();
        }
    }

    /// Hand out the nearest chunk that still has to be generated, and mark it
    /// as being generated.
    pub fn next_chunk_job(&mut self) -> (r: Option<Pos3>)
        requires
            old(self).wf(),
        ensures
            final(self).wf(),
            final(self).chunk_grid() == old(self).chunk_grid(),
            final(self).mesh_grid() == old(self).mesh_grid(),
            final(self).awaiting_mesh() == old(self).awaiting_mesh(),
            final(self).offsets() == old(self).offsets(),
            ({
                let c = old(self).center();
                let offs = old(self).offsets();
                match r {
                    Some(p) => {
                        &&& exists|i: int|
                            0 <= i < offs.len() && p == at3((c.0, c.1, c.2), offs[i]) && forall|j: int|
                                0 <= j < i ==> !old(self).pending(#[trigger] at3((c.0, c.1, c.2), offs[j]))
                        &&& old(self).pending(p)
                        &&& final(self).loading() == old(self).loading().insert(p)
                    },
                    None => {
                        &&& forall|i: int|
                            0 <= i < offs.len() ==> !old(self).pending(#[trigger] at3((c.0, c.1, c.2), offs[i]))
                        &&& final(self).loading() == old(self).loading()
                    },
                }
            }),
    {
        let (cx, cy, cz, _, _, _) = self.chunks.center_exec();
        let n = self.coords.len();
        let mut i: usize = 0;
        while i < n
            invariant
                self == old(self),
                self.wf(),
                n == self.coords@.len(),
                i <= n,
                (cx as int, cy as int, cz as int) == (self.center().0, self.center().1, self.center().2),
                forall|j: int| 0 <= j < i ==> !self.pending(#[trigger] at3((cx as int, cy as int, cz as int), self.coords@[j])),
            decreases n - i,
        {
            let o = self.coords[i];
            proof {
                assert(self.coords@[i as int] == o);
                assert(self.coords@.contains(o));
                assert(in_ball(o, self.chunks.dist(), self.chunks.dist() * self.chunks.dist()));
                self.chunks.lemma_wf_center();
            }
            let p = (cx + o.0, cy + o.1, cz + o.2);
            proof {
                assert(p == at3((cx as int, cy as int, cz as int), self.coords@[i as int]));
            }
            let held = self.chunks.has(p.0, p.1, p.2);
            if !held && !self.chunk_loading.contains(&p) {
                proof {
                    let c = old(self).center();
                    assert((c.0, c.1, c.2) == (cx as int, cy as int, cz as int));
                    assert(old(self).pending(p));
                    assert(p == at3((c.0, c.1, c.2), old(self).offsets()[i as int]));
                    assert(forall|j: int|
                        0 <= j < i ==> !old(self).pending(#[trigger] at3((c.0, c.1, c.2), old(self).offsets()[j])));
                }
                self.chunk_loading.insert(p);
                return Some(p);
            }
            i = i + 1;
        }
        None
    }

    /// Take a generated chunk: it stops being generated, is stored, and waits
    /// for its mesh.
    pub fn chunk_arrived(&mut self, x: i32, y: i32, z: i32, chunk: C)
        requires
            old(self).wf(),
            pos3_ok((x, y, z), 1),
        ensures
            final(self).wf(),
            final(self).offsets() == old(self).offsets(),
            final(self).loading() == old(self).loading().remove((x, y, z)),
            final(self).awaiting_mesh() == old(self).awaiting_mesh().insert((x, y, z)),
            final(self).mesh_grid() == old(self).mesh_grid(),
            final(self).dist() == old(self).dist(),
            final(self).center() == old(self).center(),
            forall|a: int, b: int, c: int| #[trigger]
                final(self).chunk(a, b, c) == if a == x && b == y && c == z && old(self).chunk_grid().contains(a, b, c) {
                    Some(chunk)
                } else {
                    old(self).chunk(a, b, c)
                },
    {
        self.chunk_loading.remove(&(x, y, z));
        self.chunks.set(x, y, z, Some(chunk));
        self.mesh_loading.insert((x, y, z));
    }

    /// Take a built mesh.
    pub fn mesh_arrived(&mut self, x: i32, y: i32, z: i32, mesh: M)
        requires
            old(self).wf(),
        ensures
            final(self).wf(),
            final(self).loading() == old(self).loading(),
            final(self).awaiting_mesh() == old(self).awaiting_mesh(),
            final(self).offsets() == old(self).offsets(),
            final(self).chunk_grid() == old(self).chunk_grid(),
            final(self).mesh_grid().dist() == old(self).mesh_grid().dist(),
            final(self).mesh_grid().center() == old(self).mesh_grid().center(),
            forall|a: int, b: int, c: int| #[trigger]
                final(self).mesh(a, b, c) == if a == x && b == y && c == z && old(self).mesh_grid().contains(a, b, c) {
                    Some(mesh)
                } else {
                    old(self).mesh(a, b, c)
                },
    {
        self.meshes.set(x, y, z, Some(mesh));
    }
}

impl<C: Clone, M> ChunkCache<C, M> {
    /// `v` holds clones of the seven chunks of `p`'s neighbourhood.
    pub open spec fn seven_cloned(&self, p: Pos3, v: Seq<C>) -> bool {
        &&& v.len() == 7
        &&& forall|k: int|
            0 <= k < 7 ==> cloned(
                #[trigger] self.chunk(seven(p, k).0 as int, seven(p, k).1 as int, seven(p, k).2 as int)->0,
                v[k],
            )
    }

    /// The chunk held for (x, y, z), cloned.
    pub fn get_chunk(&self, x: i32, y: i32, z: i32) -> (r: Option<C>)
        requires
            self.wf(),
        ensures
            r is None <==> self.chunk(x as int, y as int, z as int) is None,
            r is Some ==> cloned(self.chunk(x as int, y as int, z as int)->0, r->0),
            !self.chunk_grid().contains(x as int, y as int, z as int) ==> r is None,
    {
        self.chunks.get(x, y, z)
    }

    /// The seven chunks of `p`'s neighbourhood, if all are held.
    fn gather_seven(&self, p: Pos3) -> (r: Option<Vec<C>>)
        requires
            self.wf(),
            pos3_ok(p, 1),
        ensures
            r is Some <==> self.complete(p),
            r matches Some(v) ==> self.seven_cloned(p, v@),
    {
        let positions = [
            p,
            (p.0 + 1, p.1, p.2),
            (p.0 - 1, p.1, p.2),
            (p.0, p.1 + 1, p.2),
            (p.0, p.1 - 1, p.2),
            (p.0, p.1, p.2 + 1),
            (p.0, p.1, p.2 - 1),
        ];
        let mut chunks: Vec<C> = Vec::new();
        let mut k: usize = 0;
        while k < 7
            invariant
                self.wf(),
                k <= 7,
                chunks@.len() == k,
                forall|j: int| 0 <= j < 7 ==> positions@[j] == seven(p, j),
                forall|j: int| 0 <= j < k ==> (#[trigger] self.chunk(seven(p, j).0 as int, seven(p, j).1 as int, seven(p, j).2 as int)) is Some,
                forall|j: int| 0 <= j < k ==> cloned(#[trigger] self.chunk(seven(p, j).0 as int, seven(p, j).1 as int, seven(p, j).2 as int)->0, chunks@[j]),
            decreases 7 - k,
        {
            let q = positions[k];
            match self.chunks.get(q.0, q.1, q.2) {
                Some(c) => {
                    chunks.push(c);
                },
                None => {
                    proof {
                        assert(positions@[k as int] == seven(p, k as int));
                        assert(self.chunk(seven(p, k as int).0 as int, seven(p, k as int).1 as int, seven(p, k as int).2 as int) is None);
                    }
                    return None;
                },
            }
            k = k + 1;
        }
        Some(chunks)
    }

    /// The chunks waiting for a mesh, each once.
    fn awaiting_list(&self) -> (r: Vec<Pos3>)
        ensures
            r@.to_set() == self.mesh_loading@,
    {
        let mut r: Vec<Pos3> = Vec::new();
        for p in it: self.mesh_loading.iter()
            invariant
                it.seq().unref().to_set() == self.mesh_loading@,
                r@ == it.seq().unref().take(it.index()),
                forall|c: Pos3| #[trigger] self.mesh_loading@.contains(c) ==> r@.contains(c) || exists|j: int|
                    it.index() <= j < it.seq().len() && it.seq().unref()[j] == c,
                forall|c: Pos3| #[trigger] r@.contains(c) ==> self.mesh_loading@.contains(c),
        {
            let ghost r0 = r@;
            proof {
                assert(it.seq().unref()[it.index()] == *p);
                assert(it.seq().unref().contains(*p));
            }
            r.push(*p);
            proof {
                assert(it.seq().unref().take(it.index() + 1) =~= r0.push(*p));
                assert(r@[r0.len() as int] == *p);
                assert forall|c: Pos3| #[trigger] r@.contains(c) implies self.mesh_loading@.contains(c) by {
                    if c != *p {
                        let k = choose|k: int| 0 <= k < r@.len() && r@[k] == c;
                        assert(r0[k] == c);
                    }
                }
                assert forall|c: Pos3| #[trigger] self.mesh_loading@.contains(c) implies r@.contains(c) || exists|j: int|
                    it.index() + 1 <= j < it.seq().len() && it.seq().unref()[j] == c by {
                    if r0.contains(c) {
                        let k = choose|k: int| 0 <= k < r0.len() && r0[k] == c;
                        assert(r@[k] == c);
                    } else if c != *p {
                        let j = choose|j: int| it.index() <= j < it.seq().len() && it.seq().unref()[j] == c;
                        assert(j != it.index());
                    }
                }
            }
        }
        proof {
            assert forall|c: Pos3| r@.to_set().contains(c) <==> self.mesh_loading@.contains(c) by {
                assert(r@.to_set().contains(c) <==> r@.contains(c));
            }
            assert(r@.to_set() =~= self.mesh_loading@);
        }
        r
    }

    /// Hand out a chunk waiting for its mesh whose six neighbours are all
    /// held, with those seven chunks, and stop waiting for it. Which one is
    /// handed out, when several qualify, is not fixed.
    pub fn next_mesh_job(&mut self) -> (r: Option<(Pos3, Vec<C>)>)
        requires
            old(self).wf(),
        ensures
            final(self).wf(),
            final(self).chunk_grid() == old(self).chunk_grid(),
            final(self).mesh_grid() == old(self).mesh_grid(),
            final(self).loading() == old(self).loading(),
            final(self).offsets() == old(self).offsets(),
            match r {
                Some((p, v)) => {
                    &&& old(self).awaiting_mesh().contains(p)
                    &&& old(self).complete(p)
                    &&& old(self).seven_cloned(p, v@)
                    &&& final(self).awaiting_mesh() == old(self).awaiting_mesh().remove(p)
                },
                None => {
                    &&& forall|p: Pos3| #[trigger] old(self).awaiting_mesh().contains(p) ==> !old(self).complete(p)
                    &&& final(self).awaiting_mesh() == old(self).awaiting_mesh()
                },
            },
    {
        let waiting = self.awaiting_list();
        let n = waiting.len();
        let mut i: usize = 0;
        while i < n
            invariant
                self == old(self),
                self.wf(),
                n == waiting@.len(),
                waiting@.to_set() == self.mesh_loading@,
                i <= n,
                forall|j: int| 0 <= j < i ==> !self.complete(#[trigger] waiting@[j]),
            decreases n - i,
        {
            let p = waiting[i];
            proof {
                assert(waiting@.to_set().contains(p));
            }
            match self.gather_seven(p) {
                Some(chunks) => {
                    self.mesh_loading.remove(&p);
                    return Some((p, chunks));
                },
                None => {},
            }
            i = i + 1;
        }
        proof {
            assert forall|p: Pos3| #[trigger] self.awaiting_mesh().contains(p) implies !self.complete(p) by {
                assert(waiting@.to_set().contains(p));
                let j = choose|j: int| 0 <= j < waiting@.len() && waiting@[j] == p;
                assert(!self.complete(waiting@[j]));
            }
        }
        None
    }
}

impl<C, M: Clone> ChunkCache<C, M> {
    /// The mesh held for (x, y, z), cloned.
    pub fn get_mesh(&self, x: i32, y: i32, z: i32) -> (r: Option<M>)
        requires
            self.wf(),
        ensures
            r is None <==> self.mesh(x as int, y as int, z as int) is None,
            r is Some ==> cloned(self.mesh(x as int, y as int, z as int)->0, r->0),
            !self.mesh_grid().contains(x as int, y as int, z as int) ==> r is None,
    {
        self.meshes.get(x, y, z)
    }

    /// The meshes inside the ball around the eye, nearest first, with their
    /// chunk positions.
    pub fn get_available(&self) -> (r: Vec<(Pos3, M)>)
        requires
            self.wf(),
        ensures
            r@.map_values(|e: (Pos3, M)| e.0) == present3(self.mesh_grid(), self.offsets(), self.offsets().len() as int),
            forall|i: int|
                0 <= i < r@.len() ==> cloned(
                    self.mesh((#[trigger] r@[i]).0.0 as int, r@[i].0.1 as int, r@[i].0.2 as int)->0,
                    r@[i].1,
                ) && self.mesh(r@[i].0.0 as int, r@[i].0.1 as int, r@[i].0.2 as int) is Some,
    {
        let (cx, cy, cz, _, _, _) = self.meshes.center_exec();
        let n = self.coords.len();
        let mut result: Vec<(Pos3, M)> = Vec::new();
        let mut i: usize = 0;
        while i < n
            invariant
                self.wf(),
                n == self.coords@.len(),
                i <= n,
                (cx as int, cy as int, cz as int) == (self.mesh_grid().center().0, self.mesh_grid().center().1, self.mesh_grid().center().2),
                result@.map_values(|e: (Pos3, M)| e.0) == present3(self.mesh_grid(), self.offsets(), i as int),
                forall|j: int|
                    0 <= j < result@.len() ==> cloned(
                        self.mesh((#[trigger] result@[j]).0.0 as int, result@[j].0.1 as int, result@[j].0.2 as int)->0,
                        result@[j].1,
                    ) && self.mesh(result@[j].0.0 as int, result@[j].0.1 as int, result@[j].0.2 as int) is Some,
            decreases n - i,
        {
            let o = self.coords[i];
            proof {
                assert(self.coords@[i as int] == o);
                assert(self.coords@.contains(o));
                assert(in_ball(o, self.meshes.dist(), self.meshes.dist() * self.meshes.dist()));
                self.meshes.lemma_wf_center();
            }
            let p = (cx + o.0, cy + o.1, cz + o.2);
            let ghost before = result@;
            match self.meshes.get(p.0, p.1, p.2) {
                Some(m) => {
                    result.push((p, m));
                    proof {
                        assert(result@.map_values(|e: (Pos3, M)| e.0) =~= before.map_values(|e: (Pos3, M)| e.0).push(p));
                        assert forall|j: int| 0 <= j < result@.len() implies cloned(
                            self.mesh((#[trigger] result@[j]).0.0 as int, result@[j].0.1 as int, result@[j].0.2 as int)->0,
                            result@[j].1,
                        ) && self.mesh(result@[j].0.0 as int, result@[j].0.1 as int, result@[j].0.2 as int) is Some by {
                            if j < before.len() {
                                assert(result@[j] == before[j]);
                            }
                        }
                    }
                },
                None => {},
            }
            i = i + 1;
        }
        result
    }
}

} // verus!
