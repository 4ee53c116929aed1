//! The terrain pipeline of the flat world: the chunk window with its
//! generation jobs, the queue of mesh jobs that arriving chunks complete, and
//! the window of built buffers. Workers ask for a job; mesh jobs go first, in
//! the order they were completed.

use crate::coords::coord_limit;
use crate::grid::small_shift;
use crate::terrain_cache::{at, cache_distance_ok, center_ok, five, pos_ok, BufferCache, MapCache};
use std::collections::VecDeque;
use vstd::prelude::*;

verus! {

broadcast use vstd::std_specs::vecdeque::group_vec_dequeue_axioms;

/// Work for a terrain worker: generate a chunk, or build the mesh of a chunk
/// from it and its four neighbours (itself, +x, -x, +y, -y).
pub enum TerrainWorkerJob<C> {
    /// Generate the chunk at this position.
    Generate((i32, i32)),
    Mesh { position: (i32, i32), chunks: Vec<C> },
}

/// Whether moving a window centred at `center`, of distance `d`, to the
/// eye's chunk (x, y) is a step of at most one chunk on each axis.
pub open spec fn eye_step_small(center: (int, int, bool, bool), d: int, x: i32, y: i32, x_upper: bool, y_upper: bool) -> bool {
    let (ox, oy, oux, ouy) = center;
    small_shift(ox, oux, x as int, x_upper, d) && small_shift(oy, ouy, y as int, y_upper, d)
}

pub struct TerrainManager<C, M, B> {
    map_cache: MapCache<C>,
    mesh_load_request: VecDeque<((i32, i32), Vec<C>)>,
    meshes: VecDeque<((i32, i32), M)>,
    buffer_cache: BufferCache<B>,
}

impl<C, M, B> TerrainManager<C, M, B> {
    pub closed spec fn map(&self) -> MapCache<C> {
        self.map_cache
    }

    pub closed spec fn buffers(&self) -> BufferCache<B> {
        self.buffer_cache
    }

    /// The meshes built by workers and not yet taken, oldest first.
    pub closed spec fn arrived_meshes(&self) -> Seq<((i32, i32), M)> {
        self.meshes@
    }

    /// The mesh jobs waiting for a worker, oldest first.
    pub closed spec fn mesh_requests(&self) -> Seq<((i32, i32), Vec<C>)> {
        self.mesh_load_request@
    }

    /// Both windows are well formed and are the same window around the eye:
    /// the same center and distance.
    pub open spec fn wf(&self) -> bool {
        &&& self.inv()
        &&& self.buffers().grid().center() == self.map().grid().center()
        &&& self.buffers().grid().dist() == self.map().grid().dist()
    }

    /// Each window is well formed.
    pub closed spec fn inv(&self) -> bool {
        &&& self.map_cache.wf()
        &&& self.buffer_cache.wf()
    }

    /// Both windows around the eye's chunk (x, y), empty, with no job
    /// waiting.
    pub fn new(cache_distance: usize, x: i32, y: i32, x_upper: bool, y_upper: bool) -> (r: Self)
        requires
            cache_distance_ok(cache_distance as int),
            center_ok(x as int, y as int, cache_distance as int),
        ensures
            r.wf(),
            r.mesh_requests().len() == 0,
            r.arrived_meshes().len() == 0,
            r.map().grid().dist() == cache_distance,
            r.map().grid().center() == (x as int, y as int, x_upper, y_upper),
            r.map().loading() == Set::<(i32, i32)>::empty(),
            forall|a: int, b: int| #[trigger] r.map().cell(a, b) is None,
            r.buffers().grid().dist() == cache_distance,
            r.buffers().grid().center() == (x as int, y as int, x_upper, y_upper),
            r.buffers().farthest() == 0,
            forall|a: int, b: int| #[trigger] r.buffers().cell(a, b) is None,
    {
        TerrainManager {
            map_cache: MapCache::new(cache_distance, x, y, x_upper, y_upper),
            mesh_load_request: VecDeque::new(),
            meshes: VecDeque::new(),
            buffer_cache: BufferCache::new(cache_distance, x, y, x_upper, y_upper),
        }
    }

    /// The next job for a worker: the oldest waiting mesh job if there is
    /// one, else the nearest chunk still to generate (which becomes pending).
    pub fn next_job(&mut self) -> (r: Option<TerrainWorkerJob<C>>)
        requires
            old(self).wf(),
        ensures
            final(self).wf(),
            final(self).arrived_meshes() == old(self).arrived_meshes(),
            final(self).buffers() == old(self).buffers(),
            old(self).mesh_requests().len() > 0 ==> {
                &&& final(self).map() == old(self).map()
                &&& final(self).mesh_requests() == old(self).mesh_requests().drop_first()
                &&& r matches Some(TerrainWorkerJob::Mesh { position, chunks }) && (position, chunks)
                    == old(self).mesh_requests()[0]
            },
            old(self).mesh_requests().len() == 0 ==> {
                &&& final(self).mesh_requests() == old(self).mesh_requests()
                &&& final(self).map().grid() == old(self).map().grid()
                &&& final(self).map().offsets() == old(self).map().offsets()
                &&& ({
                    let (cx, cy, _, _) = old(self).map().grid().center();
                    let offs = old(self).map().offsets();
                    match r {
                        Some(TerrainWorkerJob::Generate(p)) => {
                            &&& exists|i: int|
                                0 <= i < offs.len() && p == at(cx, cy, offs[i]) && forall|j: int|
                                    0 <= j < i ==> !old(self).map().pending(#[trigger] at(cx, cy, offs[j]))
                            &&& old(self).map().pending(p)
                            &&& final(self).map().loading() == old(self).map().loading().insert(p)
                        },
                        Some(TerrainWorkerJob::Mesh { .. }) => false,
                        None => {
                            &&& forall|i: int|
                                0 <= i < offs.len() ==> !old(self).map().pending(#[trigger] at(cx, cy, offs[i]))
                            &&& final(self).map().loading() == old(self).map().loading()
                        },
                    }
                })
            },
    {
        match self.mesh_load_request.pop_front() {
            Some((position, chunks)) => Some(TerrainWorkerJob::Mesh { position, chunks }),
            None => match self.map_cache.next_chunk_job() {
                Some(p) => Some(TerrainWorkerJob::Generate(p)),
                None => None,
            },
        }
    }

    /// Follow the eye in both windows; see [`MapCache::set_eye`] and
    /// [`BufferCache::set_eye`]. A step of at most one chunk keeps every chunk
    /// and buffer whose position lies in both the old and the new window; a
    /// longer jump empties both windows and forgets the pending generations.
    /// Waiting mesh jobs stay queued.
    pub fn set_eye(&mut self, x: i32, y: i32, x_upper: bool, y_upper: bool)
        requires
            old(self).wf(),
            center_ok(x as int, y as int, old(self).map().grid().dist()),
            center_ok(x as int, y as int, old(self).buffers().grid().dist()),
        ensures
            final(self).wf(),
            final(self).arrived_meshes() == old(self).arrived_meshes(),
            final(self).mesh_requests() == old(self).mesh_requests(),
            final(self).map().grid().center() == (x as int, y as int, x_upper, y_upper),
            final(self).buffers().grid().center() == (x as int, y as int, x_upper, y_upper),
            final(self).map().grid().dist() == old(self).map().grid().dist(),
            final(self).buffers().grid().dist() == old(self).buffers().grid().dist(),
            final(self).map().offsets() == old(self).map().offsets(),
            final(self).buffers().farthest() == old(self).buffers().farthest(),
            final(self).map().loading() == if eye_step_small(old(self).map().grid().center(), old(self).map().grid().dist(), x, y, x_upper, y_upper) {
                old(self).map().loading()
            } else {
                Set::<(i32, i32)>::empty()
            },
            eye_step_small(old(self).map().grid().center(), old(self).map().grid().dist(), x, y, x_upper, y_upper)
                ==> forall|a: int, b: int| #[trigger]
                final(self).map().cell(a, b) == if old(self).map().grid().contains(a, b)
                    && final(self).map().grid().contains(a, b) {
                    old(self).map().cell(a, b)
                } else {
                    None
                },
            !eye_step_small(old(self).map().grid().center(), old(self).map().grid().dist(), x, y, x_upper, y_upper)
                ==> forall|a: int, b: int| #[trigger] final(self).map().cell(a, b) is None,
            eye_step_small(old(self).map().grid().center(), old(self).map().grid().dist(), x, y, x_upper, y_upper)
                ==> forall|a: int, b: int| #[trigger]
                final(self).buffers().cell(a, b) == if old(self).map().grid().contains(a, b)
                    && final(self).map().grid().contains(a, b) {
                    old(self).buffers().cell(a, b)
                } else {
                    None
                },
            !eye_step_small(old(self).map().grid().center(), old(self).map().grid().dist(), x, y, x_upper, y_upper)
                ==> forall|a: int, b: int| #[trigger] final(self).buffers().cell(a, b) is None,
    {
        self.map_cache.set_eye(x, y, x_upper, y_upper);
        self.buffer_cache.set_eye(x, y, x_upper, y_upper);
    }

    /// Change the distance of both windows; a new distance forgets every
    /// chunk, pending generation and buffer. Waiting mesh jobs stay queued.
    pub fn set_cache_distance(&mut self, new_cache_distance: usize)
        requires
            old(self).wf(),
            cache_distance_ok(new_cache_distance as int),
            ({
                let (x, y, _, _) = old(self).map().grid().center();
                center_ok(x, y, new_cache_distance as int)
            }),
            ({
                let (x, y, _, _) = old(self).buffers().grid().center();
                center_ok(x, y, new_cache_distance as int)
            }),
        ensures
            final(self).wf(),
            final(self).arrived_meshes() == old(self).arrived_meshes(),
            final(self).mesh_requests() == old(self).mesh_requests(),
            final(self).map().grid().dist() == new_cache_distance,
            final(self).buffers().grid().dist() == new_cache_distance,
            new_cache_distance == old(self).map().grid().dist() ==> final(self).map() == old(self).map(),
            new_cache_distance == old(self).buffers().grid().dist() ==> final(self).buffers() == old(self).buffers(),
            new_cache_distance != old(self).map().grid().dist() ==> {
                &&& final(self).map().loading() == Set::<(i32, i32)>::empty()
                &&& forall|a: int, b: int| #[trigger] final(self).map().cell(a, b) is None
            },
            new_cache_distance != old(self).buffers().grid().dist() ==> forall|a: int, b: int| #[trigger]
                final(self).buffers().cell(a, b) is None,
    {
        self.map_cache.set_cache_distance(new_cache_distance);
        self.buffer_cache.set_cache_distance(new_cache_distance);
    }

    /// Queue the mesh a worker built for chunk (x, y), after those waiting.
    pub fn mesh_arrived(&mut self, x: i32, y: i32, mesh: M)
        requires
            old(self).wf(),
        ensures
            final(self).wf(),
            final(self).map() == old(self).map(),
            final(self).buffers() == old(self).buffers(),
            final(self).mesh_requests() == old(self).mesh_requests(),
            final(self).arrived_meshes() == old(self).arrived_meshes().push(((x, y), mesh)),
    {
        self.meshes.push_back(((x, y), mesh));
    }

    /// Take the oldest arrived mesh, if any; each arrived mesh is handed out
    /// once, in the order the meshes arrived.
    pub fn next_arrived_mesh(&mut self) -> (r: Option<((i32, i32), M)>)
        requires
            old(self).wf(),
        ensures
            final(self).wf(),
            final(self).map() == old(self).map(),
            final(self).buffers() == old(self).buffers(),
            final(self).mesh_requests() == old(self).mesh_requests(),
            old(self).arrived_meshes().len() == 0 ==> r is None && final(self).arrived_meshes()
                == old(self).arrived_meshes(),
            old(self).arrived_meshes().len() > 0 ==> r == Some(old(self).arrived_meshes()[0])
                && final(self).arrived_meshes() == old(self).arrived_meshes().drop_first(),
    {
        self.meshes.pop_front()
    }

    /// Store the buffer built from the mesh of chunk (x, y); see
    /// [`BufferCache::store`].
    pub fn store_buffer(&mut self, x: i32, y: i32, buffer: B)
        requires
            old(self).wf(),
            (x - old(self).buffers().grid().center().0) * (x - old(self).buffers().grid().center().0) + (y
                - old(self).buffers().grid().center().1) * (y - old(self).buffers().grid().center().1)
                <= i32::MAX,
        ensures
            final(self).wf(),
            final(self).arrived_meshes() == old(self).arrived_meshes(),
            final(self).map() == old(self).map(),
            final(self).mesh_requests() == old(self).mesh_requests(),
            final(self).buffers().grid().center() == old(self).buffers().grid().center(),
            forall|a: int, b: int| #[trigger]
                final(self).buffers().cell(a, b) == if a == x && b == y && old(self).buffers().grid().contains(a, b) {
                    Some(buffer)
                } else {
                    old(self).buffers().cell(a, b)
                },
            final(self).buffers().farthest() == vstd::math::max(
                old(self).buffers().farthest(),
                (x - old(self).buffers().grid().center().0) * (x - old(self).buffers().grid().center().0) + (y
                    - old(self).buffers().grid().center().1) * (y - old(self).buffers().grid().center().1),
            ),
    {
        self.buffer_cache.store(x, y, buffer);
    }
}

impl<C: Clone, M, B> TerrainManager<C, M, B> {
    /// Take a generated chunk (see [`MapCache::chunk_arrived`]) and queue the
    /// mesh jobs it completes, after those already waiting.
    pub fn chunk_arrived(&mut self, x: i32, y: i32, chunk: C)
        requires
            old(self).wf(),
            pos_ok((x, y), 2),
        ensures
            final(self).wf(),
            final(self).arrived_meshes() == old(self).arrived_meshes(),
            final(self).buffers() == old(self).buffers(),
            final(self).map().offsets() == old(self).map().offsets(),
            final(self).map().loading() == old(self).map().loading().remove((x, y)),
            final(self).map().grid().center() == old(self).map().grid().center(),
            final(self).map().grid().dist() == old(self).map().grid().dist(),
            forall|a: int, b: int| #[trigger]
                final(self).map().cell(a, b) == if a == x && b == y && old(self).map().grid().contains(a, b) {
                    Some(chunk)
                } else {
                    old(self).map().cell(a, b)
                },
            final(self).mesh_requests().len() >= old(self).mesh_requests().len(),
            final(self).mesh_requests().take(old(self).mesh_requests().len() as int) == old(self).mesh_requests(),
            final(self).mesh_requests().skip(old(self).mesh_requests().len() as int).map_values(
                |q: ((i32, i32), Vec<C>)| q.0,
            ) == Seq::new(5, |k: int| five((x, y), k)).filter(
                |p: (i32, i32)| forall|k: int| 0 <= k < 5 ==> (#[trigger] final(self).map().cell(five(p, k).0 as int, five(p, k).1 as int)) is Some,
            ),
            forall|i: int|
                old(self).mesh_requests().len() <= i < final(self).mesh_requests().len()
                    ==> final(self).map().five_cloned(#[trigger] final(self).mesh_requests()[i].0, final(self).mesh_requests()[i].1@),
    {
        let ghost q0 = self.mesh_load_request@;
        let jobs = self.map_cache.chunk_arrived(x, y, chunk);
        let ghost js = jobs@;
        let ghost arrived = self.map_cache;
        let mut jobs = jobs;
        assert(js.len() == jobs.len());
        let mut k: usize = 0;
        while jobs.len() > 0
            invariant
                self.map_cache.wf(),
                self.buffer_cache == old(self).buffer_cache,
                self.map_cache == arrived,
                self.meshes@ == old(self).meshes@,
                k <= js.len(),
                js.len() <= usize::MAX,
                jobs@ == js.skip(k as int),
                self.mesh_load_request@ == q0 + js.take(k as int),
            decreases jobs@.len(),
        {
            let j = jobs.remove(0);
            self.mesh_load_request.push_back(j);
            proof {
                assert(js.take(k + 1) =~= js.take(k as int).push(js[k as int]));
                assert(js.skip(k + 1) =~= js.skip(k as int).drop_first());
            }
            k = k + 1;
        }
        proof {
            assert(js.take(k as int) =~= js);
            assert(self.mesh_load_request@.take(q0.len() as int) =~= q0);
            assert(self.mesh_load_request@.skip(q0.len() as int) =~= js);
        }
    }
}

} // verus!
