//! The server's bookkeeping of who watches which chunk: each connected client
//! keeps the set of chunks it watches, and each watched chunk the set of
//! clients watching it. The second is always the mirror of the first.

use std::collections::{BTreeMap, BTreeSet};
use vstd::prelude::*;
use vstd::std_specs::btree::increasing_seq;

verus! {

broadcast use {vstd::std_specs::btree::group_btree_axioms, vstd::laws_cmp::group_laws_cmp};

/// A chunk position on the horizontal grid.
pub type ChunkIndex = (i32, i32);

/// What a client's message asks of the watch bookkeeping.
#[derive(Clone, Copy, PartialEq, Eq, Structural, Debug)]
pub enum ClientRequest {
    /// The client moved; the others are told.
    Move,
    WatchChunk { x: i32, y: i32 },
    UnwatchChunk { x: i32, y: i32 },
    /// A message the bookkeeping does not act on.
    Other,
}

/// For each chunk watched by at least one client, the clients watching it.
pub open spec fn mirror(clients: Map<u32, Set<ChunkIndex>>) -> Map<ChunkIndex, Set<u32>> {
    Map::new(
        |c: ChunkIndex| exists|p: u32| clients.contains_key(p) && #[trigger] clients[p].contains(c),
        |c: ChunkIndex| Set::new(|p: u32| clients.contains_key(p) && clients[p].contains(c)),
    )
}

/// Keys that a map walks in increasing order are strictly increasing.
proof fn lemma_increasing_lt(s: Seq<&u32>, i: int, j: int)
    requires
        increasing_seq(s),
        0 <= i < j < s.len(),
    ensures
        *s[i] < *s[j],
{
    broadcast use vstd::laws_cmp::lemma_ref_obeys_cmp_spec;

    assert(vstd::laws_cmp::obeys_cmp::<u32>());
    assert(vstd::laws_cmp::obeys_cmp::<&u32>());
    vstd::std_specs::btree::axiom_increasing_seq_meaning(s);
    assert(vstd::std_specs::cmp::OrdSpec::cmp_spec(&s[i], &s[j]) is Less);
}

pub struct Watchers {
    clients: BTreeMap<u32, BTreeSet<ChunkIndex>>,
    watchers: BTreeMap<ChunkIndex, BTreeSet<u32>>,
}

impl Watchers {
    /// The connected clients and the chunks each of them watches.
    pub closed spec fn clients_view(&self) -> Map<u32, Set<ChunkIndex>> {
        self.clients@.map_values(|s: BTreeSet<ChunkIndex>| s@)
    }

    /// The watched chunks and the clients watching each of them.
    pub closed spec fn watchers_view(&self) -> Map<ChunkIndex, Set<u32>> {
        self.watchers@.map_values(|s: BTreeSet<u32>| s@)
    }

    spec fn in_clients(&self, p: u32, c: ChunkIndex) -> bool {
        self.clients@.contains_key(p) && self.clients@[p]@.contains(c)
    }

    spec fn in_watchers(&self, c: ChunkIndex, p: u32) -> bool {
        self.watchers@.contains_key(c) && self.watchers@[c]@.contains(p)
    }

    /// The two maps mirror each other, and no chunk is kept without a
    /// watcher.
    pub closed spec fn wf(&self) -> bool {
        &&& forall|c: ChunkIndex, p: u32| #[trigger] self.in_watchers(c, p) <==> self.in_clients(p, c)
        &&& forall|c: ChunkIndex| #[trigger] self.watchers@.contains_key(c) ==> !self.watchers@[c]@.is_empty()
    }

    proof fn lemma_mirror(&self)
        requires
            self.wf(),
        ensures
            self.watchers_view() == mirror(self.clients_view()),
    {
        let w = self.watchers_view();
        let m = mirror(self.clients_view());
        assert forall|c: ChunkIndex| #[trigger] w.contains_key(c) <==> m.contains_key(c) by {
            if w.contains_key(c) {
                let s = self.watchers@[c]@;
                assert(!s.is_empty());
                let p = choose|p: u32| s.contains(p);
                assert(self.in_watchers(c, p));
                assert(self.clients_view()[p].contains(c));
            }
            if m.contains_key(c) {
                let p = choose|p: u32| self.clients_view().contains_key(p) && #[trigger] self.clients_view()[p].contains(c);
                assert(self.in_clients(p, c));
                assert(self.in_watchers(c, p));
            }
        }
        assert forall|c: ChunkIndex| #[trigger] w.contains_key(c) implies w[c] =~= m[c] by {
            assert forall|p: u32| w[c].contains(p) <==> m[c].contains(p) by {
                assert(self.in_watchers(c, p) <==> self.in_clients(p, c));
            }
        }
        assert(w.dom() =~= m.dom());
        assert(w =~= m);
    }

    /// No client and no watched chunk.
    pub fn new() -> (r: Self)
        ensures
            r.wf(),
            r.clients_view() == Map::<u32, Set<ChunkIndex>>::empty(),
            r.watchers_view() == mirror(r.clients_view()),
    {
        let r = Watchers { clients: BTreeMap::new(), watchers: BTreeMap::new() };
        proof {
            assert(r.clients_view() =~= Map::<u32, Set<ChunkIndex>>::empty());
            r.lemma_mirror();
        }
        r
    }

    /// Whether client `pid` is connected.
    pub fn has_client(&self, pid: u32) -> (r: bool)
        ensures
            r == self.clients_view().contains_key(pid),
    {
        self.clients.contains_key(&pid)
    }

    /// Whether client `pid` watches chunk (x, y).
    pub fn is_watching(&self, pid: u32, x: i32, y: i32) -> (r: bool)
        ensures
            r == (self.clients_view().contains_key(pid) && self.clients_view()[pid].contains((x, y))),
    {
        match self.clients.get(&pid) {
            Some(s) => s.contains(&(x, y)),
            None => false,
        }
    }

    /// Whether client `pid` is among the watchers of chunk (x, y).
    pub fn is_watched_by(&self, x: i32, y: i32, pid: u32) -> (r: bool)
        ensures
            r == (self.watchers_view().contains_key((x, y)) && self.watchers_view()[(x, y)].contains(pid)),
    {
        match self.watchers.get(&(x, y)) {
            Some(s) => s.contains(&pid),
            None => false,
        }
    }

    /// Whether any client watches chunk (x, y).
    pub fn is_watched(&self, x: i32, y: i32) -> (r: bool)
        ensures
            r == self.watchers_view().contains_key((x, y)),
    {
        self.watchers.contains_key(&(x, y))
    }

    /// Connect a new client, watching nothing yet.
    pub fn add_client(&mut self, pid: u32)
        requires
            old(self).wf(),
            !old(self).clients_view().contains_key(pid),
        ensures
            final(self).wf(),
            final(self).clients_view() == old(self).clients_view().insert(pid, Set::empty()),
            final(self).watchers_view() == mirror(final(self).clients_view()),
    {
        let ghost old_self = *self;
        self.clients.insert(pid, BTreeSet::new());
        proof {
            assert forall|c: ChunkIndex, p: u32| #[trigger] self.in_watchers(c, p) <==> self.in_clients(p, c) by {
                assert(old_self.in_watchers(c, p) <==> old_self.in_clients(p, c));
            }
            assert(self.clients_view() =~= old_self.clients_view().insert(pid, Set::empty()));
            self.lemma_mirror();
        }
    }

    /// Client `pid` starts watching chunk (x, y); true when it did not watch
    /// it yet. An unknown client changes nothing.
    pub fn watch_chunk(&mut self, pid: u32, x: i32, y: i32) -> (newly_added: bool)
        requires
            old(self).wf(),
        ensures
            final(self).wf(),
            final(self).watchers_view() == mirror(final(self).clients_view()),
            newly_added == (old(self).clients_view().contains_key(pid) && !old(
                self,
            ).clients_view()[pid].contains((x, y))),
            final(self).clients_view() == if old(self).clients_view().contains_key(pid) {
                old(self).clients_view().insert(pid, old(self).clients_view()[pid].insert((x, y)))
            } else {
                old(self).clients_view()
            },
    {
        let ghost old_self = *self;
        let index: ChunkIndex = (x, y);
        if !self.clients.contains_key(&pid) {
            proof {
                self.lemma_mirror();
            }
            return false;
        }
        match self.clients.remove(&pid) {
            None => false,
            Some(mut set) => {
                let newly = set.insert(index);
                self.clients.insert(pid, set);
                if newly {
                    let mut ws = match self.watchers.remove(&index) {
                        Some(s) => s,
                        None => BTreeSet::new(),
                    };
                    ws.insert(pid);
                    self.watchers.insert(index, ws);
                } else {
                    proof {
                        assert(set@ =~= old_self.clients@[pid]@);
                    }
                }
                proof {
                    assert forall|c: ChunkIndex, p: u32| #[trigger] self.in_watchers(c, p) <==> self.in_clients(p, c) by {
                        assert(old_self.in_watchers(c, p) <==> old_self.in_clients(p, c));
                    }
                    assert forall|c: ChunkIndex| #[trigger] self.watchers@.contains_key(c) implies !self.watchers@[c]@.is_empty() by {
                        if c == index && newly {
                            assert(self.watchers@[c]@.contains(pid));
                        } else {
                            assert(old_self.watchers@.contains_key(c));
                        }
                    }
                    assert(self.clients_view() =~= old_self.clients_view().insert(
                        pid,
                        old_self.clients_view()[pid].insert(index),
                    ));
                    self.lemma_mirror();
                }
                newly
            },
        }
    }

    /// Client `pid` stops watching chunk (x, y); true when it watched it. A
    /// chunk nobody watches any more is forgotten. An unknown client changes
    /// nothing.
    pub fn unwatch_chunk(&mut self, pid: u32, x: i32, y: i32) -> (deleted: bool)
        requires
            old(self).wf(),
        ensures
            final(self).wf(),
            final(self).watchers_view() == mirror(final(self).clients_view()),
            deleted == (old(self).clients_view().contains_key(pid) && old(
                self,
            ).clients_view()[pid].contains((x, y))),
            final(self).clients_view() == if old(self).clients_view().contains_key(pid) {
                old(self).clients_view().insert(pid, old(self).clients_view()[pid].remove((x, y)))
            } else {
                old(self).clients_view()
            },
    {
        let ghost old_self = *self;
        let index: ChunkIndex = (x, y);
        if !self.clients.contains_key(&pid) {
            proof {
                self.lemma_mirror();
            }
            return false;
        }
        match self.clients.remove(&pid) {
            None => false,
            Some(mut set) => {
                let deleted = set.remove(&index);
                self.clients.insert(pid, set);
                if deleted {
                    proof {
                        assert(old_self.in_clients(pid, index));
                        assert(old_self.in_watchers(index, pid));
                    }
                    match self.watchers.remove(&index) {
                        Some(mut ws) => {
                            ws.remove(&pid);
                            if !ws.is_empty() {
                                self.watchers.insert(index, ws);
                            }
                        },
                        None => {},
                    }
                } else {
                    proof {
                        assert(set@ =~= old_self.clients@[pid]@);
                    }
                }
                proof {
                    assert forall|c: ChunkIndex, p: u32| #[trigger] self.in_watchers(c, p) <==> self.in_clients(p, c) by {
                        assert(old_self.in_watchers(c, p) <==> old_self.in_clients(p, c));
                    }
                    assert forall|c: ChunkIndex| #[trigger] self.watchers@.contains_key(c) implies !self.watchers@[c]@.is_empty() by {
                        if c != index {
                            assert(old_self.watchers@.contains_key(c));
                        }
                    }
                    assert(self.clients_view() =~= old_self.clients_view().insert(
                        pid,
                        old_self.clients_view()[pid].remove(index),
                    ));
                    self.lemma_mirror();
                }
                deleted
            },
        }
    }
    /// Disconnect client `pid`: it stops watching every chunk it watched, and
    /// chunks nobody watches any more are forgotten.
    pub fn remove_client(&mut self, pid: u32)
        requires
            old(self).wf(),
            old(self).clients_view().contains_key(pid),
        ensures
            final(self).wf(),
            final(self).clients_view() == old(self).clients_view().remove(pid),
            final(self).watchers_view() == mirror(final(self).clients_view()),
    {
        let ghost old_self = *self;
        let set = match self.clients.remove(&pid) {
            Some(s) => s,
            None => BTreeSet::new(),
        };
        let ghost keys = set@;
        let ghost mut done: Seq<ChunkIndex> = Seq::empty();
        proof {
            assert(keys == old_self.clients@[pid]@);
            assert forall|c: ChunkIndex, p: u32| #[trigger] self.in_watchers(c, p) <==> (self.in_clients(p, c) || (
                p == pid && keys.contains(c) && !done.contains(c))) by {
                assert(old_self.in_watchers(c, p) <==> old_self.in_clients(p, c));
            }
        }
        for index in it: set.iter()
            invariant
                keys == set@,
                it.seq().unref().to_set() == keys,
                it.seq().unref().no_duplicates(),
                done == it.seq().unref().take(it.index()),
                forall|c: ChunkIndex| #[trigger] keys.contains(c) ==> done.contains(c) || exists|j: int|
                    it.index() <= j < it.seq().len() && it.seq().unref()[j] == c,
                self.clients@ == old_self.clients@.remove(pid),
                forall|c: ChunkIndex| #[trigger] self.watchers@.contains_key(c) ==> !self.watchers@[c]@.is_empty(),
                forall|c: ChunkIndex, p: u32| #[trigger] self.in_watchers(c, p) <==> (self.in_clients(p, c) || (
                    p == pid && keys.contains(c) && !done.contains(c))),
        {
            let ghost before = *self;
            proof {
                assert(it.seq().unref()[it.index()] == *index);
            }
            match self.watchers.remove(index) {
                Some(mut ws) => {
                    ws.remove(&pid);
                    if !ws.is_empty() {
                        self.watchers.insert(*index, ws);
                    }
                },
                None => {},
            }
            proof {
                let done2 = it.seq().unref().take(it.index() + 1);
                assert(done2 =~= done.push(*index));
                assert(!done.contains(*index)) by {
                    if done.contains(*index) {
                        let j = choose|j: int| 0 <= j < done.len() && done[j] == *index;
                        assert(it.seq().unref()[j] == it.seq().unref()[it.index()]);
                    }
                }
                assert(keys.contains(*index)) by {
                    assert(it.seq().unref().contains(*index));
                }
                assert forall|c: ChunkIndex, p: u32| #[trigger] self.in_watchers(c, p) <==> (self.in_clients(p, c) || (
                    p == pid && keys.contains(c) && !done2.contains(c))) by {
                    assert(before.in_watchers(c, p) <==> (before.in_clients(p, c) || (p == pid && keys.contains(c)
                        && !done.contains(c))));
                    assert(self.in_clients(p, c) == before.in_clients(p, c));
                    if c != *index {
                        assert(done2.contains(c) <==> done.contains(c));
                    } else {
                        assert(done2[done.len() as int] == c);
                        assert(done2.contains(c));
                        assert(before.in_watchers(c, pid));
                        assert(!before.in_clients(pid, c));
                    }
                }
                assert forall|c: ChunkIndex| #[trigger] keys.contains(c) implies done2.contains(c) || exists|j: int|
                    it.index() + 1 <= j < it.seq().len() && it.seq().unref()[j] == c by {
                    if !done.contains(c) && c != *index {
                        let j = choose|j: int| it.index() <= j < it.seq().len() && it.seq().unref()[j] == c;
                        assert(j != it.index());
                    }
                    if done.contains(c) {
                        assert(done2.contains(c));
                    }
                    if c == *index {
                        assert(done2[done.len() as int] == c);
                    }
                }
                assert forall|c: ChunkIndex| #[trigger] self.watchers@.contains_key(c) implies !self.watchers@[c]@.is_empty() by {
                    if c != *index {
                        assert(before.watchers@.contains_key(c));
                    }
                }
                done = done.push(*index);
            }
        }
        proof {
            assert forall|c: ChunkIndex, p: u32| #[trigger] self.in_watchers(c, p) <==> self.in_clients(p, c) by {
                if p == pid && keys.contains(c) {
                    assert(done.contains(c));
                }
            }
            assert(self.clients_view() =~= old_self.clients_view().remove(pid));
            self.lemma_mirror();
        }
    }

    /// The other connected clients, in increasing order: those told when
    /// client `pid` moves.
    pub fn move_recipients(&self, pid: u32) -> (r: Vec<u32>)
        ensures
            r@.to_set() == self.clients_view().dom().remove(pid),
            r@.no_duplicates(),
            forall|i: int, j: int| 0 <= i < j < r@.len() ==> r@[i] < r@[j],
    {
        let mut r: Vec<u32> = Vec::new();
        let ghost mut done: Seq<u32> = Seq::empty();
        for p in it: self.clients.keys()
            invariant
                it.seq().unref().to_set() == self.clients@.dom(),
                it.seq().unref().no_duplicates(),
                done == it.seq().unref().take(it.index()),
                forall|c: u32| #[trigger] self.clients@.dom().contains(c) ==> done.contains(c) || exists|j: int|
                    it.index() <= j < it.seq().len() && it.seq().unref()[j] == c,
                forall|c: u32| #[trigger] done.contains(c) ==> self.clients@.dom().contains(c),
                increasing_seq(it.seq()),
                forall|k: int| 0 <= k < r@.len() ==> #[trigger] done.contains(r@[k]),
                forall|a: int, b: int| 0 <= a < b < r@.len() ==> r@[a] < r@[b],
                r@.no_duplicates(),
                forall|q: u32| #[trigger] r@.contains(q) <==> (q != pid && done.contains(q)),
        {
            let ghost r0 = r@;
            let ghost s = it.seq().unref();
            proof {
                assert(s[it.index()] == *p);
                assert(s.contains(*p));
                assert(!done.contains(*p)) by {
                    if done.contains(*p) {
                        let j = choose|j: int| 0 <= j < done.len() && done[j] == *p;
                        assert(s[j] == s[it.index()]);
                    }
                }
            }
            if *p != pid {
                r.push(*p);
            }
            proof {
                let done2 = s.take(it.index() + 1);
                assert(done2 =~= done.push(*p));
                assert(done2[done.len() as int] == *p);
                assert forall|c: u32| #[trigger] done2.contains(c) <==> (done.contains(c) || c == *p) by {
                    if done.contains(c) {
                        let j = choose|j: int| 0 <= j < done.len() && done[j] == c;
                        assert(done2[j] == c);
                    }
                }
                if *p != pid {
                    assert(r@ == r0.push(*p));
                    assert(r@[r0.len() as int] == *p);
                    assert forall|k: int| 0 <= k < r0.len() implies r0[k] < *p by {
                        assert(done.contains(r0[k]));
                        let j = choose|j: int| 0 <= j < done.len() && done[j] == r0[k];
                        lemma_increasing_lt(it.seq(), j, it.index());
                    }
                    assert forall|k: int| 0 <= k < r@.len() implies #[trigger] done2.contains(r@[k]) by {
                        if k < r0.len() {
                            assert(done.contains(r0[k]));
                        }
                    }
                    assert forall|q: u32| #[trigger] r@.contains(q) <==> (r0.contains(q) || q == *p) by {
                        if r0.contains(q) {
                            let k = choose|k: int| 0 <= k < r0.len() && r0[k] == q;
                            assert(r@[k] == q);
                        }
                        if r@.contains(q) && q != *p {
                            let k = choose|k: int| 0 <= k < r@.len() && r@[k] == q;
                            assert(k < r0.len());
                            assert(r0[k] == q);
                        }
                    }
                    assert(!r0.contains(*p));
                } else {
                    assert(r@ == r0);
                    assert forall|k: int| 0 <= k < r@.len() implies #[trigger] done2.contains(r@[k]) by {
                        assert(done.contains(r0[k]));
                    }
                }
                assert forall|c: u32| #[trigger] self.clients@.dom().contains(c) implies done2.contains(c) || exists|j: int|
                    it.index() + 1 <= j < it.seq().len() && it.seq().unref()[j] == c by {
                    if !done.contains(c) && c != *p {
                        let j = choose|j: int| it.index() <= j < it.seq().len() && it.seq().unref()[j] == c;
                        assert(j != it.index());
                    }
                }
                done = done.push(*p);
            }
        }
        proof {
            assert forall|q: u32| r@.to_set().contains(q) <==> self.clients_view().dom().remove(pid).contains(q) by {
                assert(r@.to_set().contains(q) <==> r@.contains(q));
                if self.clients@.dom().contains(q) {
                    assert(done.contains(q));
                }
            }
            assert(r@.to_set() =~= self.clients_view().dom().remove(pid));
        }
        r
    }

    /// Act on a client's message: a move is forwarded to the returned
    /// clients; a watch or an unwatch updates the bookkeeping and nobody is
    /// told; other messages change nothing.
    pub fn handle_message(&mut self, pid: u32, msg: ClientRequest) -> (r: Vec<u32>)
        requires
            old(self).wf(),
        ensures
            final(self).wf(),
            final(self).watchers_view() == mirror(final(self).clients_view()),
            match msg {
                ClientRequest::Move => {
                    &&& final(self).clients_view() == old(self).clients_view()
                    &&& r@.to_set() == old(self).clients_view().dom().remove(pid)
                    &&& r@.no_duplicates()
                    &&& forall|i: int, j: int| 0 <= i < j < r@.len() ==> r@[i] < r@[j]
                },
                ClientRequest::WatchChunk { x, y } => {
                    &&& r@.len() == 0
                    &&& final(self).clients_view() == if old(self).clients_view().contains_key(pid) {
                        old(self).clients_view().insert(pid, old(self).clients_view()[pid].insert((x, y)))
                    } else {
                        old(self).clients_view()
                    }
                },
                ClientRequest::UnwatchChunk { x, y } => {
                    &&& r@.len() == 0
                    &&& final(self).clients_view() == if old(self).clients_view().contains_key(pid) {
                        old(self).clients_view().insert(pid, old(self).clients_view()[pid].remove((x, y)))
                    } else {
                        old(self).clients_view()
                    }
                },
                ClientRequest::Other => r@.len() == 0 && final(self).clients_view() == old(self).clients_view(),
            },
    {
        match msg {
            ClientRequest::Move => {
                proof {
                    self.lemma_mirror();
                }
                self.move_recipients(pid)
            },
            ClientRequest::WatchChunk { x, y } => {
                self.watch_chunk(pid, x, y);
                Vec::new()
            },
            ClientRequest::UnwatchChunk { x, y } => {
                self.unwatch_chunk(pid, x, y);
                Vec::new()
            },
            ClientRequest::Other => {
                proof {
                    self.lemma_mirror();
                }
                Vec::new()
            },
        }
    }
}

/// Watching a chunk a client did not watch and then unwatching it leaves the
/// bookkeeping as it was.
pub proof fn lemma_watch_unwatch_roundtrip(clients: Map<u32, Set<ChunkIndex>>, pid: u32, c: ChunkIndex)
    requires
        clients.contains_key(pid),
        !clients[pid].contains(c),
    ensures
        ({
            let watched = clients.insert(pid, clients[pid].insert(c));
            watched.insert(pid, watched[pid].remove(c)) == clients
        }),
{
    let watched = clients.insert(pid, clients[pid].insert(c));
    assert(watched[pid].remove(c) =~= clients[pid]);
    assert(watched.insert(pid, watched[pid].remove(c)) =~= clients);
}

} // verus!
