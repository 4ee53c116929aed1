//! A least-recently-used cache kept as an ordered map of entries plus a queue
//! of the cached keys, least recently used first.
//!
//! Each cached key stands in the queue exactly once. Writing or reading a
//! cached key moves it to the back; a new key is refused by a cache of
//! capacity zero, and otherwise evicts the front key only when the cache is
//! full.

use std::collections::BTreeMap;
use std::collections::VecDeque;
use vstd::prelude::*;

verus! {

broadcast use {
    vstd::std_specs::btree::group_btree_axioms,
    vstd::std_specs::vecdeque::group_vec_dequeue_axioms,
};

/// The laws the key type must obey for the cache to be meaningful: a total
/// order that agrees with equality.
pub open spec fn key_laws<Key: Ord>() -> bool {
    &&& vstd::laws_cmp::obeys_cmp::<Key>()
    &&& vstd::laws_eq::obeys_concrete_eq::<Key>()
}

/// The queue lists the cached keys, each once.
pub open spec fn lru_consistent<Key, Value>(entries: Map<Key, Value>, queue: Seq<Key>) -> bool {
    &&& entries.dom().finite()
    &&& queue.no_duplicates()
    &&& forall|k: Key| #[trigger] entries.contains_key(k) <==> queue.contains(k)
}

/// A consistent state holding no more than `capacity` keys.
pub open spec fn lru_valid<Key, Value>(entries: Map<Key, Value>, queue: Seq<Key>, capacity: nat) -> bool {
    &&& lru_consistent(entries, queue)
    &&& queue.len() <= capacity
}

/// One use of `key`: it leaves its place in the queue (if it has one) and is
/// appended as the most recent.
pub open spec fn touch<Key>(queue: Seq<Key>, key: Key) -> Seq<Key> {
    queue.remove_value(key).push(key)
}

/// Drop the least recently used key.
pub open spec fn evict_front<Key, Value>(entries: Map<Key, Value>, queue: Seq<Key>) -> (
    Map<Key, Value>,
    Seq<Key>,
) {
    (entries.remove(queue[0]), queue.drop_first())
}

/// Evict the least recently used keys until at most `capacity` remain.
pub open spec fn shrink_to<Key, Value>(
    entries: Map<Key, Value>,
    queue: Seq<Key>,
    capacity: nat,
) -> (Map<Key, Value>, Seq<Key>)
    decreases queue.len(),
{
    if queue.len() <= capacity {
        (entries, queue)
    } else {
        let (e, q) = evict_front(entries, queue);
        shrink_to(e, q, capacity)
    }
}

/// The state after `put(key, value)`: a cached key takes the new value and
/// becomes the most recent; a new key is dropped by a cache of capacity zero,
/// evicts the least recently used key when the cache is full, and is then
/// cached as the most recent.
pub open spec fn put_result<Key, Value>(
    entries: Map<Key, Value>,
    queue: Seq<Key>,
    capacity: nat,
    key: Key,
    value: Value,
) -> (Map<Key, Value>, Seq<Key>) {
    if entries.contains_key(key) {
        (entries.insert(key, value), touch(queue, key))
    } else if capacity == 0 {
        (entries, queue)
    } else if queue.len() >= capacity {
        (entries.remove(queue[0]).insert(key, value), queue.drop_first().push(key))
    } else {
        (entries.insert(key, value), queue.push(key))
    }
}

/// Touching a cached key keeps the queue consistent and of the same length.
pub proof fn lemma_touch_consistent<Key, Value>(entries: Map<Key, Value>, queue: Seq<Key>, key: Key)
    requires
        lru_consistent(entries, queue),
        entries.contains_key(key),
    ensures
        lru_consistent(entries, touch(queue, key)),
        touch(queue, key).len() == queue.len(),
        touch(queue, key).last() == key,
{
    queue.index_of_first_ensures(key);
    let i = queue.index_of_first(key)->0;
    queue.remove_ensures(i);
    let r = queue.remove(i);
    assert(r.len() == queue.len() - 1);
    assert forall|a: int, b: int| 0 <= a < b < r.len() implies r[a] != r[b] by {
        let ia = if a < i { a } else { a + 1 };
        let ib = if b < i { b } else { b + 1 };
        assert(r[a] == queue[ia]);
        assert(r[b] == queue[ib]);
    }
    assert forall|x: Key| r.contains(x) <==> (queue.contains(x) && x != key) by {
        if r.contains(x) {
            let a = choose|a: int| 0 <= a < r.len() && r[a] == x;
            let ia = if a < i { a } else { a + 1 };
            assert(r[a] == queue[ia]);
            assert(ia != i);
        }
        if queue.contains(x) && x != key {
            let j = choose|j: int| 0 <= j < queue.len() && queue[j] == x;
            assert(j != i);
            if j < i {
                assert(r[j] == x);
            } else {
                assert(r[j - 1] == x);
            }
        }
    }
    let t = r.push(key);
    assert forall|a: int, b: int| 0 <= a < b < t.len() implies t[a] != t[b] by {
        if b == t.len() - 1 {
            assert(t[a] == r[a]);
            assert(r.contains(r[a]));
        } else {
            assert(t[a] == r[a] && t[b] == r[b]);
        }
    }
    assert forall|k: Key| #[trigger] entries.contains_key(k) <==> t.contains(k) by {
        if t.contains(k) && k != key {
            let a = choose|a: int| 0 <= a < t.len() && t[a] == k;
            assert(a != t.len() - 1);
            assert(r[a] == k);
        }
        if entries.contains_key(k) {
            if k == key {
                assert(t[t.len() - 1] == key);
            } else {
                assert(queue.contains(k));
                assert(r.contains(k));
                let a = choose|a: int| 0 <= a < r.len() && r[a] == k;
                assert(t[a] == k);
            }
        }
    }
}

/// Evicting the least recently used key keeps the queue consistent.
pub proof fn lemma_evict_consistent<Key, Value>(entries: Map<Key, Value>, queue: Seq<Key>)
    requires
        lru_consistent(entries, queue),
        queue.len() > 0,
    ensures
        lru_consistent(evict_front(entries, queue).0, evict_front(entries, queue).1),
{
    let q = queue.drop_first();
    assert forall|k: Key| #[trigger] entries.remove(queue[0]).contains_key(k) <==> q.contains(k) by {
        if q.contains(k) {
            let a = choose|a: int| 0 <= a < q.len() && q[a] == k;
            assert(queue[a + 1] == k);
            assert(k != queue[0]);
        }
        if entries.remove(queue[0]).contains_key(k) {
            let a = choose|a: int| 0 <= a < queue.len() && queue[a] == k;
            assert(a != 0);
            assert(q[a - 1] == k);
        }
    }
    assert forall|a: int, b: int| 0 <= a < b < q.len() implies q[a] != q[b] by {
        assert(q[a] == queue[a + 1] && q[b] == queue[b + 1]);
    }
}

/// The cache holds exactly as many entries as it has queued keys, and no
/// more than its capacity.
pub proof fn lemma_entries_bounded<Key, Value>(entries: Map<Key, Value>, queue: Seq<Key>, capacity: nat)
    requires
        lru_valid(entries, queue, capacity),
    ensures
        entries.len() == queue.len(),
        entries.len() <= capacity,
{
    assert(entries.dom() =~= queue.to_set());
    queue.unique_seq_to_set();
}

/// A put keeps a valid state valid: the cache never grows past its capacity.
pub proof fn lemma_put_valid<Key, Value>(
    entries: Map<Key, Value>,
    queue: Seq<Key>,
    capacity: nat,
    key: Key,
    value: Value,
)
    requires
        lru_valid(entries, queue, capacity),
    ensures
        lru_valid(
            put_result(entries, queue, capacity, key, value).0,
            put_result(entries, queue, capacity, key, value).1,
            capacity,
        ),
{
    if entries.contains_key(key) {
        lemma_touch_consistent(entries, queue, key);
        lemma_touch_consistent(entries.insert(key, value), queue, key);
    } else if capacity == 0 {
    } else {
        let (e, q) = if queue.len() >= capacity {
            lemma_evict_consistent(entries, queue);
            evict_front(entries, queue)
        } else {
            (entries, queue)
        };
        assert(lru_consistent(e, q));
        assert(!q.contains(key));
        let t = q.push(key);
        assert forall|a: int, b: int| 0 <= a < b < t.len() implies t[a] != t[b] by {
            if b == t.len() - 1 {
                assert(q.contains(q[a]));
            } else {
                assert(t[a] == q[a] && t[b] == q[b]);
            }
        }
        assert forall|k: Key| #[trigger] e.insert(key, value).contains_key(k) <==> t.contains(k) by {
            if t.contains(k) && k != key {
                let a = choose|a: int| 0 <= a < t.len() && t[a] == k;
                assert(a != t.len() - 1);
                assert(q[a] == k);
            }
            if e.insert(key, value).contains_key(k) {
                if k == key {
                    assert(t[t.len() - 1] == key);
                } else {
                    let a = choose|a: int| 0 <= a < q.len() && q[a] == k;
                    assert(t[a] == k);
                }
            }
        }
    }
}

/// A put into a cache of non-zero capacity stores its value.
pub proof fn lemma_put_stores_value<Key, Value>(
    entries: Map<Key, Value>,
    queue: Seq<Key>,
    capacity: nat,
    key: Key,
    value: Value,
)
    requires
        capacity > 0,
    ensures
        put_result(entries, queue, capacity, key, value).0.contains_key(key),
        put_result(entries, queue, capacity, key, value).0[key] == value,
{
}

/// A put leaves every other cached value as it was, or evicts it; and it
/// evicts nothing when the key was cached already or the cache had room.
pub proof fn lemma_put_keeps_others<Key, Value>(
    entries: Map<Key, Value>,
    queue: Seq<Key>,
    capacity: nat,
    key: Key,
    value: Value,
    other: Key,
)
    requires
        lru_valid(entries, queue, capacity),
        other != key,
    ensures
        put_result(entries, queue, capacity, key, value).0.contains_key(other) ==> {
            &&& entries.contains_key(other)
            &&& put_result(entries, queue, capacity, key, value).0[other] == entries[other]
        },
        entries.contains_key(other) && (entries.contains_key(key) || entries.len() < capacity)
            ==> put_result(entries, queue, capacity, key, value).0.contains_key(other),
{
    lemma_entries_bounded(entries, queue, capacity);
}

/// When a new key comes to a full cache, the one key evicted is the least
/// recently used, and the new key becomes the most recent.
pub proof fn lemma_put_evicts_least_recent<Key, Value>(
    entries: Map<Key, Value>,
    queue: Seq<Key>,
    capacity: nat,
    key: Key,
    value: Value,
)
    requires
        lru_valid(entries, queue, capacity),
        !entries.contains_key(key),
        capacity > 0,
        entries.len() == capacity,
    ensures
        queue.len() > 0,
        put_result(entries, queue, capacity, key, value).0 == entries.remove(queue[0]).insert(key, value),
        put_result(entries, queue, capacity, key, value).1 == queue.drop_first().push(key),
{
    lemma_entries_bounded(entries, queue, capacity);
}

pub struct LRUCache<Key: Ord + Copy, Value: Clone> {
    map: BTreeMap<Key, Value>,
    queue: VecDeque<Key>,
    capacity: usize,
}

impl<Key: Ord + Copy, Value: Clone> LRUCache<Key, Value> {
    /// The cached entries.
    pub closed spec fn entries(&self) -> Map<Key, Value> {
        self.map@
    }

    /// The cached keys, least recently used first.
    pub closed spec fn uses(&self) -> Seq<Key> {
        self.queue@
    }

    pub closed spec fn cap(&self) -> nat {
        self.capacity as nat
    }

    /// The key laws hold and the state is valid.
    pub open spec fn wf(&self) -> bool {
        &&& key_laws::<Key>()
        &&& lru_valid(self.entries(), self.uses(), self.cap())
    }

    pub fn new(capacity: usize) -> (r: Self)
        requires
            key_laws::<Key>(),
        ensures
            r.wf(),
            r.entries() == Map::<Key, Value>::empty(),
            r.uses() == Seq::<Key>::empty(),
            r.cap() == capacity,
    {
        LRUCache { map: BTreeMap::new(), queue: VecDeque::new(), capacity }
    }

    pub fn has(&self, key: &Key) -> (r: bool)
        requires
            self.wf(),
        ensures
            r == self.entries().contains_key(*key),
    {
        self.map.contains_key(key)
    }

    pub fn put(&mut self, key: Key, value: Value)
        requires
            old(self).wf(),
        ensures
            final(self).wf(),
            final(self).cap() == old(self).cap(),
            (final(self).entries(), final(self).uses()) == put_result(
                old(self).entries(),
                old(self).uses(),
                old(self).cap(),
                key,
                value,
            ),
    {
        proof {
            lemma_put_valid(self.map@, self.queue@, self.capacity as nat, key, value);
        }
        if self.map.contains_key(&key) {
            self.map.insert(key, value);
            self.update_recent_usage(key);
        } else if self.capacity > 0 {
            if self.queue.len() >= self.capacity {
                let front = self.queue.pop_front();
                if let Some(lru_key) = front {
                    self.map.remove(&lru_key);
                }
            }
            self.map.insert(key, value);
            self.queue.push_back(key);
        }
    }

    pub fn get(&mut self, key: &Key) -> (r: Option<Value>)
        requires
            old(self).wf(),
        ensures
            final(self).wf(),
            final(self).cap() == old(self).cap(),
            final(self).entries() == old(self).entries(),
            old(self).entries().contains_key(*key) ==> {
                &&& r is Some
                &&& cloned(old(self).entries()[*key], r->0)
                &&& final(self).uses() == touch(old(self).uses(), *key)
            },
            !old(self).entries().contains_key(*key) ==> {
                &&& r is None
                &&& final(self).uses() == old(self).uses()
            },
    {
        let found = self.map.get(key);
        let result = match found {
            Some(v) => Some(v.clone()),
            None => None,
        };
        if result.is_some() {
            proof {
                lemma_touch_consistent(self.map@, self.queue@, *key);
            }
            self.update_recent_usage(*key);
        }
        result
    }

    /// Move `key` to the back of the queue.
    fn update_recent_usage(&mut self, key: Key)
        requires
            key_laws::<Key>(),
        ensures
            final(self).entries() == old(self).entries(),
            final(self).cap() == old(self).cap(),
            final(self).uses() == touch(old(self).uses(), key),
    {
        let ghost q0 = self.queue@;
        let n = self.queue.len();
        let mut i: usize = 0;
        let mut pos: Option<usize> = None;
        while i < n
            invariant_except_break
                pos is None,
            invariant
                n == self.queue@.len(),
                self.queue@ == q0,
                i <= n,
                key_laws::<Key>(),
                forall|j: int| 0 <= j < i ==> self.queue@[j] != key,
                pos matches Some(p) ==> p < n && self.queue@[p as int] == key && forall|j: int|
                    0 <= j < p ==> self.queue@[j] != key,
            ensures
                pos is None ==> forall|j: int| 0 <= j < n ==> self.queue@[j] != key,
            decreases n - i,
        {
            let eq = self.queue[i] == key;
            proof {
                reveal(vstd::laws_eq::obeys_concrete_eq);
            }
            if eq {
                pos = Some(i);
                break;
            }
            i = i + 1;
        }
        proof {
            q0.index_of_first_ensures(key);
        }
        if let Some(p) = pos {
            self.queue.remove(p);
            proof {
                assert(q0.index_of_first(key) == Some(p as int));
            }
        } else {
            proof {
                assert(!q0.contains(key));
            }
        }
        self.queue.push_back(key);
        proof {
            assert(self.queue@ == touch(q0, key));
        }
    }

    pub fn set_capacity(&mut self, new_capacity: usize)
        requires
            old(self).wf(),
        ensures
            final(self).wf(),
            final(self).cap() == new_capacity,
            (final(self).entries(), final(self).uses()) == shrink_to(
                old(self).entries(),
                old(self).uses(),
                new_capacity as nat,
            ),
    {
        self.capacity = new_capacity;
        while self.queue.len() > self.capacity
            invariant
                key_laws::<Key>(),
                lru_consistent(self.map@, self.queue@),
                self.capacity == new_capacity,
                shrink_to(self.map@, self.queue@, new_capacity as nat) == shrink_to(
                    old(self).map@,
                    old(self).queue@,
                    new_capacity as nat,
                ),
            decreases self.queue@.len(),
        {
            proof {
                lemma_evict_consistent(self.map@, self.queue@);
            }
            let front = self.queue.pop_front();
            if let Some(lru_key) = front {
                self.map.remove(&lru_key);
            }
        }
    }
}

} // verus!
