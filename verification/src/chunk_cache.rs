//! The chunk cache: which regions are meshed, which are known to be empty,
//! and which are being meshed right now.
use vstd::prelude::*;
use std::collections::HashSet;
use lru_time_cache::LruCache;
use crate::chunk_id::ChunkId;
use crate::lru::{
    holds, inserted, lru_capacity, lru_contains_key, lru_entries, lru_get, lru_insert, lru_len,
    lru_peek, lru_peek_all, lru_with_capacity, place_of, promoted, value_of, with_room,
};

verus! {

broadcast use vstd::std_specs::hash::group_hash_axioms;

/// The most jobs that may be in flight at once.
pub const MAX_IN_FLIGHT: usize = 8;

/// The number of steps into which a chunk is cut along each axis when it is
/// meshed.
pub const N_STEPS: u32 = 16;

/// What the cache knows of a region.
#[derive(Copy, Clone, Debug, PartialEq, Eq, Structural)]
pub enum ChunkState {
    /// Never submitted, or evicted since.
    Unknown,
    /// A worker is meshing it.
    Pending,
    /// Meshed; there is no surface in it.
    Empty,
    /// Meshed; the mesh is in the cache.
    Available,
}

/// No key occurs twice among the entries.
pub open spec fn distinct_keys(entries: Seq<(u128, usize)>) -> bool {
    forall|i: int, j: int|
        0 <= i < entries.len() && 0 <= j < entries.len() && i != j ==> (#[trigger] entries[i]).0
            != (#[trigger] entries[j]).0
}

/// No value occurs twice among the entries.
pub open spec fn distinct_values(entries: Seq<(u128, usize)>) -> bool {
    forall|i: int, j: int|
        0 <= i < entries.len() && 0 <= j < entries.len() && i != j ==> (#[trigger] entries[i]).1
            != (#[trigger] entries[j]).1
}

/// The contents of a chunk cache.
pub ghost struct CacheModel {
    /// The meshed chunks, each a region's key and the uid of its mesh, the
    /// least recently used first.
    pub loaded: Seq<(u128, usize)>,
    /// The most meshed chunks that are kept.
    pub loaded_capacity: nat,
    /// The regions known to be empty, the least recently used first. The
    /// value of an entry says nothing.
    pub empty: Seq<(u128, usize)>,
    /// The most empty regions that are remembered.
    pub empty_capacity: nat,
    /// The regions that are being meshed.
    pub pending: Set<u128>,
    /// The uid that the next mesh gets.
    pub next_uid: usize,
}

impl CacheModel {
    /// The invariant of the cache: a region is in at most one of the three
    /// collections, no more than `MAX_IN_FLIGHT` regions are pending, and the
    /// uids of the meshes are distinct and below the next one.
    pub open spec fn wf(self) -> bool {
        &&& self.loaded_capacity >= 1
        &&& self.empty_capacity >= 1
        &&& self.loaded.len() <= self.loaded_capacity
        &&& self.empty.len() <= self.empty_capacity
        &&& distinct_keys(self.loaded)
        &&& distinct_keys(self.empty)
        &&& distinct_values(self.loaded)
        &&& forall|i: int| 0 <= i < self.loaded.len() ==> (#[trigger] self.loaded[i]).1 < self.next_uid
        &&& self.pending.finite()
        &&& self.pending.len() <= MAX_IN_FLIGHT
        &&& forall|key: u128| !(holds(self.loaded, key) && holds(self.empty, key))
        &&& forall|key: u128| !(holds(self.loaded, key) && self.pending.contains(key))
        &&& forall|key: u128| !(holds(self.empty, key) && self.pending.contains(key))
    }

    /// What the cache knows of a region.
    pub open spec fn state_of(self, chunk_id: ChunkId) -> ChunkState {
        let key = chunk_id.key_spec();
        if holds(self.loaded, key) {
            ChunkState::Available
        } else if holds(self.empty, key) {
            ChunkState::Empty
        } else if self.pending.contains(key) {
            ChunkState::Pending
        } else {
            ChunkState::Unknown
        }
    }

    /// Of the four states exactly one holds of a region: each state but
    /// `Unknown` says that the region is in one of the three collections,
    /// and a region is in at most one of them.
    pub proof fn lemma_exactly_one_state(self, chunk_id: ChunkId)
        requires
            self.wf(),
        ensures
            (self.state_of(chunk_id) == ChunkState::Available) == holds(
                self.loaded,
                chunk_id.key_spec(),
            ),
            (self.state_of(chunk_id) == ChunkState::Empty) == holds(
                self.empty,
                chunk_id.key_spec(),
            ),
            (self.state_of(chunk_id) == ChunkState::Pending) == self.pending.contains(
                chunk_id.key_spec(),
            ),
            (self.state_of(chunk_id) == ChunkState::Unknown) == (!holds(
                self.loaded,
                chunk_id.key_spec(),
            ) && !holds(self.empty, chunk_id.key_spec()) && !self.pending.contains(
                chunk_id.key_spec(),
            )),
    {
    }

    /// The uid of the mesh of a region, if the cache holds one.
    pub open spec fn uid_of(self, chunk_id: ChunkId) -> Option<usize> {
        value_of(self.loaded, chunk_id.key_spec())
    }

    /// Whether the cache holds what it held at `before`: the same regions
    /// in the same states, the same meshes, and the same uid for the next
    /// mesh. The order in which the meshes were last used is left open.
    pub open spec fn same_chunks(self, before: CacheModel) -> bool {
        &&& forall|id: ChunkId| self.state_of(id) == before.state_of(id)
        &&& forall|id: ChunkId| self.uid_of(id) == before.uid_of(id)
        &&& self.next_uid == before.next_uid
        &&& self.pending == before.pending
        &&& self.empty == before.empty
        &&& self.loaded_capacity == before.loaded_capacity
        &&& self.empty_capacity == before.empty_capacity
        &&& self.loaded.len() == before.loaded.len()
    }

    /// The cache after a region was asked for: its mesh, if there is one,
    /// becomes the most recently used.
    pub open spec fn touched(self, chunk_id: ChunkId) -> CacheModel {
        CacheModel { loaded: promoted(self.loaded, chunk_id.key_spec()), ..self }
    }

    /// The cache after a job for a pending region came back with a mesh of
    /// `num_vertices` vertices. A mesh with vertices is stored under the next
    /// uid; a mesh without is remembered as an empty region.
    pub open spec fn completed(self, chunk_id: ChunkId, num_vertices: usize) -> CacheModel {
        let key = chunk_id.key_spec();
        if num_vertices > 0 {
            CacheModel {
                loaded: inserted(self.loaded, self.loaded_capacity, key, self.next_uid),
                pending: self.pending.remove(key),
                next_uid: (self.next_uid + 1) as usize,
                ..self
            }
        } else {
            CacheModel {
                empty: inserted(self.empty, self.empty_capacity, key, 0),
                pending: self.pending.remove(key),
                ..self
            }
        }
    }

    /// The uid of the mesh that leaves the cache when a job comes back with
    /// a mesh of `num_vertices` vertices: the least recently used one, if the
    /// cache is full and the new mesh goes into it.
    pub open spec fn evicted_by(self, num_vertices: usize) -> Option<usize> {
        if num_vertices > 0 && self.loaded.len() >= self.loaded_capacity {
            Some(self.loaded[0].1)
        } else {
            None
        }
    }

    /// Whether a job for this region is started now: the region is unknown
    /// and fewer than `MAX_IN_FLIGHT` jobs are in flight.
    pub open spec fn accepts(self, chunk_id: ChunkId) -> bool {
        self.pending.len() < MAX_IN_FLIGHT && self.state_of(chunk_id) == ChunkState::Unknown
    }

    /// The cache after a region was proposed for meshing.
    pub open spec fn submitted(self, chunk_id: ChunkId) -> CacheModel {
        if self.accepts(chunk_id) {
            CacheModel { pending: self.pending.insert(chunk_id.key_spec()), ..self }
        } else {
            self
        }
    }
}

/// What a promotion keeps: the keys, their values, and that no key occurs
/// twice.
pub proof fn lemma_promoted(entries: Seq<(u128, usize)>, key: u128)
    requires
        distinct_keys(entries),
    ensures
        promoted(entries, key).len() == entries.len(),
        distinct_keys(promoted(entries, key)),
        distinct_values(entries) ==> distinct_values(promoted(entries, key)),
        forall|k: u128| holds(promoted(entries, key), k) == holds(entries, k),
        forall|k: u128| value_of(promoted(entries, key), k) == value_of(entries, k),
        forall|i: int|
            0 <= i < promoted(entries, key).len() ==> entries.contains(
                #[trigger] promoted(entries, key)[i],
            ),
{
    let after = promoted(entries, key);
    if holds(entries, key) {
        let place = place_of(entries, key);
        assert forall|i: int| 0 <= i < after.len() implies entries.contains(
            #[trigger] after[i],
        ) by {
            let j = if i < place {
                i
            } else if i < after.len() - 1 {
                i + 1
            } else {
                place
            };
            assert(entries[j] == after[i]);
        }
        assert forall|i: int, j: int|
            0 <= i < after.len() && 0 <= j < after.len() && i != j implies (#[trigger] after[i]).0
            != (#[trigger] after[j]).0 && (distinct_values(entries) ==> after[i].1 != after[j].1) by {
            let from = |i: int|
                if i < place {
                    i
                } else if i < after.len() - 1 {
                    i + 1
                } else {
                    place
                };
            assert(entries[from(i)] == after[i]);
            assert(entries[from(j)] == after[j]);
        }
        assert forall|k: u128| holds(after, k) == holds(entries, k) && value_of(after, k)
            == value_of(entries, k) by {
            if holds(entries, k) {
                let p = place_of(entries, k);
                let q = if p < place {
                    p
                } else if p > place {
                    p - 1
                } else {
                    after.len() - 1
                };
                assert(after[q] == entries[p]);
                assert(holds(after, k));
                let r = place_of(after, k);
                if r != q {
                    assert(after[r].0 != after[q].0);
                }
            }
            if holds(after, k) {
                let r = place_of(after, k);
                assert(entries.contains(after[r]));
                let j = entries.index_of(after[r]);
                assert(entries[j].0 == k);
                assert(holds(entries, k));
            }
        }
    } else {
        assert forall|i: int| 0 <= i < after.len() implies entries.contains(
            #[trigger] after[i],
        ) by {
            assert(entries[i] == after[i]);
        }
    }
}

/// What an insertion of a new key does: the key is held with its value, the
/// entries that had to leave are no longer held, all others stay as they
/// were.
pub proof fn lemma_inserted_new(entries: Seq<(u128, usize)>, capacity: nat, key: u128, value: usize)
    requires
        distinct_keys(entries),
        entries.len() <= capacity,
        capacity >= 1,
        !holds(entries, key),
    ensures
        inserted(entries, capacity, key, value).len() <= capacity,
        inserted(entries, capacity, key, value).len() == (if entries.len() == capacity {
            entries.len()
        } else {
            entries.len() + 1
        }),
        distinct_keys(inserted(entries, capacity, key, value)),
        value_of(inserted(entries, capacity, key, value), key) == Some(value),
        forall|k: u128|
            holds(inserted(entries, capacity, key, value), k) == (k == key || (holds(entries, k)
                && !(entries.len() == capacity && entries[0].0 == k))),
        forall|k: u128|
            k != key && holds(inserted(entries, capacity, key, value), k) ==> value_of(
                inserted(entries, capacity, key, value),
                k,
            ) == value_of(entries, k),
        forall|i: int|
            0 <= i < inserted(entries, capacity, key, value).len() - 1 ==> entries.contains(
                #[trigger] inserted(entries, capacity, key, value)[i],
            ),
        inserted(entries, capacity, key, value).last() == (key, value),
{
    let after = inserted(entries, capacity, key, value);
    let drop: int = if entries.len() == capacity {
        1
    } else {
        0
    };
    let kept = with_room(entries, capacity);
    assert(kept.len() == entries.len() - drop);
    assert(forall|i: int| 0 <= i < kept.len() ==> kept[i] == entries[i + drop]);
    assert(after == kept.push((key, value)));
    assert forall|i: int| 0 <= i < after.len() - 1 implies entries.contains(
        #[trigger] after[i],
    ) by {
        assert(entries[i + drop] == after[i]);
    }
    assert forall|i: int, j: int|
        0 <= i < after.len() && 0 <= j < after.len() && i != j implies (#[trigger] after[i]).0 != (
    #[trigger] after[j]).0 by {
        if i < kept.len() {
            assert(after[i] == entries[i + drop]);
        }
        if j < kept.len() {
            assert(after[j] == entries[j + drop]);
        }
    }
    assert(after[after.len() - 1].0 == key);
    assert(holds(after, key));
    assert(place_of(after, key) == after.len() - 1) by {
        let r = place_of(after, key);
        if r != after.len() - 1 {
            assert(after[r].0 != after[after.len() - 1].0);
        }
    }
    assert forall|k: u128|
        (holds(after, k) == (k == key || (holds(entries, k) && !(entries.len() == capacity
            && entries[0].0 == k)))) && (k != key && holds(after, k) ==> value_of(after, k)
            == value_of(entries, k)) by {
        if k != key {
            if holds(after, k) {
                let r = place_of(after, k);
                assert(after[r] == entries[r + drop]);
                assert(holds(entries, k));
                let p = place_of(entries, k);
                if p != r + drop {
                    assert(entries[p].0 != entries[r + drop].0);
                }
                if drop == 1 && entries[0].0 == k {
                    assert(entries[0].0 != entries[r + drop].0);
                }
            }
            if holds(entries, k) && !(entries.len() == capacity && entries[0].0 == k) {
                let p = place_of(entries, k);
                if drop == 1 && p == 0 {
                    assert(false);
                }
                assert(after[p - drop] == entries[p]);
                assert(holds(after, k));
            }
        }
    }
}

impl CacheModel {
    /// Asking for a region changes no state and keeps the invariant.
    pub proof fn lemma_touched(self, chunk_id: ChunkId)
        requires
            self.wf(),
        ensures
            self.touched(chunk_id).wf(),
            self.touched(chunk_id).same_chunks(self),
    {
        let key = chunk_id.key_spec();
        lemma_promoted(self.loaded, key);
        let after = self.touched(chunk_id);
        assert forall|i: int| 0 <= i < after.loaded.len() implies (#[trigger] after.loaded[i]).1
            < after.next_uid by {
            assert(self.loaded.contains(after.loaded[i]));
            let j = self.loaded.index_of(after.loaded[i]);
            assert(self.loaded[j].1 < self.next_uid);
        }
    }

    /// A result for a pending region makes it available or empty. Every
    /// other region keeps its state, but for the one whose entry had to make
    /// room, which becomes unknown.
    pub proof fn lemma_completed(self, chunk_id: ChunkId, num_vertices: usize)
        requires
            self.wf(),
            self.state_of(chunk_id) == ChunkState::Pending,
            num_vertices > 0 ==> self.next_uid < usize::MAX,
        ensures
            self.completed(chunk_id, num_vertices).wf(),
            self.completed(chunk_id, num_vertices).state_of(chunk_id) == (if num_vertices > 0 {
                ChunkState::Available
            } else {
                ChunkState::Empty
            }),
            num_vertices > 0 ==> self.completed(chunk_id, num_vertices).uid_of(chunk_id) == Some(
                self.next_uid,
            ),
            self.completed(chunk_id, num_vertices).pending.len() == self.pending.len() - 1,
            forall|id: ChunkId|
                id != chunk_id ==> #[trigger] self.completed(chunk_id, num_vertices).state_of(id)
                    == self.state_of(id) || (self.completed(chunk_id, num_vertices).state_of(id)
                    == ChunkState::Unknown && self.state_of(id) != ChunkState::Pending),
            forall|id: ChunkId|
                self.completed(chunk_id, num_vertices).state_of(id) == ChunkState::Available && id
                    != chunk_id ==> #[trigger] self.completed(chunk_id, num_vertices).uid_of(id)
                    == self.uid_of(id),
    {
        let key = chunk_id.key_spec();
        let after = self.completed(chunk_id, num_vertices);
        assert forall|id: ChunkId| id != chunk_id implies id.key_spec() != key by {
            if id.key_spec() == key {
                ChunkId::lemma_key_is_injective(id, chunk_id);
            }
        }
        if num_vertices > 0 {
            lemma_inserted_new(self.loaded, self.loaded_capacity, key, self.next_uid);
            assert forall|i: int| 0 <= i < after.loaded.len() implies (#[trigger] after.loaded[i]).1
                < after.next_uid by {
                if i < after.loaded.len() - 1 {
                    assert(self.loaded.contains(after.loaded[i]));
                    let j = self.loaded.index_of(after.loaded[i]);
                    assert(self.loaded[j].1 < self.next_uid);
                }
            }
            assert forall|i: int, j: int|
                0 <= i < after.loaded.len() && 0 <= j < after.loaded.len() && i != j implies (
            #[trigger] after.loaded[i]).1 != (#[trigger] after.loaded[j]).1 by {
                let last = after.loaded.len() - 1;
                if i < last {
                    assert(self.loaded.contains(after.loaded[i]));
                    let p = self.loaded.index_of(after.loaded[i]);
                    assert(self.loaded[p].1 < self.next_uid);
                }
                if j < last {
                    assert(self.loaded.contains(after.loaded[j]));
                    let q = self.loaded.index_of(after.loaded[j]);
                    assert(self.loaded[q].1 < self.next_uid);
                }
                if i < last && j < last {
                    let p = self.loaded.index_of(after.loaded[i]);
                    let q = self.loaded.index_of(after.loaded[j]);
                    if p == q {
                        assert(after.loaded[i].0 == after.loaded[j].0);
                    }
                }
            }
        } else {
            lemma_inserted_new(self.empty, self.empty_capacity, key, 0);
        }
    }

    /// Proposing a region keeps the invariant. A region that is accepted
    /// becomes pending; nothing else changes.
    pub proof fn lemma_submitted(self, chunk_id: ChunkId)
        requires
            self.wf(),
        ensures
            self.submitted(chunk_id).wf(),
            self.accepts(chunk_id) ==> self.submitted(chunk_id).state_of(chunk_id)
                == ChunkState::Pending,
            forall|id: ChunkId|
                id != chunk_id ==> #[trigger] self.submitted(chunk_id).state_of(id)
                    == self.state_of(id),
            forall|id: ChunkId| self.submitted(chunk_id).uid_of(id) == self.uid_of(id),
    {
        let key = chunk_id.key_spec();
        assert forall|id: ChunkId| id != chunk_id implies id.key_spec() != key by {
            if id.key_spec() == key {
                ChunkId::lemma_key_is_injective(id, chunk_id);
            }
        }
    }
}

/// A job that came back: the region it meshed and the number of vertices of
/// the mesh.
#[derive(Copy, Clone, Debug)]
pub struct Completed {
    pub chunk_id: ChunkId,
    pub num_vertices: usize,
}

/// What became of a job that came back.
#[derive(Copy, Clone, Debug, PartialEq, Eq, Structural)]
pub struct Outcome {
    /// The uid under which the mesh is kept; `None` for a mesh without
    /// vertices, which is not kept.
    pub uid: Option<usize>,
    /// The uid of the mesh that left the cache to make room.
    pub evicted: Option<usize>,
}

/// The number of jobs among these that came back with a mesh that has
/// vertices.
pub open spec fn meshes(results: Seq<Completed>) -> nat
    decreases results.len(),
{
    if results.len() == 0 {
        0
    } else if results.last().num_vertices > 0 {
        meshes(results.drop_last()) + 1
    } else {
        meshes(results.drop_last())
    }
}

/// The jobs up to a place bring no more meshes than all of them.
pub proof fn lemma_meshes_grow(results: Seq<Completed>, i: int)
    requires
        0 <= i <= results.len(),
    ensures
        meshes(results.take(i)) <= meshes(results),
        meshes(results) <= results.len(),
    decreases results.len() - i,
{
    if i < results.len() {
        lemma_meshes_grow(results, i + 1);
        assert(results.take(i + 1).drop_last() =~= results.take(i));
    } else {
        assert(results.take(i) =~= results);
        lemma_meshes_count(results);
    }
}

proof fn lemma_meshes_count(results: Seq<Completed>)
    ensures
        meshes(results) <= results.len(),
    decreases results.len(),
{
    if results.len() > 0 {
        lemma_meshes_count(results.drop_last());
    }
}

/// What one frame does to the world outside the cache.
#[derive(Debug)]
pub struct Frame {
    /// For each job that came back, in order, what became of it.
    pub outcomes: Vec<Outcome>,
    /// The regions for which a job is to be started.
    pub jobs: Vec<ChunkId>,
    /// The uids of the meshes to draw.
    pub draw: Vec<usize>,
}

impl CacheModel {
    /// What becomes of a job that comes back with a mesh of `num_vertices`
    /// vertices.
    pub open spec fn outcome(self, num_vertices: usize) -> Outcome {
        Outcome {
            uid: if num_vertices > 0 {
                Some(self.next_uid)
            } else {
                None
            },
            evicted: self.evicted_by(num_vertices),
        }
    }

    /// The cache after these jobs came back, one after the other.
    pub open spec fn drained(self, results: Seq<Completed>) -> CacheModel
        decreases results.len(),
    {
        if results.len() == 0 {
            self
        } else {
            self.drained(results.drop_last()).completed(
                results.last().chunk_id,
                results.last().num_vertices,
            )
        }
    }

    /// What became of each of these jobs.
    pub open spec fn outcomes(self, results: Seq<Completed>) -> Seq<Outcome>
        decreases results.len(),
    {
        if results.len() == 0 {
            Seq::empty()
        } else {
            self.outcomes(results.drop_last()).push(
                self.drained(results.drop_last()).outcome(results.last().num_vertices),
            )
        }
    }

    /// The cache after these regions were proposed, one after the other.
    pub open spec fn proposed(self, ids: Seq<ChunkId>) -> CacheModel
        decreases ids.len(),
    {
        if ids.len() == 0 {
            self
        } else {
            self.proposed(ids.drop_last()).submitted(ids.last())
        }
    }

    /// The regions among those proposed for which a job is started.
    pub open spec fn jobs(self, ids: Seq<ChunkId>) -> Seq<ChunkId>
        decreases ids.len(),
    {
        if ids.len() == 0 {
            Seq::empty()
        } else if self.proposed(ids.drop_last()).accepts(ids.last()) {
            self.jobs(ids.drop_last()).push(ids.last())
        } else {
            self.jobs(ids.drop_last())
        }
    }

    /// The uids of the meshes of these regions, in order; a region without a
    /// mesh is passed over.
    pub open spec fn drawn(self, ids: Seq<ChunkId>) -> Seq<usize>
        decreases ids.len(),
    {
        if ids.len() == 0 {
            Seq::empty()
        } else {
            match self.uid_of(ids.last()) {
                Some(uid) => self.drawn(ids.drop_last()).push(uid),
                None => self.drawn(ids.drop_last()),
            }
        }
    }

    /// The jobs that come back are jobs that are in flight, each once.
    pub open spec fn expects(self, results: Seq<Completed>) -> bool {
        &&& forall|i: int|
            0 <= i < results.len() ==> self.state_of((#[trigger] results[i]).chunk_id)
                == ChunkState::Pending
        &&& forall|i: int, j: int|
            0 <= i < results.len() && 0 <= j < results.len() && i != j ==> (
            #[trigger] results[i]).chunk_id != (#[trigger] results[j]).chunk_id
    }

    /// Every one of these regions is in the given state.
    pub open spec fn all_in_state(self, ids: Seq<ChunkId>, state: ChunkState) -> bool {
        forall|i: int| 0 <= i < ids.len() ==> self.state_of(#[trigger] ids[i]) == state
    }

    /// The cache after these regions were asked for, one after the other.
    pub open spec fn asked(self, ids: Seq<ChunkId>) -> CacheModel
        decreases ids.len(),
    {
        if ids.len() == 0 {
            self
        } else {
            self.asked(ids.drop_last()).touched(ids.last())
        }
    }

    /// Asking for regions keeps the invariant and what the cache holds.
    pub proof fn lemma_asked(self, ids: Seq<ChunkId>)
        requires
            self.wf(),
        ensures
            self.asked(ids).wf(),
            self.asked(ids).same_chunks(self),
        decreases ids.len(),
    {
        if ids.len() > 0 {
            self.lemma_asked(ids.drop_last());
            self.asked(ids.drop_last()).lemma_touched(ids.last());
        }
    }

    /// Asking for two lists of regions one after the other is asking for
    /// them as one list.
    pub proof fn lemma_asked_in_two(self, first: Seq<ChunkId>, second: Seq<ChunkId>)
        ensures
            self.asked(first + second) == self.asked(first).asked(second),
        decreases second.len(),
    {
        if second.len() == 0 {
            assert(first + second =~= first);
        } else {
            self.lemma_asked_in_two(first, second.drop_last());
            assert((first + second).drop_last() =~= first + second.drop_last());
            assert((first + second).last() == second.last());
        }
    }

    /// Whether a uid is that of a mesh in the cache.
    pub open spec fn has_mesh(self, uid: usize) -> bool {
        exists|i: int| 0 <= i < self.loaded.len() && (#[trigger] self.loaded[i]).1 == uid
    }

    /// Every mesh that is listed for drawing is in the cache.
    pub proof fn lemma_drawn_are_cached(self, ids: Seq<ChunkId>)
        ensures
            forall|k: int|
                0 <= k < self.drawn(ids).len() ==> self.has_mesh(#[trigger] self.drawn(ids)[k]),
        decreases ids.len(),
    {
        if ids.len() > 0 {
            self.lemma_drawn_are_cached(ids.drop_last());
            let before = self.drawn(ids.drop_last());
            let all = self.drawn(ids);
            assert forall|k: int| 0 <= k < all.len() implies self.has_mesh(#[trigger] all[k]) by {
                if k < before.len() {
                    assert(all[k] == before[k]);
                } else {
                    let uid = self.uid_of(ids.last())->0;
                    let place = place_of(self.loaded, ids.last().key_spec());
                    assert(self.loaded[place].1 == uid);
                    assert(all[k] == uid);
                }
            }
        }
    }

    /// What taking in jobs that are in flight does: the invariant stays,
    /// every mesh with vertices uses up one uid, the jobs are no longer
    /// pending, and no other region becomes pending.
    pub proof fn lemma_drained(self, results: Seq<Completed>)
        requires
            self.wf(),
            self.expects(results),
            self.next_uid + meshes(results) <= usize::MAX,
        ensures
            self.drained(results).wf(),
            self.drained(results).next_uid == self.next_uid + meshes(results),
            self.drained(results).loaded_capacity == self.loaded_capacity,
            self.drained(results).empty_capacity == self.empty_capacity,
            self.drained(results).pending.len() == self.pending.len() - results.len(),
            forall|id: ChunkId|
                #[trigger] self.drained(results).state_of(id) == ChunkState::Pending <==> self.state_of(
                    id,
                ) == ChunkState::Pending && forall|i: int|
                    0 <= i < results.len() ==> (#[trigger] results[i]).chunk_id != id,
            forall|id: ChunkId|
                self.state_of(id) != ChunkState::Pending ==> #[trigger] self.drained(
                    results,
                ).state_of(id) == self.state_of(id) || self.drained(results).state_of(id)
                    == ChunkState::Unknown,
        decreases results.len(),
    {
        if results.len() > 0 {
            let before = results.drop_last();
            let last = results.last();
            assert forall|i: int| 0 <= i < before.len() implies self.state_of(
                (#[trigger] before[i]).chunk_id,
            ) == ChunkState::Pending by {
                assert(before[i] == results[i]);
            }
            assert forall|i: int, j: int|
                0 <= i < before.len() && 0 <= j < before.len() && i != j implies (
            #[trigger] before[i]).chunk_id != (#[trigger] before[j]).chunk_id by {
                assert(before[i] == results[i] && before[j] == results[j]);
            }
            self.lemma_drained(before);
            let mid = self.drained(before);
            assert(mid.state_of(last.chunk_id) == ChunkState::Pending) by {
                assert(results[results.len() - 1] == last);
                assert forall|i: int| 0 <= i < before.len() implies (#[trigger] before[i]).chunk_id
                    != last.chunk_id by {
                    assert(before[i] == results[i]);
                }
            }
            mid.lemma_completed(last.chunk_id, last.num_vertices);
            let after = self.drained(results);
            assert forall|id: ChunkId|
                #[trigger] after.state_of(id) == ChunkState::Pending <==> self.state_of(id)
                    == ChunkState::Pending && forall|i: int|
                    0 <= i < results.len() ==> (#[trigger] results[i]).chunk_id != id by {
                if id == last.chunk_id {
                    assert(results[results.len() - 1].chunk_id == id);
                } else {
                    assert(after.state_of(id) == ChunkState::Pending <==> mid.state_of(id)
                        == ChunkState::Pending);
                    if mid.state_of(id) == ChunkState::Pending {
                        assert forall|i: int| 0 <= i < results.len() implies (
                        #[trigger] results[i]).chunk_id != id by {
                            if i < before.len() {
                                assert(before[i] == results[i]);
                            }
                        }
                    }
                    if self.state_of(id) == ChunkState::Pending && forall|i: int|
                        0 <= i < results.len() ==> (#[trigger] results[i]).chunk_id != id {
                        assert forall|i: int| 0 <= i < before.len() implies (
                        #[trigger] before[i]).chunk_id != id by {
                            assert(before[i] == results[i]);
                        }
                    }
                }
            }
            assert forall|id: ChunkId| self.state_of(id) != ChunkState::Pending implies #[trigger] after.state_of(
                id,
            ) == self.state_of(id) || after.state_of(id) == ChunkState::Unknown by {
                assert(mid.state_of(id) != ChunkState::Pending);
                assert(id != last.chunk_id);
            }
        }
    }

    /// What proposing regions does: the invariant stays, with it the bound
    /// on the jobs in flight; a region keeps its state or goes from unknown
    /// to pending; no mesh comes or goes.
    pub proof fn lemma_proposed(self, ids: Seq<ChunkId>)
        requires
            self.wf(),
        ensures
            self.proposed(ids).wf(),
            self.proposed(ids).pending.len() <= MAX_IN_FLIGHT,
            self.proposed(ids).loaded == self.loaded,
            self.proposed(ids).empty == self.empty,
            self.proposed(ids).next_uid == self.next_uid,
            forall|id: ChunkId|
                #[trigger] self.proposed(ids).state_of(id) == self.state_of(id) || (self.state_of(id)
                    == ChunkState::Unknown && self.proposed(ids).state_of(id)
                    == ChunkState::Pending),
        decreases ids.len(),
    {
        if ids.len() > 0 {
            self.lemma_proposed(ids.drop_last());
            let mid = self.proposed(ids.drop_last());
            mid.lemma_submitted(ids.last());
            let after = self.proposed(ids);
            assert forall|id: ChunkId|
                #[trigger] after.state_of(id) == self.state_of(id) || (self.state_of(id)
                    == ChunkState::Unknown && after.state_of(id) == ChunkState::Pending) by {
                if id != ids.last() {
                    assert(after.state_of(id) == mid.state_of(id));
                }
            }
        }
    }

    /// After every frame the invariant holds, whatever is proposed: a region
    /// is in exactly one state, and no more than `MAX_IN_FLIGHT` jobs are in
    /// flight.
    pub proof fn lemma_frame_keeps_the_invariant(
        self,
        results: Seq<Completed>,
        fetch: Seq<ChunkId>,
    )
        requires
            self.wf(),
            self.expects(results),
            self.next_uid + meshes(results) <= usize::MAX,
        ensures
            self.drained(results).proposed(fetch).wf(),
            self.drained(results).proposed(fetch).pending.len() <= MAX_IN_FLIGHT,
    {
        self.lemma_drained(results);
        self.drained(results).lemma_proposed(fetch);
    }

    /// When every job that comes back brings a mesh without vertices, no
    /// uid is used up and the meshes in the cache stay as they are; none of
    /// the regions is pending or available afterwards. While the cache has
    /// room to remember them, all of them are known to be empty.
    pub proof fn lemma_drained_empty(self, results: Seq<Completed>)
        requires
            self.wf(),
            self.expects(results),
            forall|i: int| 0 <= i < results.len() ==> (#[trigger] results[i]).num_vertices == 0,
        ensures
            meshes(results) == 0,
            self.drained(results).wf(),
            self.drained(results).loaded == self.loaded,
            self.drained(results).next_uid == self.next_uid,
            self.drained(results).pending.len() == self.pending.len() - results.len(),
            results.len() == self.pending.len() ==> self.drained(results).pending.len() == 0,
            forall|i: int|
                0 <= i < results.len() ==> self.drained(results).state_of(
                    (#[trigger] results[i]).chunk_id,
                ) == ChunkState::Empty || self.drained(results).state_of(results[i].chunk_id)
                    == ChunkState::Unknown,
            self.empty.len() + results.len() <= self.empty_capacity ==> self.drained(
                results,
            ).empty.len() == self.empty.len() + results.len() && forall|i: int|
                0 <= i < results.len() ==> self.drained(results).state_of(
                    (#[trigger] results[i]).chunk_id,
                ) == ChunkState::Empty,
        decreases results.len(),
    {
        if results.len() > 0 {
            let before = results.drop_last();
            let last = results.last();
            assert(results[results.len() - 1] == last);
            assert(last.num_vertices == 0);
            assert forall|i: int| 0 <= i < before.len() implies (#[trigger] before[i]).num_vertices
                == 0 by {
                assert(before[i] == results[i]);
            }
            assert forall|i: int| 0 <= i < before.len() implies self.state_of(
                (#[trigger] before[i]).chunk_id,
            ) == ChunkState::Pending by {
                assert(before[i] == results[i]);
            }
            assert forall|i: int, j: int|
                0 <= i < before.len() && 0 <= j < before.len() && i != j implies (
            #[trigger] before[i]).chunk_id != (#[trigger] before[j]).chunk_id by {
                assert(before[i] == results[i] && before[j] == results[j]);
            }
            self.lemma_drained_empty(before);
            self.lemma_drained(before);
            self.lemma_drained(results);
            let mid = self.drained(before);
            let after = self.drained(results);
            assert(mid.state_of(last.chunk_id) == ChunkState::Pending) by {
                assert forall|i: int| 0 <= i < before.len() implies (#[trigger] before[i]).chunk_id
                    != last.chunk_id by {
                    assert(before[i] == results[i]);
                }
            }
            mid.lemma_completed(last.chunk_id, 0);
            let key = last.chunk_id.key_spec();
            lemma_inserted_new(mid.empty, mid.empty_capacity, key, 0);
            assert forall|i: int| 0 <= i < results.len() implies after.state_of(
                (#[trigger] results[i]).chunk_id,
            ) == ChunkState::Empty || after.state_of(results[i].chunk_id)
                == ChunkState::Unknown by {
                if i < before.len() {
                    assert(before[i] == results[i]);
                    assert(results[i].chunk_id != last.chunk_id);
                }
            }
            if self.empty.len() + results.len() <= self.empty_capacity {
                assert(mid.empty.len() == self.empty.len() + before.len());
                assert(after.empty == inserted(mid.empty, mid.empty_capacity, key, 0));
                assert(after.empty_capacity == self.empty_capacity);
                assert forall|i: int| 0 <= i < results.len() implies after.state_of(
                    (#[trigger] results[i]).chunk_id,
                ) == ChunkState::Empty by {
                    if i < before.len() {
                        assert(before[i] == results[i]);
                        let id = results[i].chunk_id;
                        assert(id != last.chunk_id);
                        assert(mid.state_of(id) == ChunkState::Empty);
                        if id.key_spec() == key {
                            ChunkId::lemma_key_is_injective(id, last.chunk_id);
                        }
                        assert(holds(mid.empty, id.key_spec()));
                        assert(holds(after.empty, id.key_spec()));
                    }
                }
            }
        }
    }

    /// While no mesh is in the cache, nothing is listed for drawing,
    /// whatever regions are asked for.
    pub proof fn lemma_nothing_cached_nothing_drawn(self, ids: Seq<ChunkId>)
        requires
            self.loaded.len() == 0,
        ensures
            self.drawn(ids) == Seq::<usize>::empty(),
        decreases ids.len(),
    {
        if ids.len() > 0 {
            self.lemma_nothing_cached_nothing_drawn(ids.drop_last());
            assert(self.uid_of(ids.last()) is None);
        }
    }

    /// When as many jobs are in flight as may be, proposals change nothing.
    pub proof fn lemma_full_accepts_nothing(self, ids: Seq<ChunkId>)
        requires
            self.pending.len() >= MAX_IN_FLIGHT,
        ensures
            self.proposed(ids) == self,
            self.jobs(ids) == Seq::<ChunkId>::empty(),
        decreases ids.len(),
    {
        if ids.len() > 0 {
            self.lemma_full_accepts_nothing(ids.drop_last());
        }
    }
}

/// Proposing two lists of regions one after the other is proposing them as
/// one list.
pub proof fn lemma_proposed_in_two(m: CacheModel, first: Seq<ChunkId>, second: Seq<ChunkId>)
    ensures
        m.proposed(first + second) == m.proposed(first).proposed(second),
        m.jobs(first + second) == m.jobs(first) + m.proposed(first).jobs(second),
    decreases second.len(),
{
    if second.len() == 0 {
        assert(first + second =~= first);
        assert(m.jobs(first) + m.proposed(first).jobs(second) =~= m.jobs(first));
    } else {
        lemma_proposed_in_two(m, first, second.drop_last());
        assert((first + second).drop_last() =~= first + second.drop_last());
        assert((first + second).last() == second.last());
        let before = m.proposed(first + second.drop_last());
        if before.accepts(second.last()) {
            assert(m.jobs(first + second) =~= m.jobs(first) + m.proposed(first).jobs(second));
        }
    }
}

/// The chunk cache of a renderer: the meshed chunks and the empty regions,
/// each kept in least-recently-used order, and the regions in flight.
pub struct ChunkRenderer {
    loaded_chunks: LruCache<u128, usize>,
    loaded_capacity: usize,
    pending_chunks: HashSet<u128>,
    empty_chunks: LruCache<u128, usize>,
    empty_capacity: usize,
    empty_uid: usize,
}

impl View for ChunkRenderer {
    type V = CacheModel;

    closed spec fn view(&self) -> CacheModel {
        CacheModel {
            loaded: lru_entries(self.loaded_chunks),
            loaded_capacity: lru_capacity(self.loaded_chunks),
            empty: lru_entries(self.empty_chunks),
            empty_capacity: lru_capacity(self.empty_chunks),
            pending: self.pending_chunks@,
            next_uid: self.empty_uid,
        }
    }
}

/// A cache of chunks as the level-of-detail controller sees it.
pub trait ChunkCache {
    /// The invariant of the cache.
    spec fn valid(&self) -> bool;

    /// What the cache knows of a region.
    spec fn state_of(&self, chunk_id: ChunkId) -> ChunkState;

    /// Whether the cache is what `before` becomes when it is asked for the
    /// regions `ids`, one after the other.
    spec fn asked_since(&self, before: &Self, ids: Seq<ChunkId>) -> bool;

    /// Asking changes the state of no region.
    proof fn lemma_asked_same_states(&self, before: &Self, ids: Seq<ChunkId>)
        requires
            before.valid(),
            self.asked_since(before, ids),
        ensures
            forall|id: ChunkId| self.state_of(id) == before.state_of(id),
    ;

    /// A cache that was asked for nothing is as it was.
    proof fn lemma_asked_nothing(&self)
        ensures
            self.asked_since(self, Seq::empty()),
    ;

    /// Asking for two lists of regions one after the other is asking for
    /// them as one list.
    proof fn lemma_asked_more(
        &self,
        middle: &Self,
        before: &Self,
        first: Seq<ChunkId>,
        second: Seq<ChunkId>,
    )
        requires
            middle.asked_since(before, first),
            self.asked_since(middle, second),
        ensures
            self.asked_since(before, first + second),
    ;

    /// Asks for the state of a region. The cache may take note that the
    /// region was asked for.
    fn get_chunk_state(&mut self, chunk_id: &ChunkId) -> (state: ChunkState)
        requires
            old(self).valid(),
        ensures
            final(self).valid(),
            final(self).asked_since(old(self), seq![*chunk_id]),
            state == old(self).state_of(*chunk_id),
    ;

    fn is_unknown(&mut self, chunk_id: &ChunkId) -> (yes: bool)
        requires
            old(self).valid(),
        ensures
            final(self).valid(),
            final(self).asked_since(old(self), seq![*chunk_id]),
            yes == (old(self).state_of(*chunk_id) == ChunkState::Unknown),
    {
        self.get_chunk_state(chunk_id) == ChunkState::Unknown
    }

    fn is_empty(&mut self, chunk_id: &ChunkId) -> (yes: bool)
        requires
            old(self).valid(),
        ensures
            final(self).valid(),
            final(self).asked_since(old(self), seq![*chunk_id]),
            yes == (old(self).state_of(*chunk_id) == ChunkState::Empty),
    {
        self.get_chunk_state(chunk_id) == ChunkState::Empty
    }

    fn is_available(&mut self, chunk_id: &ChunkId) -> (yes: bool)
        requires
            old(self).valid(),
        ensures
            final(self).valid(),
            final(self).asked_since(old(self), seq![*chunk_id]),
            yes == (old(self).state_of(*chunk_id) == ChunkState::Available),
    {
        self.get_chunk_state(chunk_id) == ChunkState::Available
    }
}

impl ChunkRenderer {
    /// The invariant of the cache.
    pub closed spec fn wf(&self) -> bool {
        &&& self@.wf()
        &&& self.loaded_capacity == lru_capacity(self.loaded_chunks)
        &&& self.empty_capacity == lru_capacity(self.empty_chunks)
    }

    /// The invariant of the cache is that of its contents.
    pub proof fn lemma_wf(&self)
        requires
            self.wf(),
        ensures
            self@.wf(),
    {
    }

    /// An empty cache for 2048 meshes and 65536 empty regions, whose first
    /// mesh gets the uid `uid_start`.
    pub fn new(uid_start: usize) -> (renderer: Self)
        ensures
            renderer.wf(),
            renderer@ == (CacheModel {
                loaded: Seq::empty(),
                loaded_capacity: 2048,
                empty: Seq::empty(),
                empty_capacity: 65536,
                pending: Set::empty(),
                next_uid: uid_start,
            }),
    {
        Self::with_capacities(uid_start, 2048, 65536)
    }

    /// An empty cache for `loaded_capacity` meshes and `empty_capacity`
    /// empty regions.
    pub fn with_capacities(uid_start: usize, loaded_capacity: usize, empty_capacity: usize) -> (renderer:
        Self)
        requires
            1 <= loaded_capacity,
            1 <= empty_capacity,
            loaded_capacity * 16 <= isize::MAX,
            empty_capacity * 16 <= isize::MAX,
        ensures
            renderer.wf(),
            renderer@ == (CacheModel {
                loaded: Seq::empty(),
                loaded_capacity: loaded_capacity as nat,
                empty: Seq::empty(),
                empty_capacity: empty_capacity as nat,
                pending: Set::empty(),
                next_uid: uid_start,
            }),
    {
        let renderer = ChunkRenderer {
            loaded_chunks: lru_with_capacity(loaded_capacity),
            loaded_capacity,
            pending_chunks: HashSet::with_capacity(128),
            empty_chunks: lru_with_capacity(empty_capacity),
            empty_capacity,
            empty_uid: uid_start,
        };
        proof {
            assert forall|key: u128| !holds(renderer@.loaded, key) && !holds(
                renderer@.empty,
                key,
            ) by {}
        }
        renderer
    }

    /// The state of a region, asked without making its mesh the most
    /// recently used.
    pub fn peek_chunk_state(&self, chunk_id: &ChunkId) -> (state: ChunkState)
        ensures
            state == self@.state_of(*chunk_id),
    {
        let key = chunk_id.key();
        if lru_contains_key(&self.loaded_chunks, key) {
            ChunkState::Available
        } else if lru_contains_key(&self.empty_chunks, key) {
            ChunkState::Empty
        } else if self.pending_chunks.contains(&key) {
            ChunkState::Pending
        } else {
            ChunkState::Unknown
        }
    }

    /// Takes in one job that came back.
    fn ingest(&mut self, result: &Completed) -> (outcome: Outcome)
        requires
            old(self).wf(),
            old(self)@.state_of(result.chunk_id) == ChunkState::Pending,
            result.num_vertices > 0 ==> old(self)@.next_uid < usize::MAX,
        ensures
            final(self).wf(),
            final(self)@ == old(self)@.completed(result.chunk_id, result.num_vertices),
            outcome == old(self)@.outcome(result.num_vertices),
    {
        let key = result.chunk_id.key();
        proof {
            self@.lemma_completed(result.chunk_id, result.num_vertices);
        }
        self.pending_chunks.remove(&key);
        if result.num_vertices > 0 {
            let evicted = if lru_len(&self.loaded_chunks) >= self.loaded_capacity {
                let newest_first = lru_peek_all(&self.loaded_chunks);
                Some(newest_first[newest_first.len() - 1].1)
            } else {
                None
            };
            let uid = self.empty_uid;
            lru_insert(&mut self.loaded_chunks, key, uid);
            self.empty_uid = uid + 1;
            Outcome { uid: Some(uid), evicted }
        } else {
            lru_insert(&mut self.empty_chunks, key, 0);
            Outcome { uid: None, evicted: None }
        }
    }

    /// One frame of the cache, in three steps.
    ///
    /// Drain: every job in `completed` is taken in; a mesh with vertices gets
    /// the next uid and goes into the cache, where it may push out the least
    /// recently used mesh; a mesh without vertices marks its region as empty.
    /// Submit: the regions in `fetch_chunk_ids` are proposed in order, and a
    /// job is started for each that is unknown while fewer than
    /// `MAX_IN_FLIGHT` jobs are in flight; the others are dropped. Assemble:
    /// the meshes of the regions in `draw_chunk_ids` are listed by uid; a
    /// region that lost its mesh in this frame is passed over.
    pub fn render(
        &mut self,
        completed: &Vec<Completed>,
        draw_chunk_ids: &Vec<ChunkId>,
        fetch_chunk_ids: Vec<ChunkId>,
    ) -> (frame: Frame)
        requires
            old(self).wf(),
            old(self)@.expects(completed@),
            old(self)@.all_in_state(draw_chunk_ids@, ChunkState::Available),
            old(self)@.all_in_state(fetch_chunk_ids@, ChunkState::Unknown),
            old(self)@.next_uid + meshes(completed@) <= usize::MAX,
        ensures
            final(self).wf(),
            final(self)@.pending.len() <= MAX_IN_FLIGHT,
            final(self)@ == old(self)@.drained(completed@).proposed(fetch_chunk_ids@),
            frame.outcomes@ == old(self)@.outcomes(completed@),
            frame.jobs@ == old(self)@.drained(completed@).jobs(fetch_chunk_ids@),
            frame.draw@ == final(self)@.drawn(draw_chunk_ids@),
    {
        let mut outcomes: Vec<Outcome> = Vec::new();
        let mut i: usize = 0;
        while i < completed.len()
            invariant
                i <= completed@.len(),
                self.wf(),
                old(self)@.next_uid + meshes(completed@) <= usize::MAX,
                self@.next_uid == old(self)@.next_uid + meshes(completed@.take(i as int)),
                self@ == old(self)@.drained(completed@.take(i as int)),
                outcomes@ == old(self)@.outcomes(completed@.take(i as int)),
                old(self)@.expects(completed@),
                forall|j: int|
                    i <= j < completed@.len() ==> self@.state_of((#[trigger] completed@[j]).chunk_id)
                        == ChunkState::Pending,
                self@.all_in_state(fetch_chunk_ids@, ChunkState::Unknown),
            decreases completed@.len() - i,
        {
            let result = &completed[i];
            let ghost before = self@;
            proof {
                assert(completed@.take(i as int + 1).drop_last() =~= completed@.take(i as int));
                assert(completed@.take(i as int + 1).last() == completed@[i as int]);
                lemma_meshes_grow(completed@, i as int + 1);
                before.lemma_completed(result.chunk_id, result.num_vertices);
            }
            let outcome = self.ingest(result);
            outcomes.push(outcome);
            proof {
                assert forall|j: int| i < j < completed@.len() implies self@.state_of(
                    (#[trigger] completed@[j]).chunk_id,
                ) == ChunkState::Pending by {
                    assert(completed@[j].chunk_id != completed@[i as int].chunk_id);
                    assert(before.state_of(completed@[j].chunk_id) == ChunkState::Pending);
                }
                assert forall|k: int| 0 <= k < fetch_chunk_ids@.len() implies self@.state_of(
                    #[trigger] fetch_chunk_ids@[k],
                ) == ChunkState::Unknown by {
                    assert(before.state_of(fetch_chunk_ids@[k]) == ChunkState::Unknown);
                }
            }
            i += 1;
        }
        proof {
            assert(completed@.take(completed@.len() as int) =~= completed@);
        }
        let ghost drained = self@;
        let mut jobs: Vec<ChunkId> = Vec::new();
        let mut k: usize = 0;
        let mut full = false;
        while k < fetch_chunk_ids.len() && !full
            invariant
                k <= fetch_chunk_ids@.len(),
                self@ == drained.proposed(fetch_chunk_ids@.take(k as int)),
                jobs@ == drained.jobs(fetch_chunk_ids@.take(k as int)),
                full ==> self@.pending.len() >= MAX_IN_FLIGHT,
                self.wf(),
                forall|j: int|
                    0 <= j < fetch_chunk_ids@.len() ==> self@.state_of(
                        #[trigger] fetch_chunk_ids@[j],
                    ) == ChunkState::Unknown || self@.state_of(fetch_chunk_ids@[j])
                        == ChunkState::Pending,
            decreases fetch_chunk_ids@.len() - k, (if full { 0int } else { 1int }),
        {
            if self.pending_chunks.len() >= MAX_IN_FLIGHT {
                full = true;
            } else {
                let ghost before = self@;
                let chunk_id = fetch_chunk_ids[k];
                let key = chunk_id.key();
                proof {
                    before.lemma_submitted(chunk_id);
                    assert(fetch_chunk_ids@.take(k as int + 1).drop_last()
                        =~= fetch_chunk_ids@.take(k as int));
                    assert(fetch_chunk_ids@.take(k as int + 1).last() == chunk_id);
                }
                if !self.pending_chunks.contains(&key) {
                    self.pending_chunks.insert(key);
                    jobs.push(chunk_id);
                }
                proof {
                    assert(self@ == before.submitted(chunk_id));
                    assert forall|j: int| 0 <= j < fetch_chunk_ids@.len() implies self@.state_of(
                        #[trigger] fetch_chunk_ids@[j],
                    ) == ChunkState::Unknown || self@.state_of(fetch_chunk_ids@[j])
                        == ChunkState::Pending by {
                        let other = fetch_chunk_ids@[j];
                        assert(before.state_of(other) == ChunkState::Unknown || before.state_of(
                            other,
                        ) == ChunkState::Pending);
                    }
                }
                k += 1;
            }
        }
        proof {
            let done = fetch_chunk_ids@.take(k as int);
            let rest = fetch_chunk_ids@.skip(k as int);
            assert(done + rest =~= fetch_chunk_ids@);
            if full {
                self@.lemma_full_accepts_nothing(rest);
                lemma_proposed_in_two(drained, done, rest);
            } else {
                assert(done =~= fetch_chunk_ids@);
            }
        }
        let mut draw: Vec<usize> = Vec::new();
        let mut d: usize = 0;
        while d < draw_chunk_ids.len()
            invariant
                d <= draw_chunk_ids@.len(),
                draw@ == self@.drawn(draw_chunk_ids@.take(d as int)),
            decreases draw_chunk_ids@.len() - d,
        {
            let key = draw_chunk_ids[d].key();
            proof {
                assert(draw_chunk_ids@.take(d as int + 1).drop_last() =~= draw_chunk_ids@.take(
                    d as int,
                ));
                assert(draw_chunk_ids@.take(d as int + 1).last() == draw_chunk_ids@[d as int]);
            }
            match lru_peek(&self.loaded_chunks, key) {
                Some(uid) => {
                    draw.push(uid);
                },
                None => {},
            }
            d += 1;
        }
        proof {
            assert(draw_chunk_ids@.take(draw_chunk_ids@.len() as int) =~= draw_chunk_ids@);
        }
        Frame { outcomes, jobs, draw }
    }

    /// Whether every one of these regions is in the given state.
    pub fn all_in_state(&self, ids: &Vec<ChunkId>, state: ChunkState) -> (yes: bool)
        ensures
            yes == self@.all_in_state(ids@, state),
    {
        let mut i: usize = 0;
        while i < ids.len()
            invariant
                i <= ids@.len(),
                forall|j: int| 0 <= j < i ==> self@.state_of(#[trigger] ids@[j]) == state,
            decreases ids@.len() - i,
        {
            if self.peek_chunk_state(&ids[i]) != state {
                return false;
            }
            i += 1;
        }
        true
    }

    /// Whether these jobs can be taken in: each is in flight, none comes
    /// twice, and there are uids left for the meshes that have vertices.
    pub fn can_take(&self, completed: &Vec<Completed>) -> (yes: bool)
        ensures
            yes == (self@.expects(completed@) && self@.next_uid + meshes(completed@)
                <= usize::MAX),
    {
        let mut with_vertices: usize = 0;
        let mut n: usize = 0;
        while n < completed.len()
            invariant
                n <= completed@.len(),
                with_vertices == meshes(completed@.take(n as int)),
                with_vertices <= n,
            decreases completed@.len() - n,
        {
            proof {
                assert(completed@.take(n as int + 1).drop_last() =~= completed@.take(n as int));
            }
            if completed[n].num_vertices > 0 {
                with_vertices += 1;
            }
            n += 1;
        }
        proof {
            assert(completed@.take(completed@.len() as int) =~= completed@);
        }
        if with_vertices > usize::MAX - self.empty_uid {
            return false;
        }
        let mut i: usize = 0;
        while i < completed.len()
            invariant
                i <= completed@.len(),
                forall|j: int|
                    0 <= j < i ==> self@.state_of((#[trigger] completed@[j]).chunk_id)
                        == ChunkState::Pending,
                forall|a: int, b: int|
                    0 <= a < b < i ==> (#[trigger] completed@[a]).chunk_id != (
                    #[trigger] completed@[b]).chunk_id,
            decreases completed@.len() - i,
        {
            if self.peek_chunk_state(&completed[i].chunk_id) != ChunkState::Pending {
                return false;
            }
            let mut k: usize = 0;
            while k < i
                invariant
                    k <= i < completed@.len(),
                    forall|a: int|
                        0 <= a < k ==> (#[trigger] completed@[a]).chunk_id != completed@[i as int].chunk_id,
                decreases i - k,
            {
                if completed[k].chunk_id == completed[i].chunk_id {
                    return false;
                }
                k += 1;
            }
            i += 1;
        }
        proof {
            assert forall|a: int, b: int|
                0 <= a < completed@.len() && 0 <= b < completed@.len() && a != b implies (
            #[trigger] completed@[a]).chunk_id != (#[trigger] completed@[b]).chunk_id by {
                if a < b {
                } else {
                    assert(completed@[b].chunk_id != completed@[a].chunk_id);
                }
            }
        }
        true
    }

    /// The number of jobs in flight.
    pub fn num_pending(&self) -> (n: usize)
        requires
            self.wf(),
        ensures
            n == self@.pending.len(),
            n <= MAX_IN_FLIGHT,
    {
        self.pending_chunks.len()
    }

    /// The uid that the next mesh gets.
    pub fn next_uid(&self) -> (uid: usize)
        ensures
            uid == self@.next_uid,
    {
        self.empty_uid
    }
}

impl ChunkCache for ChunkRenderer {
    open spec fn valid(&self) -> bool {
        self.wf()
    }

    open spec fn state_of(&self, chunk_id: ChunkId) -> ChunkState {
        self@.state_of(chunk_id)
    }

    open spec fn asked_since(&self, before: &Self, ids: Seq<ChunkId>) -> bool {
        self@ == before@.asked(ids)
    }

    proof fn lemma_asked_same_states(&self, before: &Self, ids: Seq<ChunkId>) {
        before@.lemma_asked(ids);
    }

    proof fn lemma_asked_nothing(&self) {
    }

    proof fn lemma_asked_more(
        &self,
        middle: &Self,
        before: &Self,
        first: Seq<ChunkId>,
        second: Seq<ChunkId>,
    ) {
        before@.lemma_asked_in_two(first, second);
    }

    /// The state of a region. Asking for a region whose mesh is in the cache
    /// makes that mesh the most recently used.
    fn get_chunk_state(&mut self, chunk_id: &ChunkId) -> (state: ChunkState)
        ensures
            final(self)@ == old(self)@.touched(*chunk_id),
    {
        let key = chunk_id.key();
        proof {
            self@.lemma_touched(*chunk_id);
            reveal_with_fuel(CacheModel::asked, 2);
            assert(seq![*chunk_id].drop_last() =~= Seq::<ChunkId>::empty());
        }
        if lru_get(&mut self.loaded_chunks, key).is_some() {
            ChunkState::Available
        } else if lru_contains_key(&self.empty_chunks, key) {
            ChunkState::Empty
        } else if self.pending_chunks.contains(&key) {
            ChunkState::Pending
        } else {
            ChunkState::Unknown
        }
    }
}

} // verus!
