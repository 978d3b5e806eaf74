//! The exact index: every stored vector is scored against the query and the
//! nearest are selected by rank.
//!
//! Vectors are appended to numbered slots and never move. Removing an
//! identifier marks its slot dead; the slot keeps its number. A map from each
//! live identifier to its slot answers whether an identifier is stored
//! without a scan.

use std::collections::HashMap;
use vstd::prelude::*;
use vstd::slice::slice_to_vec;
use crate::errors::IndexError;
use crate::index_factory::{found_view, MetricType, VectorIndex};
use crate::ranking::{
    distances, is_nearest, lemma_nearest, lemma_nearest_ascending, lemma_nearest_first,
    lemma_nearest_unique, live_count, nearest, precedes, select_nearest, slot_seq, Neighbor,
};

verus! {

/// One slot of the flat index, as a mathematical value.
pub struct Slot {
    /// The identifier the vector was stored under.
    pub id: i64,
    /// The components of the vector.
    pub vector: Seq<u32>,
    /// Whether the slot still counts; a removed slot stays in place, dead.
    pub live: bool,
}

/// The flat index as a mathematical value: its slots in insertion order.
pub struct FlatView {
    pub dimension: nat,
    pub metric: MetricType,
    pub slots: Seq<Slot>,
}

impl FlatView {
    /// Every vector has the index's dimension and no identifier is live twice.
    pub open spec fn wf(self) -> bool {
        &&& forall|i: int|
            0 <= i < self.slots.len() ==> (#[trigger] self.slots[i]).vector.len() == self.dimension
        &&& forall|i: int, j: int|
            0 <= i < j < self.slots.len() && (#[trigger] self.slots[i]).live
                && (#[trigger] self.slots[j]).live ==> self.slots[i].id != self.slots[j].id
    }

    /// Whether `id` names a live slot.
    pub open spec fn contains(self, id: i64) -> bool {
        exists|i: int|
            0 <= i < self.slots.len() && (#[trigger] self.slots[i]).live && self.slots[i].id == id
    }

    /// Which slots are live.
    pub open spec fn live(self) -> Seq<bool> {
        self.slots.map_values(|s: Slot| s.live)
    }

    /// The index with `data` appended under `id`.
    pub open spec fn insert(self, data: Seq<u32>, id: i64) -> FlatView {
        FlatView { slots: self.slots.push(Slot { id, vector: data, live: true }), ..self }
    }

    /// What storing `data` under `id` returns: the identifier, unless the
    /// vector has the wrong length or the identifier is already live.
    pub open spec fn insert_result(self, data: Seq<u32>, id: i64) -> Result<i64, IndexError> {
        if data.len() != self.dimension {
            Err(IndexError::DimensionMismatch)
        } else if self.contains(id) {
            Err(IndexError::DuplicateId)
        } else {
            Ok(id)
        }
    }

    /// The index after an attempt to store `data` under `id`.
    pub open spec fn after_insert(self, data: Seq<u32>, id: i64) -> FlatView {
        if self.insert_result(data, id) is Ok {
            self.insert(data, id)
        } else {
            self
        }
    }

    /// The index with every slot dead whose identifier is among `ids`.
    pub open spec fn remove(self, ids: Seq<i64>) -> FlatView {
        FlatView {
            slots: self.slots.map_values(
                |s: Slot| Slot { live: s.live && !ids.contains(s.id), ..s },
            ),
            ..self
        }
    }

    /// Whether `scored` holds one candidate for each slot, in slot order.
    pub open spec fn covers(self, scored: Seq<Neighbor>) -> bool {
        &&& scored.len() == self.slots.len()
        &&& forall|i: int| 0 <= i < scored.len() ==> (#[trigger] scored[i]).index == i
    }

    /// The slots a search returns: the `k` nearest live slots, best first.
    pub open spec fn hits(self, scored: Seq<Neighbor>, k: nat) -> Seq<int> {
        nearest(distances(scored), self.live(), k)
    }

    /// The identifiers a search returns.
    pub open spec fn found_ids(self, scored: Seq<Neighbor>, k: nat) -> Seq<i64> {
        self.hits(scored, k).map_values(|s: int| self.slots[s].id)
    }

    /// The distance keys a search returns.
    pub open spec fn found_distances(self, scored: Seq<Neighbor>, k: nat) -> Seq<u32> {
        self.hits(scored, k).map_values(|s: int| scored[s].distance)
    }

    /// What a search returns: the identifiers and distance keys of the `k`
    /// nearest live slots, unless the query has the wrong length or `scored`
    /// does not cover the slots.
    pub open spec fn search_result(self, query: Seq<u32>, k: nat, scored: Seq<Neighbor>) -> Result<
        (Seq<i64>, Seq<u32>),
        IndexError,
    > {
        if query.len() != self.dimension {
            Err(IndexError::DimensionMismatch)
        } else if !self.covers(scored) {
            Err(IndexError::InvalidCandidates)
        } else {
            Ok((self.found_ids(scored, k), self.found_distances(scored, k)))
        }
    }
}

/// A vector stored in a valid insert is found again: when the slot just
/// inserted has distance key 0 and no older live slot has, a search for one or
/// more neighbours returns the inserted identifier first, at distance 0.
pub proof fn lemma_inserted_found_first(
    index: FlatView,
    data: Seq<u32>,
    id: i64,
    scored: Seq<Neighbor>,
    k: nat,
)
    requires
        index.wf(),
        index.insert_result(data, id) is Ok,
        index.after_insert(data, id).covers(scored),
        k >= 1,
        scored.last().distance == 0,
        forall|t: int|
            0 <= t < index.slots.len() && index.slots[t].live ==> (#[trigger] scored[t]).distance
                != 0,
    ensures
        index.after_insert(data, id).found_ids(scored, k).len() >= 1,
        index.after_insert(data, id).found_ids(scored, k)[0] == id,
        index.after_insert(data, id).found_distances(scored, k)[0] == 0,
{
    let after = index.after_insert(data, id);
    let s = index.slots.len() as int;
    let keys = distances(scored);
    assert forall|t: int| 0 <= t < after.live().len() && after.live()[t] && t != s implies {
        keys[s] < keys[t] || (keys[s] == keys[t] && s < t)
    } by {}
    lemma_nearest_first(keys, after.live(), k, s);
}

/// The distance keys a search returns never decrease.
pub proof fn lemma_found_ascending(index: FlatView, scored: Seq<Neighbor>, k: nat, i: int, j: int)
    requires
        index.covers(scored),
        0 <= i <= j < index.found_distances(scored, k).len(),
    ensures
        index.found_distances(scored, k)[i] <= index.found_distances(scored, k)[j],
{
    lemma_nearest_ascending(distances(scored), index.live(), k, i, j);
    lemma_nearest(distances(scored), index.live(), k);
}

/// A search is exact: whatever lists the `k` nearest live slots, best first,
/// lists the slots the search returns.
pub proof fn lemma_search_exact(index: FlatView, scored: Seq<Neighbor>, k: nat, slots: Seq<int>)
    requires
        index.covers(scored),
        is_nearest(distances(scored), index.live(), k, slots),
    ensures
        slots == index.hits(scored, k),
        index.found_ids(scored, k) == slots.map_values(|s: int| index.slots[s].id),
        index.found_distances(scored, k) == slots.map_values(|s: int| scored[s].distance),
{
    lemma_nearest(distances(scored), index.live(), k);
    lemma_nearest_unique(distances(scored), index.live(), k, slots, index.hits(scored, k));
}

/// A search returns `k` entries when that many slots are live, and one entry
/// for each live slot otherwise; the two lists have the same length.
pub proof fn lemma_found_count(index: FlatView, scored: Seq<Neighbor>, k: nat)
    requires
        index.covers(scored),
    ensures
        index.found_ids(scored, k).len() == index.found_distances(scored, k).len(),
        k <= live_count(index.live()) ==> index.found_ids(scored, k).len() == k,
        k >= live_count(index.live()) ==> index.found_ids(scored, k).len() == live_count(
            index.live(),
        ),
{
    lemma_nearest(distances(scored), index.live(), k);
}

/// Every identifier a search returns is live in the index, at the slot the
/// search ranked.
pub proof fn lemma_found_live(index: FlatView, scored: Seq<Neighbor>, k: nat, i: int)
    requires
        index.covers(scored),
        0 <= i < index.found_ids(scored, k).len(),
    ensures
        index.contains(index.found_ids(scored, k)[i]),
{
    lemma_nearest(distances(scored), index.live(), k);
    let s = index.hits(scored, k)[i];
    assert(index.live()[s]);
}

/// A search returns no identifier twice.
pub proof fn lemma_found_distinct(index: FlatView, scored: Seq<Neighbor>, k: nat, i: int, j: int)
    requires
        index.wf(),
        index.covers(scored),
        0 <= i < j < index.found_ids(scored, k).len(),
    ensures
        index.found_ids(scored, k)[i] != index.found_ids(scored, k)[j],
{
    lemma_nearest(distances(scored), index.live(), k);
    let a = index.hits(scored, k)[i];
    let b = index.hits(scored, k)[j];
    assert(precedes(distances(scored), a, b));
    assert(index.live()[a] && index.live()[b]);
    assert(index.slots[a].live && index.slots[b].live);
}

/// After a removal no search returns a removed identifier.
pub proof fn lemma_removed_never_found(
    index: FlatView,
    ids: Seq<i64>,
    scored: Seq<Neighbor>,
    k: nat,
    i: int,
)
    requires
        index.remove(ids).covers(scored),
        0 <= i < index.remove(ids).found_ids(scored, k).len(),
    ensures
        !ids.contains(index.remove(ids).found_ids(scored, k)[i]),
{
    let after = index.remove(ids);
    lemma_nearest(distances(scored), after.live(), k);
    let s = after.hits(scored, k)[i];
    assert(after.live()[s]);
}

/// Removing identifiers that name no live slot changes nothing.
pub proof fn lemma_remove_absent(index: FlatView, ids: Seq<i64>)
    requires
        forall|i: int| 0 <= i < ids.len() ==> !index.contains(#[trigger] ids[i]),
    ensures
        index.remove(ids) == index,
{
    let after = index.remove(ids);
    assert forall|s: int| 0 <= s < index.slots.len() implies after.slots[s] == index.slots[s] by {
        if index.slots[s].live && ids.contains(index.slots[s].id) {
            let i = choose|i: int| 0 <= i < ids.len() && ids[i] == index.slots[s].id;
            assert(!index.contains(ids[i]));
        }
    }
    assert(after.slots =~= index.slots);
}

/// Inserting and removing keep the index well formed.
pub proof fn lemma_wf_preserved(index: FlatView, data: Seq<u32>, id: i64, ids: Seq<i64>)
    requires
        index.wf(),
    ensures
        index.after_insert(data, id).wf(),
        index.remove(ids).wf(),
{
    let after = index.after_insert(data, id);
    if index.insert_result(data, id) is Ok {
        assert forall|i: int, j: int|
            0 <= i < j < after.slots.len() && (#[trigger] after.slots[i]).live
                && (#[trigger] after.slots[j]).live implies after.slots[i].id
            != after.slots[j].id by {}
    }
}

struct Entry {
    id: i64,
    vector: Vec<u32>,
    removed: bool,
}

impl Entry {
    spec fn slot(self) -> Slot {
        Slot { id: self.id, vector: self.vector@, live: !self.removed }
    }
}

spec fn slots_of(entries: Seq<Entry>) -> Seq<Slot> {
    entries.map_values(|e: Entry| e.slot())
}

/// Whether `entry` is what `slot` has become once the identifiers in `ids`
/// were removed.
spec fn marked(entry: Entry, slot: Slot, ids: Seq<i64>) -> bool {
    entry.slot() == (Slot { live: slot.live && !ids.contains(slot.id), ..slot })
}

/// Whether `by_id` maps exactly the identifiers of the live entries, each to
/// its slot.
spec fn maps_live(entries: Seq<Entry>, by_id: Map<i64, usize>) -> bool {
    &&& forall|id: i64| #[trigger]
        by_id.contains_key(id) ==> by_id[id] < entries.len() && !entries[by_id[id] as int].removed
            && entries[by_id[id] as int].id == id
    &&& forall|s: int|
        0 <= s < entries.len() && !(#[trigger] entries[s]).removed ==> by_id.contains_key(
            entries[s].id,
        ) && by_id[entries[s].id] == s
}

/// The exact index.
pub struct FaissIndex {
    dim: u32,
    metric: MetricType,
    entries: Vec<Entry>,
    by_id: HashMap<i64, usize>,
}

impl View for FaissIndex {
    type V = FlatView;

    closed spec fn view(&self) -> FlatView {
        FlatView {
            dimension: self.dim as nat,
            metric: self.metric,
            slots: slots_of(self.entries@),
        }
    }
}

impl FaissIndex {
    #[verifier::type_invariant]
    spec fn inv(self) -> bool {
        &&& self@.wf()
        &&& maps_live(self.entries@, self.by_id@)
    }

    /// An empty index over vectors of `d` components.
    pub fn new(d: u32, metric: MetricType) -> (r: Result<Self, IndexError>)
        ensures
            r is Ok,
            r->Ok_0@ == (FlatView { dimension: d as nat, metric, slots: Seq::empty() }),
    {
        let index = FaissIndex { dim: d, metric, entries: Vec::new(), by_id: HashMap::new() };
        proof {
            assert(index@.slots =~= Seq::empty());
        }
        Ok(index)
    }

    /// The number of components of every vector of the index.
    pub fn dimension(&self) -> (d: u32)
        ensures
            d == self@.dimension,
    {
        self.dim
    }

    /// The distance formula the index was created with.
    pub fn metric(&self) -> (m: MetricType)
        ensures
            m == self@.metric,
    {
        self.metric
    }

    /// The number of slots, dead ones included.
    pub fn slot_count(&self) -> (n: usize)
        ensures
            n == self@.slots.len(),
    {
        self.entries.len()
    }

    /// The vector in `slot`; `None` past the last slot.
    pub fn vector(&self, slot: usize) -> (v: Option<&Vec<u32>>)
        ensures
            slot >= self@.slots.len() ==> v is None,
            slot < self@.slots.len() ==> v is Some && v->Some_0@ == self@.slots[slot as int].vector,
    {
        if slot < self.entries.len() {
            Some(&self.entries[slot].vector)
        } else {
            None
        }
    }

    /// Whether `slot` exists and is live.
    pub fn is_live(&self, slot: usize) -> (b: bool)
        ensures
            b == (slot < self@.slots.len() && self@.slots[slot as int].live),
    {
        slot < self.entries.len() && !self.entries[slot].removed
    }

    /// Whether `id` names a live slot.
    pub fn contains(&self, id: i64) -> (b: bool)
        ensures
            b == self@.contains(id),
    {
        proof {
            use_type_invariant(self);
        }
        let found = self.by_id.contains_key(&id);
        proof {
            if found {
                let s = self.by_id@[id] as int;
                assert(self@.slots[s].live && self@.slots[s].id == id);
            }
        }
        found
    }

    /// Takes the entries and their map out of the index, leaving it empty.
    fn take(&mut self) -> (parts: (Vec<Entry>, HashMap<i64, usize>))
        ensures
            parts.0 == old(self).entries,
            parts.1 == old(self).by_id,
            final(self).dim == old(self).dim,
            final(self).metric == old(self).metric,
            final(self).entries@.len() == 0,
    {
        let mut taken =
            FaissIndex { dim: self.dim, metric: self.metric, entries: Vec::new(), by_id: HashMap::new() };
        core::mem::swap(self, &mut taken);
        (taken.entries, taken.by_id)
    }
}

impl VectorIndex for FaissIndex {
    open spec fn dimension(&self) -> nat {
        self@.dimension
    }

    /// Stores `data` under `id` in a new slot and returns `id`. A vector of
    /// the wrong length and an identifier that is already live are rejected
    /// and leave the index as it was.
    fn insert(&mut self, data: &[u32], id: i64) -> (r: Result<i64, IndexError>)
        ensures
            old(self)@.wf(),
            final(self)@.wf(),
            r == old(self)@.insert_result(data@, id),
            final(self)@ == old(self)@.after_insert(data@, id),
    {
        proof {
            use_type_invariant(&*self);
        }
        if data.len() != self.dim as usize {
            return Err(IndexError::DimensionMismatch);
        }
        if self.contains(id) {
            return Err(IndexError::DuplicateId);
        }
        let entry = Entry { id, vector: slice_to_vec(data), removed: false };
        let (mut entries, mut by_id) = self.take();
        let slot = entries.len();
        entries.push(entry);
        by_id.insert(id, slot);
        proof {
            let before = old(self)@;
            let after = before.insert(data@, id);
            assert(slots_of(entries@) =~= after.slots);
            assert forall|i: int, j: int|
                0 <= i < j < after.slots.len() && (#[trigger] after.slots[i]).live
                    && (#[trigger] after.slots[j]).live implies after.slots[i].id
                != after.slots[j].id by {}
            assert(maps_live(entries@, by_id@)) by {
                assert forall|s: int|
                    0 <= s < entries.len() && !(#[trigger] entries[s]).removed implies by_id@.contains_key(
                    entries[s].id,
                ) && by_id@[entries[s].id] == s by {
                    if s < slot {
                        assert(old(self).entries@[s] == entries@[s]);
                        assert(before.slots[s].live && before.slots[s].id != id);
                    }
                }
            }
        }
        *self = FaissIndex { dim: self.dim, metric: self.metric, entries, by_id };
        Ok(id)
    }

    /// Marks dead every live slot whose identifier is among `ids`. An
    /// identifier that names no live slot is passed over.
    fn remove(&mut self, ids: &[i64]) -> (r: Result<(), IndexError>)
        ensures
            old(self)@.wf(),
            final(self)@.wf(),
            r == Ok::<(), IndexError>(()),
            final(self)@ == old(self)@.remove(ids@),
    {
        proof {
            use_type_invariant(&*self);
        }
        let (mut entries, mut by_id) = self.take();
        let ghost before = old(self)@;
        proof {
            assert(ids@.take(0) =~= Seq::<i64>::empty());
            assert forall|s: int| 0 <= s < entries.len() implies marked(
                #[trigger] entries@[s],
                before.slots[s],
                ids@.take(0),
            ) by {
                assert(before.slots[s] == entries@[s].slot());
            }
        }
        let mut i: usize = 0;
        while i < ids.len()
            invariant
                i <= ids.len(),
                entries.len() == before.slots.len(),
                maps_live(entries@, by_id@),
                forall|s: int|
                    0 <= s < entries.len() ==> marked(
                        #[trigger] entries@[s],
                        before.slots[s],
                        ids@.take(i as int),
                    ),
            decreases ids.len() - i,
        {
            let ghost done = ids@.take(i as int);
            let ghost next = ids@.take(i + 1);
            let ghost earlier = entries@;
            let id = ids[i];
            proof {
                assert(next =~= done.push(id));
                assert forall|x: i64| next.contains(x) == (done.contains(x) || x == id) by {
                    if done.contains(x) {
                        let j = choose|j: int| 0 <= j < done.len() && done[j] == x;
                        assert(next[j] == x);
                    }
                    if x == id {
                        assert(next[i as int] == x);
                    }
                }
            }
            match by_id.remove(&id) {
                Some(slot) => {
                    entries[slot].removed = true;
                },
                None => {},
            }
            proof {
                assert forall|s: int| 0 <= s < entries.len() implies marked(
                    #[trigger] entries@[s],
                    before.slots[s],
                    next,
                ) by {
                    assert(marked(earlier[s], before.slots[s], done));
                }
            }
            i += 1;
        }
        proof {
            assert(ids@.take(ids.len() as int) =~= ids@);
            assert(slots_of(entries@) =~= before.remove(ids@).slots);
            lemma_wf_preserved(before, Seq::empty(), 0, ids@);
        }
        *self = FaissIndex { dim: self.dim, metric: self.metric, entries, by_id };
        Ok(())
    }

    /// Ranks the live slots by the distance keys in `scored` and returns the
    /// identifiers and keys of the `k` nearest, best first; all of them when
    /// fewer than `k` are live. `scored` holds one candidate for each slot, in
    /// slot order; the key of a dead slot is not looked at.
    fn search(&self, query: &[u32], k: usize, scored: &Vec<Neighbor>) -> (r: Result<
        (Vec<i64>, Vec<u32>),
        IndexError,
    >)
        ensures
            self@.wf(),
            found_view(r) == self@.search_result(query@, k as nat, scored@),
    {
        proof {
            use_type_invariant(self);
        }
        if query.len() != self.dim as usize {
            return Err(IndexError::DimensionMismatch);
        }
        let n = self.entries.len();
        if scored.len() != n {
            return Err(IndexError::InvalidCandidates);
        }
        let mut keys: Vec<u32> = Vec::new();
        let mut live: Vec<bool> = Vec::new();
        let mut i: usize = 0;
        while i < n
            invariant
                i <= n,
                self@.wf(),
                query@.len() == self@.dimension,
                n == self.entries.len(),
                n == scored.len(),
                keys.len() == i,
                live.len() == i,
                forall|j: int| 0 <= j < i ==> (#[trigger] scored@[j]).index == j,
                forall|j: int| 0 <= j < i ==> #[trigger] keys@[j] == scored@[j].distance,
                forall|j: int| 0 <= j < i ==> #[trigger] live@[j] == self@.slots[j].live,
            decreases n - i,
        {
            if scored[i].index != i {
                return Err(IndexError::InvalidCandidates);
            }
            keys.push(scored[i].distance);
            live.push(!self.entries[i].removed);
            i += 1;
        }
        proof {
            assert(keys@ =~= distances(scored@));
            assert(live@ =~= self@.live());
        }
        let hits = match select_nearest(&keys, &live, k) {
            Some(hits) => hits,
            None => { return Err(IndexError::InvalidCandidates); },
        };
        let ghost slots = self@.hits(scored@, k as nat);
        proof {
            crate::ranking::lemma_nearest(distances(scored@), self@.live(), k as nat);
        }
        let mut ids: Vec<i64> = Vec::new();
        let mut dists: Vec<u32> = Vec::new();
        let mut h: usize = 0;
        while h < hits.len()
            invariant
                h <= hits.len(),
                n == self.entries.len(),
                n == scored.len(),
                slot_seq(hits@) == slots,
                forall|j: int| 0 <= j < slots.len() ==> 0 <= #[trigger] slots[j] < n,
                ids.len() == h,
                dists.len() == h,
                forall|j: int| 0 <= j < h ==> #[trigger] ids@[j] == self@.slots[slots[j]].id,
                forall|j: int| 0 <= j < h ==> #[trigger] dists@[j] == scored@[slots[j]].distance,
            decreases hits.len() - h,
        {
            let s = hits[h];
            proof {
                assert(slots[h as int] == s);
            }
            ids.push(self.entries[s].id);
            dists.push(scored[s].distance);
            h += 1;
        }
        proof {
            assert(ids@ =~= self@.found_ids(scored@, k as nat));
            assert(dists@ =~= self@.found_distances(scored@, k as nat));
        }
        Ok((ids, dists))
    }
}

} // verus!
