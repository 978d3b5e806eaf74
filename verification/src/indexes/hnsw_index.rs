//! The approximate index: the bookkeeping around a layered proximity graph.
//!
//! The graph numbers its nodes in insertion order and answers a query with
//! the neighbours its traversal found. This module keeps the dimension, the
//! metric and the node count of the graph, assigns the identifiers, and turns
//! the neighbours found into a result of fixed length.

use vstd::prelude::*;
use crate::errors::IndexError;
use crate::index_factory::{found_view, MetricType, VectorIndex};
use crate::ranking::{
    distances, lemma_live_count_all, lemma_nearest, lemma_nearest_ascending, nearest,
    select_nearest, slot_seq, Neighbor,
};

verus! {

/// The identifier that fills a result where no neighbour was found.
pub const NOT_FOUND_ID: i64 = -1;

/// The distance key that fills a result where no neighbour was found: the
/// largest finite distance.
pub const NOT_FOUND_DISTANCE: u32 = 0x7F7F_FFFF;

/// The most neighbours a node of the graph keeps on each layer above the
/// bottom one.
pub const MAX_NEIGHBORS: usize = 12;

/// The most neighbours a node of the graph keeps on the bottom layer.
pub const MAX_NEIGHBORS_BOTTOM: usize = 24;

/// The largest number of nodes a graph index can number.
pub const MAX_NODES: u64 = 0x7FFF_FFFF_FFFF_FFFF;

/// The distance formula of a graph index.
#[derive(PartialEq, Eq, Structural, Clone, Copy, Debug)]
pub enum Distance {
    Euclidean,
    InnerProduct,
}

impl Distance {
    /// The graph metric that stands for a registry metric.
    pub open spec fn of(metric: MetricType) -> Distance {
        match metric {
            MetricType::L2 => Distance::Euclidean,
            MetricType::IP => Distance::InnerProduct,
        }
    }

    /// The graph metric that stands for a registry metric.
    pub fn from_metric(metric: MetricType) -> (d: Distance)
        ensures
            d == Distance::of(metric),
    {
        match metric {
            MetricType::L2 => Distance::Euclidean,
            MetricType::IP => Distance::InnerProduct,
        }
    }
}

/// The candidate pool size a traversal runs with for a requested breadth:
/// the breadth itself, and for a negative one the width its two's complement
/// encodes, which no graph reaches.
pub fn search_breadth(ef_search: i32) -> (ef: usize)
    ensures
        ef == ef_search as usize,
        ef_search >= 0 ==> ef == ef_search,
{
    #[verifier::truncate]
    (ef_search as usize)
}

/// A sequence of `n` live slots.
pub open spec fn all_live(n: nat) -> Seq<bool> {
    Seq::new(n, |i: int| true)
}

/// The graph index as a mathematical value.
pub struct GraphView {
    pub dimension: nat,
    pub metric: Distance,
    /// The number of nodes inserted; they are numbered from 0.
    pub count: nat,
}

impl GraphView {
    /// The nodes can be numbered by 64-bit signed identifiers.
    pub open spec fn wf(self) -> bool {
        self.count <= MAX_NODES
    }

    /// What inserting a vector returns: the number of the new node, unless the
    /// vector has the wrong length or the numbers have run out. The
    /// identifier the caller proposes is not looked at.
    pub open spec fn insert_result(self, data: Seq<u32>, id: i64) -> Result<i64, IndexError> {
        if data.len() != self.dimension {
            Err(IndexError::DimensionMismatch)
        } else if self.count >= MAX_NODES {
            Err(IndexError::CapacityExceeded)
        } else {
            Ok(self.count as i64)
        }
    }

    /// The index after an attempt to insert a vector.
    pub open spec fn after_insert(self, data: Seq<u32>, id: i64) -> GraphView {
        if self.insert_result(data, id) is Ok {
            GraphView { count: self.count + 1, ..self }
        } else {
            self
        }
    }

    /// Whether every candidate names an inserted node.
    pub open spec fn names(self, scored: Seq<Neighbor>) -> bool {
        forall|i: int| 0 <= i < scored.len() ==> (#[trigger] scored[i]).index < self.count
    }

    /// The ranks of `scored` a search returns: the `k` nearest, best first.
    pub open spec fn hits(self, scored: Seq<Neighbor>, k: nat) -> Seq<int> {
        nearest(distances(scored), all_live(scored.len()), k)
    }

    /// The identifiers a search returns: those of the `k` nearest candidates,
    /// then `NOT_FOUND_ID` up to length `k`; nothing when there is no
    /// candidate.
    pub open spec fn found_ids(self, scored: Seq<Neighbor>, k: nat) -> Seq<i64> {
        if scored.len() == 0 {
            Seq::empty()
        } else {
            Seq::new(
                k,
                |i: int|
                    if i < self.hits(scored, k).len() {
                        scored[self.hits(scored, k)[i]].index as i64
                    } else {
                        NOT_FOUND_ID
                    },
            )
        }
    }

    /// The distance keys a search returns: those of the `k` nearest
    /// candidates, then `NOT_FOUND_DISTANCE` up to length `k`; nothing when
    /// there is no candidate.
    pub open spec fn found_distances(self, scored: Seq<Neighbor>, k: nat) -> Seq<u32> {
        if scored.len() == 0 {
            Seq::empty()
        } else {
            Seq::new(
                k,
                |i: int|
                    if i < self.hits(scored, k).len() {
                        scored[self.hits(scored, k)[i]].distance
                    } else {
                        NOT_FOUND_DISTANCE
                    },
            )
        }
    }

    /// What a search returns, unless the query has the wrong length or a
    /// candidate names no node.
    pub open spec fn search_result(self, query: Seq<u32>, k: nat, scored: Seq<Neighbor>) -> Result<
        (Seq<i64>, Seq<u32>),
        IndexError,
    > {
        if query.len() != self.dimension {
            Err(IndexError::DimensionMismatch)
        } else if !self.names(scored) {
            Err(IndexError::InvalidCandidates)
        } else {
            Ok((self.found_ids(scored, k), self.found_distances(scored, k)))
        }
    }
}

/// A search that found a neighbour returns exactly `k` entries: the nearest
/// of the neighbours found, as many as `k` allows, each one an inserted node,
/// and the not-found fill after them.
pub proof fn lemma_found_padded(index: GraphView, scored: Seq<Neighbor>, k: nat, i: int)
    requires
        index.wf(),
        index.names(scored),
        scored.len() > 0,
        0 <= i < k,
    ensures
        index.found_ids(scored, k).len() == k,
        index.found_distances(scored, k).len() == k,
        index.hits(scored, k).len() == if k <= scored.len() { k } else { scored.len() },
        i < index.hits(scored, k).len() ==> 0 <= index.found_ids(scored, k)[i] < index.count,
        i >= index.hits(scored, k).len() ==> index.found_ids(scored, k)[i] == NOT_FOUND_ID
            && index.found_distances(scored, k)[i] == NOT_FOUND_DISTANCE,
{
    lemma_nearest(distances(scored), all_live(scored.len()), k);
    lemma_live_count_all(all_live(scored.len()));
    if i < index.hits(scored, k).len() {
        let s = index.hits(scored, k)[i];
        assert(scored[s].index < index.count);
    }
}

/// The distance keys of the neighbours a search returns never decrease.
pub proof fn lemma_found_ascending(index: GraphView, scored: Seq<Neighbor>, k: nat, i: int, j: int)
    requires
        0 <= i <= j < index.hits(scored, k).len(),
        j < k,
    ensures
        index.found_distances(scored, k)[i] <= index.found_distances(scored, k)[j],
{
    lemma_nearest(distances(scored), all_live(scored.len()), k);
    lemma_nearest_ascending(distances(scored), all_live(scored.len()), k, i, j);
}

/// The approximate index.
pub struct HNSWIndex {
    dim: u32,
    metric: Distance,
    count: u64,
}

impl View for HNSWIndex {
    type V = GraphView;

    closed spec fn view(&self) -> GraphView {
        GraphView { dimension: self.dim as nat, metric: self.metric, count: self.count as nat }
    }
}

impl HNSWIndex {
    #[verifier::type_invariant]
    spec fn inv(self) -> bool {
        self@.wf()
    }

    /// An empty index over vectors of `d` components.
    pub fn new(d: u32, metric: Distance) -> (r: Result<Self, IndexError>)
        ensures
            r is Ok,
            r->Ok_0@ == (GraphView { dimension: d as nat, metric, count: 0 }),
    {
        Ok(HNSWIndex { dim: d, metric, count: 0 })
    }

    /// The number of components of every vector of the index.
    pub fn dimension(&self) -> (d: u32)
        ensures
            d == self@.dimension,
    {
        self.dim
    }

    /// The distance formula the index was created with.
    pub fn metric(&self) -> (m: Distance)
        ensures
            m == self@.metric,
    {
        self.metric
    }

    /// The number of nodes inserted.
    pub fn len(&self) -> (n: u64)
        ensures
            n == self@.count,
    {
        self.count
    }
}

impl VectorIndex for HNSWIndex {
    open spec fn dimension(&self) -> nat {
        self@.dimension
    }

    /// Numbers a new node and returns the number. The proposed identifier is
    /// not honoured: nodes are numbered in insertion order.
    fn insert(&mut self, data: &[u32], id: i64) -> (r: Result<i64, IndexError>)
        ensures
            old(self)@.wf(),
            final(self)@.wf(),
            r == old(self)@.insert_result(data@, id),
            final(self)@ == old(self)@.after_insert(data@, id),
    {
        proof {
            use_type_invariant(&*self);
        }
        if data.len() != self.dim as usize {
            return Err(IndexError::DimensionMismatch);
        }
        if self.count >= MAX_NODES {
            return Err(IndexError::CapacityExceeded);
        }
        let assigned = self.count as i64;
        self.count = self.count + 1;
        Ok(assigned)
    }

    /// Always refused: a node cannot leave the graph. The index stays as it
    /// was.
    fn remove(&mut self, ids: &[i64]) -> (r: Result<(), IndexError>)
        ensures
            r == Err::<(), IndexError>(IndexError::UnsupportedOperation),
            final(self)@ == old(self)@,
    {
        Err(IndexError::UnsupportedOperation)
    }

    /// Turns the neighbours a traversal found into a result of length `k`:
    /// the identifiers and distance keys of the `k` nearest of them, best
    /// first, then `NOT_FOUND_ID` and `NOT_FOUND_DISTANCE` for the shortfall.
    /// With no neighbour found the result is empty.
    fn search(&self, query: &[u32], k: usize, scored: &Vec<Neighbor>) -> (r: Result<
        (Vec<i64>, Vec<u32>),
        IndexError,
    >)
        ensures
            self@.wf(),
            found_view(r) == self@.search_result(query@, k as nat, scored@),
    {
        proof {
            use_type_invariant(self);
        }
        if query.len() != self.dim as usize {
            return Err(IndexError::DimensionMismatch);
        }
        let n = scored.len();
        let mut keys: Vec<u32> = Vec::new();
        let mut live: Vec<bool> = Vec::new();
        let mut i: usize = 0;
        while i < n
            invariant
                i <= n,
                self@.wf(),
                query@.len() == self@.dimension,
                n == scored.len(),
                keys.len() == i,
                live.len() == i,
                forall|j: int| 0 <= j < i ==> (#[trigger] scored@[j]).index < self@.count,
                forall|j: int| 0 <= j < i ==> #[trigger] keys@[j] == scored@[j].distance,
                forall|j: int| 0 <= j < i ==> #[trigger] live@[j],
            decreases n - i,
        {
            if scored[i].index as u64 >= self.count {
                return Err(IndexError::InvalidCandidates);
            }
            keys.push(scored[i].distance);
            live.push(true);
            i += 1;
        }
        proof {
            assert(keys@ =~= distances(scored@));
            assert(live@ =~= all_live(n as nat));
        }
        let hits = match select_nearest(&keys, &live, k) {
            Some(hits) => hits,
            None => { return Err(IndexError::InvalidCandidates); },
        };
        if n == 0 {
            return Ok((Vec::new(), Vec::new()));
        }
        let ghost slots = self@.hits(scored@, k as nat);
        proof {
            lemma_nearest(distances(scored@), all_live(n as nat), k as nat);
        }
        let mut ids: Vec<i64> = vec![NOT_FOUND_ID; k];
        let mut dists: Vec<u32> = vec![NOT_FOUND_DISTANCE; k];
        let mut h: usize = 0;
        while h < hits.len()
            invariant
                h <= hits.len(),
                hits.len() <= k,
                self@.wf(),
                n == scored.len(),
                self@.names(scored@),
                slot_seq(hits@) == slots,
                forall|j: int| 0 <= j < slots.len() ==> 0 <= #[trigger] slots[j] < n,
                ids.len() == k,
                dists.len() == k,
                forall|j: int| 0 <= j < h ==> #[trigger] ids@[j] == scored@[slots[j]].index as i64,
                forall|j: int| 0 <= j < h ==> #[trigger] dists@[j] == scored@[slots[j]].distance,
                forall|j: int| h <= j < k ==> #[trigger] ids@[j] == NOT_FOUND_ID,
                forall|j: int| h <= j < k ==> #[trigger] dists@[j] == NOT_FOUND_DISTANCE,
            decreases hits.len() - h,
        {
            let s = hits[h];
            proof {
                assert(slots[h as int] == s);
            }
            ids[h] = scored[s].index as i64;
            dists[h] = scored[s].distance;
            h += 1;
        }
        proof {
            assert(ids@ =~= self@.found_ids(scored@, k as nat));
            assert(dists@ =~= self@.found_distances(scored@, k as nat));
        }
        Ok((ids, dists))
    }
}

} // verus!
