//! The registry of index instances, one per index type.

use vstd::prelude::*;
use crate::errors::IndexError;
use crate::indexes::faiss_index::{FaissIndex, FlatView};
use crate::indexes::hnsw_index::{Distance, GraphView, HNSWIndex};
use crate::ranking::Neighbor;

verus! {

/// Which index a request is routed to.
#[derive(PartialEq, Eq, Structural, Hash, Clone, Copy, Debug)]
pub enum IndexType {
    /// The exact index: exhaustive scan.
    FLAT,
    /// The approximate index: layered proximity graph.
    HNSW,
    /// Reserved; names no index algorithm yet.
    FILTER,
    /// The tag of a request that named no known type.
    UNKNOWN,
}

/// The distance formula of an index, fixed when the index is created.
#[derive(PartialEq, Eq, Structural, Clone, Copy, Debug)]
pub enum MetricType {
    /// Euclidean distance.
    L2,
    /// Inner product.
    IP,
}

/// What a search returned, as mathematical values.
pub open spec fn found_view(r: Result<(Vec<i64>, Vec<u32>), IndexError>) -> Result<
    (Seq<i64>, Seq<u32>),
    IndexError,
> {
    match r {
        Ok(found) => Ok((found.0@, found.1@)),
        Err(e) => Err(e),
    }
}

/// The operations every index offers.
pub trait VectorIndex {
    /// The number of components of every vector of the index.
    spec fn dimension(&self) -> nat;

    /// Stores a vector and returns the identifier it is stored under.
    fn insert(&mut self, data: &[u32], id: i64) -> (r: Result<i64, IndexError>)
        ensures
            final(self).dimension() == old(self).dimension(),
            data@.len() != old(self).dimension() ==> r == Err::<i64, IndexError>(
                IndexError::DimensionMismatch,
            ),
    ;

    /// Removes the vectors stored under `ids`.
    fn remove(&mut self, ids: &[i64]) -> (r: Result<(), IndexError>)
        ensures
            final(self).dimension() == old(self).dimension(),
    ;

    /// Ranks the scored candidates and returns the identifiers and distance
    /// keys of the nearest, best first.
    fn search(&self, query: &[u32], k: usize, scored: &Vec<Neighbor>) -> (r: Result<
        (Vec<i64>, Vec<u32>),
        IndexError,
    >)
        ensures
            query@.len() != self.dimension() ==> r == Err::<(Vec<i64>, Vec<u32>), IndexError>(
                IndexError::DimensionMismatch,
            ),
    ;
}

/// An index of either kind.
pub enum IndexInstance {
    Flat(FaissIndex),
    Graph(HNSWIndex),
}

/// An index of either kind, as a mathematical value.
pub enum IndexView {
    Flat(FlatView),
    Graph(GraphView),
}

impl IndexView {
    /// The invariant of the index's kind.
    pub open spec fn wf(self) -> bool {
        match self {
            IndexView::Flat(v) => v.wf(),
            IndexView::Graph(v) => v.wf(),
        }
    }

    /// The number of components of every vector of the index.
    pub open spec fn dimension(self) -> nat {
        match self {
            IndexView::Flat(v) => v.dimension,
            IndexView::Graph(v) => v.dimension,
        }
    }

    /// The empty index that initializing `type_` constructs; `None` for a
    /// type that names no index algorithm.
    pub open spec fn fresh(type_: IndexType, dim: nat, metric: MetricType) -> Option<IndexView> {
        match type_ {
            IndexType::FLAT => Some(
                IndexView::Flat(FlatView { dimension: dim, metric, slots: Seq::empty() }),
            ),
            IndexType::HNSW => Some(
                IndexView::Graph(
                    GraphView { dimension: dim, metric: Distance::of(metric), count: 0 },
                ),
            ),
            IndexType::FILTER => None,
            IndexType::UNKNOWN => None,
        }
    }

    /// What inserting a vector returns.
    pub open spec fn insert_result(self, data: Seq<u32>, id: i64) -> Result<i64, IndexError> {
        match self {
            IndexView::Flat(v) => v.insert_result(data, id),
            IndexView::Graph(v) => v.insert_result(data, id),
        }
    }

    /// The index after an attempt to insert a vector.
    pub open spec fn after_insert(self, data: Seq<u32>, id: i64) -> IndexView {
        match self {
            IndexView::Flat(v) => IndexView::Flat(v.after_insert(data, id)),
            IndexView::Graph(v) => IndexView::Graph(v.after_insert(data, id)),
        }
    }

    /// What removing identifiers returns: the flat index accepts, the graph
    /// index refuses.
    pub open spec fn remove_result(self, ids: Seq<i64>) -> Result<(), IndexError> {
        match self {
            IndexView::Flat(v) => Ok(()),
            IndexView::Graph(v) => Err(IndexError::UnsupportedOperation),
        }
    }

    /// The index after an attempt to remove identifiers.
    pub open spec fn after_remove(self, ids: Seq<i64>) -> IndexView {
        match self {
            IndexView::Flat(v) => IndexView::Flat(v.remove(ids)),
            IndexView::Graph(v) => self,
        }
    }

    /// What a search returns.
    pub open spec fn search_result(self, query: Seq<u32>, k: nat, scored: Seq<Neighbor>) -> Result<
        (Seq<i64>, Seq<u32>),
        IndexError,
    > {
        match self {
            IndexView::Flat(v) => v.search_result(query, k, scored),
            IndexView::Graph(v) => v.search_result(query, k, scored),
        }
    }
}

impl View for IndexInstance {
    type V = IndexView;

    open spec fn view(&self) -> IndexView {
        match self {
            IndexInstance::Flat(index) => IndexView::Flat(index@),
            IndexInstance::Graph(index) => IndexView::Graph(index@),
        }
    }
}

impl VectorIndex for IndexInstance {
    open spec fn dimension(&self) -> nat {
        self@.dimension()
    }

    /// Inserts into the index, whichever kind it is.
    fn insert(&mut self, data: &[u32], id: i64) -> (r: Result<i64, IndexError>)
        ensures
            old(self)@.wf(),
            final(self)@.wf(),
            r == old(self)@.insert_result(data@, id),
            final(self)@ == old(self)@.after_insert(data@, id),
    {
        match self {
            IndexInstance::Flat(index) => index.insert(data, id),
            IndexInstance::Graph(index) => index.insert(data, id),
        }
    }

    /// Removes from a flat index; a graph index refuses.
    fn remove(&mut self, ids: &[i64]) -> (r: Result<(), IndexError>)
        ensures
            r == old(self)@.remove_result(ids@),
            final(self)@ == old(self)@.after_remove(ids@),
    {
        match self {
            IndexInstance::Flat(index) => index.remove(ids),
            IndexInstance::Graph(index) => index.remove(ids),
        }
    }

    /// Searches the index, whichever kind it is.
    fn search(&self, query: &[u32], k: usize, scored: &Vec<Neighbor>) -> (r: Result<
        (Vec<i64>, Vec<u32>),
        IndexError,
    >)
        ensures
            self@.wf(),
            found_view(r) == self@.search_result(query@, k as nat, scored@),
    {
        match self {
            IndexInstance::Flat(index) => index.search(query, k, scored),
            IndexInstance::Graph(index) => index.search(query, k, scored),
        }
    }
}

/// The registry: at most one index instance for each index type.
pub struct GlobalIndexFactory {
    flat: Option<IndexInstance>,
    graph: Option<IndexInstance>,
}

impl View for GlobalIndexFactory {
    type V = Map<IndexType, IndexView>;

    closed spec fn view(&self) -> Map<IndexType, IndexView> {
        let none = Map::<IndexType, IndexView>::empty();
        let flat = match self.flat {
            Some(index) => none.insert(IndexType::FLAT, index@),
            None => none,
        };
        match self.graph {
            Some(index) => flat.insert(IndexType::HNSW, index@),
            None => flat,
        }
    }
}

impl GlobalIndexFactory {
    /// A registry with no index.
    pub fn new() -> (factory: Self)
        ensures
            factory@ == Map::<IndexType, IndexView>::empty(),
    {
        GlobalIndexFactory { flat: None, graph: None }
    }

    /// Constructs an empty index of `type_` over vectors of `dim` components
    /// and registers it in place of any earlier index of that type, whose
    /// contents are dropped. A type that names no index algorithm is refused
    /// and leaves the registry as it was.
    pub fn init_index(&mut self, type_: IndexType, dim: u32, _num_data: u32, metric: MetricType) -> (r:
        Result<(), IndexError>)
        ensures
            match IndexView::fresh(type_, dim as nat, metric) {
                Some(index) => r == Ok::<(), IndexError>(()) && final(self)@ == old(self)@.insert(
                    type_,
                    index,
                ),
                None => r == Err::<(), IndexError>(IndexError::UnknownIndexType) && final(self)@
                    == old(self)@,
            },
    {
        match type_ {
            IndexType::FLAT => {
                let index = FaissIndex::new(dim, metric)?;
                self.flat = Some(IndexInstance::Flat(index));
                proof {
                    assert(self@ =~= old(self)@.insert(
                        type_,
                        IndexView::fresh(type_, dim as nat, metric)->Some_0,
                    ));
                }
                Ok(())
            },
            IndexType::HNSW => {
                let index = HNSWIndex::new(dim, Distance::from_metric(metric))?;
                self.graph = Some(IndexInstance::Graph(index));
                proof {
                    assert(self@ =~= old(self)@.insert(
                        type_,
                        IndexView::fresh(type_, dim as nat, metric)->Some_0,
                    ));
                }
                Ok(())
            },
            IndexType::FILTER => Err(IndexError::UnknownIndexType),
            IndexType::UNKNOWN => Err(IndexError::UnknownIndexType),
        }
    }

    /// The index registered for `type_`; `None` when none was initialized.
    pub fn get_index(&self, type_: IndexType) -> (r: Option<&IndexInstance>)
        ensures
            r is Some == self@.contains_key(type_),
            r is Some ==> r->Some_0@ == self@[type_],
    {
        match type_ {
            IndexType::FLAT => self.flat.as_ref(),
            IndexType::HNSW => self.graph.as_ref(),
            IndexType::FILTER => None,
            IndexType::UNKNOWN => None,
        }
    }

    /// The index registered for `type_`, to operate on; `None` when none was
    /// initialized. What is done to the index is done to the registry's entry.
    pub fn get_index_mut(&mut self, type_: IndexType) -> (r: Option<&mut IndexInstance>)
        ensures
            r is Some == old(self)@.contains_key(type_),
            r is Some ==> r->Some_0@ == old(self)@[type_] && final(self)@ == old(self)@.insert(
                type_,
                final(r->Some_0)@,
            ),
            r is None ==> final(self)@ == old(self)@,
    {
        match type_ {
            IndexType::FLAT => self.flat.as_mut(),
            IndexType::HNSW => self.graph.as_mut(),
            IndexType::FILTER => None,
            IndexType::UNKNOWN => None,
        }
    }
}

/// Constructs an empty index of `type_` and registers it in `factory`.
pub fn init_index(
    factory: &mut GlobalIndexFactory,
    type_: IndexType,
    dim: u32,
    _num_data: u32,
    metric: MetricType,
) -> (r: Result<(), IndexError>)
    ensures
        match IndexView::fresh(type_, dim as nat, metric) {
            Some(index) => r == Ok::<(), IndexError>(()) && final(factory)@ == old(factory)@.insert(
                type_,
                index,
            ),
            None => r == Err::<(), IndexError>(IndexError::UnknownIndexType) && final(factory)@
                == old(factory)@,
        },
{
    factory.init_index(type_, dim, _num_data, metric)
}

/// The index that `factory` holds for `type_`.
pub fn get_index(factory: &GlobalIndexFactory, type_: IndexType) -> (r: Option<&IndexInstance>)
    ensures
        r is Some == factory@.contains_key(type_),
        r is Some ==> r->Some_0@ == factory@[type_],
{
    factory.get_index(type_)
}

} // verus!
