//! The entry point of the engine: routes an operation to the index registered
//! for the requested type.

use vstd::prelude::*;
use crate::errors::{IndexError, IndexNotFoundError};
use crate::index_factory::{found_view, GlobalIndexFactory, IndexType, VectorIndex};
use crate::ranking::Neighbor;

verus! {

/// Whether `e` reports that no index of the requested type is registered.
pub open spec fn is_not_found(e: IndexError) -> bool {
    e matches IndexError::IndexNotFound(inner) && inner.description@
        == IndexNotFoundError::message()
}

/// Routes inserts and searches to the registered indexes.
pub struct VectorDatabase {}

impl VectorDatabase {
    /// Searches the index registered for `index_type`. `scored` holds the
    /// candidates with their distance keys from `query`: for the flat index
    /// one for each slot, for the graph index the neighbours its traversal
    /// found.
    pub fn search(
        &self,
        factory: &GlobalIndexFactory,
        query: Vec<u32>,
        k: usize,
        index_type: IndexType,
        scored: &Vec<Neighbor>,
    ) -> (r: Result<(Vec<i64>, Vec<u32>), IndexError>)
        ensures
            factory@.contains_key(index_type) ==> found_view(r) == factory@[index_type].search_result(
                query@,
                k as nat,
                scored@,
            ),
            !factory@.contains_key(index_type) ==> r is Err && is_not_found(r->Err_0),
    {
        match factory.get_index(index_type) {
            Some(index) => index.search(query.as_slice(), k, scored),
            None => Err(IndexError::IndexNotFound(IndexNotFoundError::new())),
        }
    }

    /// Inserts `vector` into the index registered for `index_type` and
    /// returns the identifier it is stored under.
    pub fn insert(
        &self,
        factory: &mut GlobalIndexFactory,
        vector: Vec<u32>,
        id: i64,
        index_type: IndexType,
    ) -> (r: Result<i64, IndexError>)
        ensures
            old(factory)@.contains_key(index_type) ==> r == old(factory)@[index_type].insert_result(
                vector@,
                id,
            ) && final(factory)@ == old(factory)@.insert(
                index_type,
                old(factory)@[index_type].after_insert(vector@, id),
            ),
            !old(factory)@.contains_key(index_type) ==> r is Err && is_not_found(r->Err_0)
                && final(factory)@ == old(factory)@,
    {
        match factory.get_index_mut(index_type) {
            Some(index) => index.insert(vector.as_slice(), id),
            None => Err(IndexError::IndexNotFound(IndexNotFoundError::new())),
        }
    }
}

/// Searches the index that `factory` holds for `index_type`.
pub fn search(
    factory: &GlobalIndexFactory,
    query: Vec<u32>,
    k: usize,
    index_type: IndexType,
    scored: &Vec<Neighbor>,
) -> (r: Result<(Vec<i64>, Vec<u32>), IndexError>)
    ensures
        factory@.contains_key(index_type) ==> found_view(r) == factory@[index_type].search_result(
            query@,
            k as nat,
            scored@,
        ),
        !factory@.contains_key(index_type) ==> r is Err && is_not_found(r->Err_0),
{
    let vector_database = VectorDatabase {  };
    vector_database.search(factory, query, k, index_type, scored)
}

/// Inserts `vector` into the index that `factory` holds for `index_type`.
pub fn insert(factory: &mut GlobalIndexFactory, vector: Vec<u32>, id: i64, index_type: IndexType) -> (r:
    Result<i64, IndexError>)
    ensures
        old(factory)@.contains_key(index_type) ==> r == old(factory)@[index_type].insert_result(
            vector@,
            id,
        ) && final(factory)@ == old(factory)@.insert(
            index_type,
            old(factory)@[index_type].after_insert(vector@, id),
        ),
        !old(factory)@.contains_key(index_type) ==> r is Err && is_not_found(r->Err_0)
            && final(factory)@ == old(factory)@,
{
    let vector_database = VectorDatabase {  };
    vector_database.insert(factory, vector, id, index_type)
}

} // verus!
