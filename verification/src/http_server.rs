//! The request boundary: what the index-type tag of a request means, and the
//! status and body that answer each outcome.

use vstd::prelude::*;
use crate::errors::{IndexError, IndexNotFoundError};
use crate::index_factory::{GlobalIndexFactory, IndexType, IndexView};
use crate::ranking::Neighbor;
use crate::vector_database::{insert, search};

verus! {

/// The tag that routes a request to the flat index.
pub const INDEX_TYPE_FLAT: &'static str = "FLAT";

/// The tag that routes a request to the graph index.
pub const INDEX_TYPE_HNSW: &'static str = "HNSW";

/// The status of a request that was served.
pub const STATUS_OK: u16 = 200;

/// The status of a request the boundary refuses.
pub const STATUS_BAD_REQUEST: u16 = 400;

/// The status of a request the engine failed.
pub const STATUS_INTERNAL_SERVER_ERROR: u16 = 500;

/// The text that answers a tag naming no index type.
pub open spec fn unknown_type_message() -> Seq<char> {
    "Unknown Index type"@
}

/// The index type a tag names; `UNKNOWN` for any other text.
pub open spec fn index_type_of(tag: Seq<char>) -> IndexType {
    if tag == INDEX_TYPE_FLAT@ {
        IndexType::FLAT
    } else if tag == INDEX_TYPE_HNSW@ {
        IndexType::HNSW
    } else {
        IndexType::UNKNOWN
    }
}

/// The index type a tag names; `UNKNOWN` for any other text.
pub fn parse_index_type(tag: &str) -> (index_type: IndexType)
    ensures
        index_type == index_type_of(tag@),
{
    let tag = tag.to_owned();
    if tag == INDEX_TYPE_FLAT.to_owned() {
        IndexType::FLAT
    } else if tag == INDEX_TYPE_HNSW.to_owned() {
        IndexType::HNSW
    } else {
        IndexType::UNKNOWN
    }
}

/// What a reply carries besides its status.
#[derive(Debug, Clone, PartialEq, Eq)]
pub enum ReplyBody {
    /// The text of a failure.
    Error(String),
    /// The identifier a vector was stored under.
    Inserted(i64),
    /// The identifiers and distance keys a search found.
    Found(Vec<i64>, Vec<u32>),
}

/// The answer to a request.
#[derive(Debug, Clone, PartialEq, Eq)]
pub struct Reply {
    pub status: u16,
    pub body: ReplyBody,
}

impl Reply {
    /// Whether the reply refuses a tag that names no index type.
    pub open spec fn is_unknown_type(self) -> bool {
        &&& self.status == STATUS_BAD_REQUEST
        &&& self.body matches ReplyBody::Error(text) && text@ == unknown_type_message()
    }

    /// Whether the reply reports the engine failure `e`.
    pub open spec fn is_failure(self, e: IndexError) -> bool {
        &&& self.status == STATUS_INTERNAL_SERVER_ERROR
        &&& self.body matches ReplyBody::Error(text) && text@ == e.message()
    }

    /// Whether the reply reports that no index of the requested type is
    /// registered.
    pub open spec fn is_not_found(self) -> bool {
        &&& self.status == STATUS_INTERNAL_SERVER_ERROR
        &&& self.body matches ReplyBody::Error(text) && text@ == IndexNotFoundError::message()
    }

    /// Whether the reply reports that a vector was stored under `id`.
    pub open spec fn is_inserted(self, id: i64) -> bool {
        &&& self.status == STATUS_OK
        &&& self.body == ReplyBody::Inserted(id)
    }

    /// Whether the reply carries the search result `ids`, `distances`.
    pub open spec fn is_found(self, ids: Seq<i64>, distances: Seq<u32>) -> bool {
        &&& self.status == STATUS_OK
        &&& self.body matches ReplyBody::Found(i, d) && i@ == ids && d@ == distances
    }
}

/// The registry after an insert request: an unknown tag and a type with no
/// index leave it as it was; otherwise the index of the type has taken the
/// insert.
pub open spec fn registry_after_insert(
    registry: Map<IndexType, IndexView>,
    vectors: Seq<u32>,
    id: i64,
    tag: Seq<char>,
) -> Map<IndexType, IndexView> {
    let index_type = index_type_of(tag);
    if index_type != IndexType::UNKNOWN && registry.contains_key(index_type) {
        registry.insert(index_type, registry[index_type].after_insert(vectors, id))
    } else {
        registry
    }
}

/// Whether `reply` answers an insert request: a refusal for an unknown tag,
/// the not-found failure for a type with no index, and otherwise the
/// identifier the index stored the vector under, or its failure.
pub open spec fn is_insert_reply(
    reply: Reply,
    registry: Map<IndexType, IndexView>,
    vectors: Seq<u32>,
    id: i64,
    tag: Seq<char>,
) -> bool {
    let index_type = index_type_of(tag);
    if index_type == IndexType::UNKNOWN {
        reply.is_unknown_type()
    } else if !registry.contains_key(index_type) {
        reply.is_not_found()
    } else {
        match registry[index_type].insert_result(vectors, id) {
            Ok(stored) => reply.is_inserted(stored),
            Err(e) => reply.is_failure(e),
        }
    }
}

/// Whether `reply` answers a search request: a refusal for an unknown tag,
/// the not-found failure for a type with no index, and otherwise what the
/// index found, or its failure.
pub open spec fn is_search_reply(
    reply: Reply,
    registry: Map<IndexType, IndexView>,
    vectors: Seq<u32>,
    k: nat,
    tag: Seq<char>,
    scored: Seq<Neighbor>,
) -> bool {
    let index_type = index_type_of(tag);
    if index_type == IndexType::UNKNOWN {
        reply.is_unknown_type()
    } else if !registry.contains_key(index_type) {
        reply.is_not_found()
    } else {
        match registry[index_type].search_result(vectors, k, scored) {
            Ok(found) => reply.is_found(found.0, found.1),
            Err(e) => reply.is_failure(e),
        }
    }
}

/// The reply that refuses a tag naming no index type.
fn unknown_type() -> (reply: Reply)
    ensures
        reply.is_unknown_type(),
{
    Reply { status: STATUS_BAD_REQUEST, body: ReplyBody::Error("Unknown Index type".to_owned()) }
}

/// The reply that reports an engine failure.
fn failure(e: IndexError) -> (reply: Reply)
    ensures
        reply.is_failure(e),
{
    Reply { status: STATUS_INTERNAL_SERVER_ERROR, body: ReplyBody::Error(e.to_string()) }
}

/// Serves an insert request: refuses an unknown tag without touching the
/// engine, else inserts and reports the identifier or the failure.
pub fn insert_handler(
    factory: &mut GlobalIndexFactory,
    vectors: Vec<u32>,
    id: i64,
    index_type: &str,
) -> (reply: Reply)
    ensures
        final(factory)@ == registry_after_insert(old(factory)@, vectors@, id, index_type@),
        is_insert_reply(reply, old(factory)@, vectors@, id, index_type@),
{
    let index_type = parse_index_type(index_type);
    if index_type == IndexType::UNKNOWN {
        return unknown_type();
    }
    match insert(factory, vectors, id, index_type) {
        Ok(id) => Reply { status: STATUS_OK, body: ReplyBody::Inserted(id) },
        Err(e) => failure(e),
    }
}

/// Serves a search request: refuses an unknown tag, else searches and
/// reports what was found or the failure.
pub fn search_handler(
    factory: &GlobalIndexFactory,
    vectors: Vec<u32>,
    k: usize,
    index_type: &str,
    scored: &Vec<Neighbor>,
) -> (reply: Reply)
    ensures
        is_search_reply(reply, factory@, vectors@, k as nat, index_type@, scored@),
{
    let index_type = parse_index_type(index_type);
    if index_type == IndexType::UNKNOWN {
        return unknown_type();
    }
    match search(factory, vectors, k, index_type, scored) {
        Ok((ids, distances)) => Reply { status: STATUS_OK, body: ReplyBody::Found(ids, distances) },
        Err(e) => failure(e),
    }
}

} // verus!
