//! A vector similarity search engine: fixed-dimension vectors tagged with
//! integer identifiers are stored in an exact (flat) index or registered with
//! an approximate graph index, and ranked by distance from a query.
//!
//! Vector components and distances are carried as 32-bit words holding the
//! IEEE-754 bit pattern of the value. For the non-negative distances a metric
//! produces, the unsigned order of the words is the numeric order of the
//! values, so the engine ranks by plain integer comparison and calls the
//! words distance keys.
//!
//! The engine computes no distance itself. A search is handed the candidates
//! already scored against the query: for the flat index one candidate for
//! each of its slots, for the graph index the neighbours that a traversal of
//! the proximity graph found. What the engine decides is everything else:
//! which vectors an index holds, which identifier a vector gets, which
//! candidates are the nearest and in what order, and what each request is
//! answered with.

pub mod errors;
pub mod http_server;
pub mod index_factory;
pub mod indexes;
pub mod ranking;
pub mod vector_database;
