//! The index implementations.

pub mod faiss_index;
pub mod hnsw_index;
