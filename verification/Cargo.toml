[package]
name = "vector_db"
version = "0.1.0"
edition = "2021"
publish = false

[dependencies]
axum = "0.7"
faiss = "0.12"
hnsw = "0.11"
lazy_static = "1"
rand_pcg = "0.3"
serde = { version = "1", features = ["derive"] }
serde_json = "1"
space = "0.17"
tokio = { version = "1", features = ["full"] }
tracing = "0.1"
tracing-subscriber = "0.3"
