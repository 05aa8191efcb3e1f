//! The index and the embedding model, seen from the values that go in and out.

pub mod bodies;
pub mod chunk;
pub mod parallel_embedder;
pub mod uploader;
