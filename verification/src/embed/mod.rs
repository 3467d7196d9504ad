//! Embeddings: the texts that represent each entity, their content hash, and
//! the in-memory index that semantic search ranks.
pub mod client;
pub mod pipeline;
pub mod search;
