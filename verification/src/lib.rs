//! A local, embeddable retrieval-augmented knowledge base.
//!
//! Documents are ingested into named collections, split into token-bounded
//! chunks, indexed for lexical search, and queried through a hybrid engine
//! that fuses vector and keyword rank lists with Reciprocal Rank Fusion.
//! Every mutable entity is stamped with a hybrid logical clock whose 14-byte
//! big-endian encoding compares lexicographically in causal order.

pub mod chunker;
pub mod config;
pub mod embed;
pub mod engine;
pub mod error;
pub mod fusion;
pub mod hlc;
pub mod server;
pub mod store;
pub mod text;
pub mod types;
