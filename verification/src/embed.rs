//! The embedder interface: dimensions, token budgets, and counting.
//!
//! The mock embedder answers interface questions deterministically; its
//! vector computation is floating-point work and lives with the host,
//! which derives each vector from a byte fold of the input.

use crate::error::RagError;
use vstd::prelude::*;
use vstd::string::*;

verus! {

/// A deterministic embedder stand-in: fixed dimension and token budget,
/// and a four-bytes-per-token estimate.
#[derive(Debug, Clone, Copy, PartialEq, Eq, Structural)]
pub struct MockEmbedder {
    /// Length of the vectors the host derives.
    pub dimension: usize,
    /// Largest number of tokens one text may hold.
    pub max_tokens: usize,
}

impl MockEmbedder {
    /// The default setup: 768 dimensions, 8192 tokens.
    pub fn new() -> (r: Self)
        ensures
            r.dimension == 768,
            r.max_tokens == 8192,
    {
        Self { dimension: 768, max_tokens: 8192 }
    }

    /// A custom setup.
    pub fn with_config(dimension: usize, max_tokens: usize) -> (r: Self)
        ensures
            r.dimension == dimension,
            r.max_tokens == max_tokens,
    {
        Self { dimension, max_tokens }
    }

    /// Estimate the token count of a text: a token per four bytes, plus
    /// one.
    pub fn count_tokens(&self, text: &str) -> (r: Result<usize, RagError>)
        ensures
            r matches Ok(n) && n == vstd::utf8::encode_utf8(text@).len() as usize / 4 + 1,
    {
        Ok(text.len() / 4 + 1)
    }

    /// The vector length.
    pub fn dimension(&self) -> (r: usize)
        ensures
            r == self.dimension,
    {
        self.dimension
    }

    /// The token budget.
    pub fn max_tokens(&self) -> (r: usize)
        ensures
            r == self.max_tokens,
    {
        self.max_tokens
    }
}

impl Default for MockEmbedder {
    /// The default setup.
    fn default() -> (r: Self)
        ensures
            r.dimension == 768,
            r.max_tokens == 8192,
    {
        Self::new()
    }
}

} // verus!
