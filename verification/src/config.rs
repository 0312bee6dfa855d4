//! Configuration of the knowledge base components.

use vstd::prelude::*;
use vstd::string::*;

verus! {

/// Storage configuration.
#[derive(Debug, Clone)]
pub struct DatabaseConfig {
    /// Path of the database file; relative paths are resolved by the host
    /// against its platform data directory.
    pub path: String,
    /// Node id used to stamp hybrid logical clocks.
    pub node_id: u16,
    /// Whether to open the store in write-ahead-log mode.
    pub wal_mode: bool,
    /// Cache size: negative means kibibytes, positive means pages.
    pub cache_size: i32,
    /// How long a busy store keeps retrying, in milliseconds.
    pub busy_timeout_ms: u32,
}

impl Default for DatabaseConfig {
    /// The default store setup: node 1, write-ahead logging, a 64 MB
    /// cache and a 30 s busy timeout.
    fn default() -> (r: Self)
        ensures
            r.path@ == "rag-mcp/rag.db"@,
            r.node_id == 1,
            r.wal_mode == true,
            r.cache_size == -64000,
            r.busy_timeout_ms == 30000,
    {
        DatabaseConfig {
            path: String::from_str("rag-mcp/rag.db"),
            node_id: 1,
            wal_mode: true,
            cache_size: -64000,
            busy_timeout_ms: 30000,
        }
    }
}

/// Embedder configuration.
#[derive(Debug, Clone)]
pub struct EmbeddingConfig {
    /// Path of the model directory; relative paths are resolved by the
    /// host against its platform data directory.
    pub model_path: String,
    /// Number of texts embedded per batch.
    pub batch_size: usize,
    /// Whether to use a GPU when one is available.
    pub use_gpu: bool,
    /// Number of threads for CPU inference.
    pub num_threads: usize,
}

impl Default for EmbeddingConfig {
    /// The default embedder setup.
    fn default() -> (r: Self)
        ensures
            r.model_path@ == "rag-mcp/models/nomic-embed-text-v1.5"@,
            r.batch_size == 32,
            r.use_gpu == false,
            r.num_threads == 4,
    {
        EmbeddingConfig {
            model_path: String::from_str("rag-mcp/models/nomic-embed-text-v1.5"),
            batch_size: 32,
            use_gpu: false,
            num_threads: 4,
        }
    }
}

/// Chunking configuration.
#[derive(Debug, Clone)]
pub struct ChunkingConfig {
    /// Largest number of tokens per chunk.
    pub max_tokens: usize,
    /// Smallest number of tokens a chunk may keep.
    pub min_tokens: usize,
    /// Token overlap between neighboring chunks.
    pub overlap_tokens: usize,
    /// Whether to prefer syntax-aware chunking for code.
    pub ast_aware: bool,
}

impl Default for ChunkingConfig {
    /// The default chunking bounds: 512 tokens at most, 50 at least.
    fn default() -> (r: Self)
        ensures
            r.max_tokens == 512,
            r.min_tokens == 50,
            r.overlap_tokens == 0,
            r.ast_aware == true,
    {
        ChunkingConfig { max_tokens: 512, min_tokens: 50, overlap_tokens: 0, ast_aware: true }
    }
}

/// Search configuration.
#[derive(Debug, Clone)]
pub struct SearchConfig {
    /// Number of results returned when the caller names none.
    pub default_top_k: usize,
    /// Largest number of results a caller may ask for.
    pub max_top_k: usize,
    /// Whether hybrid search is the default.
    pub hybrid: bool,
    /// The reciprocal-rank-fusion constant.
    pub rrf_k: u32,
    /// Whether results are expanded with neighboring chunks.
    pub expand_context: bool,
}

impl Default for SearchConfig {
    /// The default search setup: ten results, hybrid, fusion constant 60.
    fn default() -> (r: Self)
        ensures
            r.default_top_k == 10,
            r.max_top_k == 100,
            r.hybrid == true,
            r.rrf_k == 60,
            r.expand_context == true,
    {
        SearchConfig {
            default_top_k: 10,
            max_top_k: 100,
            hybrid: true,
            rrf_k: 60,
            expand_context: true,
        }
    }
}

/// One replication peer.
#[derive(Debug, Clone)]
pub struct PeerConfig {
    /// Peer identifier.
    pub id: String,
    /// Peer endpoint URL.
    pub endpoint: String,
}

/// Replication configuration.
#[derive(Debug, Clone)]
pub struct SyncConfig {
    /// Whether replication runs at all.
    pub enabled: bool,
    /// Seconds between replication rounds.
    pub interval_secs: u64,
    /// The peers to replicate with.
    pub peers: Vec<PeerConfig>,
    /// Address the replication server binds to.
    pub bind_address: String,
}

impl Default for SyncConfig {
    /// Replication is off by default.
    fn default() -> (r: Self)
        ensures
            r.enabled == false,
            r.interval_secs == 60,
            r.peers@.len() == 0,
            r.bind_address@ == "0.0.0.0:8765"@,
    {
        SyncConfig {
            enabled: false,
            interval_secs: 60,
            peers: Vec::new(),
            bind_address: String::from_str("0.0.0.0:8765"),
        }
    }
}

/// The whole configuration.
#[derive(Debug, Clone)]
pub struct RagConfig {
    /// Storage configuration.
    pub database: DatabaseConfig,
    /// Embedder configuration.
    pub embedding: EmbeddingConfig,
    /// Chunking configuration.
    pub chunking: ChunkingConfig,
    /// Search configuration.
    pub search: SearchConfig,
    /// Replication configuration.
    pub sync: SyncConfig,
}

impl Default for RagConfig {
    /// Every component at its default.
    fn default() -> (r: Self)
        ensures
            r.database.node_id == 1,
            r.chunking.max_tokens == 512,
            r.chunking.min_tokens == 50,
            r.search.default_top_k == 10,
            r.search.hybrid == true,
            r.sync.enabled == false,
    {
        RagConfig {
            database: DatabaseConfig::default(),
            embedding: EmbeddingConfig::default(),
            chunking: ChunkingConfig::default(),
            search: SearchConfig::default(),
            sync: SyncConfig::default(),
        }
    }
}

} // verus!
