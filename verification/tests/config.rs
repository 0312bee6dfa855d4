use rag_kb::config::{ChunkingConfig, DatabaseConfig, RagConfig, SearchConfig};
use rag_kb::engine::QueryConfig;

#[test]
fn test_default_config() {
    let config = RagConfig::default();
    assert_eq!(config.search.default_top_k, 10);
    assert!(config.search.hybrid);
    assert_eq!(config.chunking.max_tokens, 512);
}

#[test]
fn test_database_config_default() {
    let config = DatabaseConfig::default();
    assert!(config.wal_mode);
    assert_eq!(config.node_id, 1);
}

#[test]
fn test_chunking_config_default() {
    let c = ChunkingConfig::default();
    assert_eq!(c.min_tokens, 50);
    assert_eq!(c.overlap_tokens, 0);
}

#[test]
fn test_search_config_default() {
    let c = SearchConfig::default();
    assert_eq!(c.max_top_k, 100);
    assert_eq!(c.rrf_k, 60);
    assert!(c.expand_context);
}

#[test]
fn test_query_config_default() {
    let config = QueryConfig::default();
    assert_eq!(config.top_k, 10);
    assert!(config.expand_context);
    assert_eq!(config.context_chunks, 1);
    assert!(config.collection.is_none());
}
