use rag_kb::embed::MockEmbedder;

#[test]
fn test_count_tokens() {
    let embedder = MockEmbedder::new();
    let count = embedder.count_tokens("Hello world, this is a test").unwrap();
    assert!(count > 0);
}

#[test]
fn test_mock_embedder_defaults() {
    let embedder = MockEmbedder::new();
    assert_eq!(embedder.dimension(), 768);
    assert_eq!(embedder.max_tokens(), 8192);
}

#[test]
fn test_mock_embedder_custom() {
    let embedder = MockEmbedder::with_config(384, 512);
    assert_eq!(embedder.dimension(), 384);
    assert_eq!(embedder.max_tokens(), 512);
}
