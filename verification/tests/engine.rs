use rag_kb::engine::{QueryConfig, QueryEngine};
use rag_kb::store::MemoryStore;
use rag_kb::types::{Chunk, Collection, ContentType, Document, Ulid};

fn store_with_chunks() -> (MemoryStore, Vec<Ulid>) {
    let mut store = MemoryStore::open_memory(1);
    store.create_collection(Collection::new("code", None)).unwrap();
    let doc = Document::new("code", "file://test.rs", "whole file", ContentType::Rust);
    let doc_id = doc.id;
    store.insert_document(doc).unwrap();
    let chunks = vec![
        Chunk::new(doc_id, 0, "fn alpha() { hello(); }", 4, 1, 1),
        Chunk::new(doc_id, 1, "fn beta() { world(); }", 4, 2, 2),
        Chunk::new(doc_id, 2, "fn gamma() { hello(); hello(); }", 5, 3, 3),
    ];
    store.insert_chunks(&chunks).unwrap();
    let ids = chunks.iter().map(|c| c.id).collect();
    (store, ids)
}

#[test]
fn test_keyword_only_search_ranks_by_occurrences() {
    let (store, ids) = store_with_chunks();
    let engine = QueryEngine::new();

    let results = engine
        .keyword_only_search(&store, "hello", 10, None)
        .unwrap();

    assert_eq!(results.query, "hello");
    assert_eq!(results.total_results, 2);
    // the chunk with two occurrences comes first
    assert_eq!(results.results[0].chunk.id, ids[2]);
    assert_eq!(results.results[1].chunk.id, ids[0]);
    assert!(results.results[0].rank >= 1);
}

#[test]
fn test_keyword_only_search_respects_top_k() {
    let (store, _) = store_with_chunks();
    let engine = QueryEngine::new();
    let results = engine
        .keyword_only_search(&store, "fn", 1, None)
        .unwrap();
    assert!(results.results.len() <= 1);
}

#[test]
fn test_hybrid_search_fuses_and_expands() {
    let (store, ids) = store_with_chunks();
    let engine = QueryEngine::new();

    // the vector index reported the middle chunk as the nearest neighbor
    let vector_hits = vec![ids[1]];
    let config = QueryConfig {
        top_k: 5,
        expand_context: true,
        context_chunks: 1,
        collection: None,
    };
    let results = engine
        .search(&store, "world", &vector_hits, &config)
        .unwrap();

    assert!(results.total_results >= 1);
    // ranks are reassigned from one
    for (i, r) in results.results.iter().enumerate() {
        assert_eq!(r.rank as usize, i + 1);
    }
    // the hit in both lists leads
    assert_eq!(results.results[0].chunk.id, ids[1]);
    // neighbors of the hit were pulled in
    let got: Vec<Ulid> = results.results.iter().map(|r| r.chunk.id).collect();
    assert!(got.contains(&ids[0]));
    assert!(got.contains(&ids[2]));
}

#[test]
fn test_hybrid_search_without_expansion_keeps_top_k() {
    let (store, ids) = store_with_chunks();
    let engine = QueryEngine::new();
    let config = QueryConfig {
        top_k: 1,
        expand_context: false,
        context_chunks: 0,
        collection: None,
    };
    let results = engine.search(&store, "hello", &ids, &config).unwrap();
    assert!(results.results.len() <= 1);
}
