use rag_kb::store::MemoryStore;
use rag_kb::types::{Chunk, Collection, ContentType, Document, Ulid};

fn sample_doc(collection: &str, uri: &str) -> Document {
    Document::new(collection, uri, "fn main() {}", ContentType::Rust)
}

#[test]
fn test_open_memory() {
    let store = MemoryStore::open_memory(1);
    assert!(store.list_collections().unwrap().is_empty());
}

#[test]
fn test_collection_crud() {
    let mut store = MemoryStore::open_memory(1);

    store
        .create_collection(Collection::new("test", Some("Test collection")))
        .unwrap();

    let retrieved = store.get_collection("test").unwrap().unwrap();
    assert_eq!(retrieved.name, "test");
    assert_eq!(retrieved.description, Some("Test collection".to_string()));

    let all = store.list_collections().unwrap();
    assert_eq!(all.len(), 1);

    store.delete_collection("test").unwrap();
    assert!(store.get_collection("test").unwrap().is_none());
}

#[test]
fn test_collection_name_collision() {
    let mut store = MemoryStore::open_memory(1);
    store.create_collection(Collection::new("a", None)).unwrap();
    assert!(store.create_collection(Collection::new("a", None)).is_err());
}

#[test]
fn test_collections_listed_in_name_order() {
    let mut store = MemoryStore::open_memory(1);
    store.create_collection(Collection::new("pear", None)).unwrap();
    store.create_collection(Collection::new("apple", None)).unwrap();
    store.create_collection(Collection::new("mango", None)).unwrap();
    let names: Vec<String> = store
        .list_collections()
        .unwrap()
        .into_iter()
        .map(|c| c.name)
        .collect();
    assert_eq!(names, vec!["apple", "mango", "pear"]);
}

#[test]
fn test_document_crud() {
    let mut store = MemoryStore::open_memory(1);

    store.create_collection(Collection::new("test", None)).unwrap();

    let doc = sample_doc("test", "file://test.rs");
    let doc_id = doc.id;
    store.insert_document(doc).unwrap();

    let retrieved = store.get_document(doc_id).unwrap().unwrap();
    assert_eq!(retrieved.source_uri, "file://test.rs");

    let by_uri = store.get_document_by_uri("file://test.rs").unwrap().unwrap();
    assert_eq!(by_uri.id, doc_id);

    store.delete_document(doc_id).unwrap();
    assert!(store.get_document(doc_id).unwrap().is_none());
}

#[test]
fn test_document_requires_collection() {
    let mut store = MemoryStore::open_memory(1);
    assert!(store.insert_document(sample_doc("missing", "file://x.rs")).is_err());
}

#[test]
fn test_chunks() {
    let mut store = MemoryStore::open_memory(1);

    store.create_collection(Collection::new("test", None)).unwrap();

    let doc = sample_doc("test", "file://test.rs");
    let doc_id = doc.id;
    store.insert_document(doc).unwrap();

    let chunks = vec![
        Chunk::new(doc_id, 0, "fn main() {", 5, 1, 1),
        Chunk::new(doc_id, 1, "    println!(\"Hello\");", 8, 2, 2),
        Chunk::new(doc_id, 2, "}", 1, 3, 3),
    ];
    store.insert_chunks(&chunks).unwrap();

    let retrieved = store.get_chunks_for_document(doc_id).unwrap();
    assert_eq!(retrieved.len(), 3);
    assert_eq!(retrieved[0].chunk_index, 0);
    assert_eq!(retrieved[1].chunk_index, 1);
    // the dense order holds for the whole list
    for (i, c) in retrieved.iter().enumerate() {
        assert_eq!(c.chunk_index as usize, i);
    }
}

#[test]
fn test_chunk_index_must_be_dense() {
    let mut store = MemoryStore::open_memory(1);
    store.create_collection(Collection::new("test", None)).unwrap();
    let doc = sample_doc("test", "file://test.rs");
    let doc_id = doc.id;
    store.insert_document(doc).unwrap();

    // the batch starts at index 1 instead of 0 and is refused whole
    let chunks = vec![Chunk::new(doc_id, 1, "x", 1, 1, 1)];
    assert!(store.insert_chunks(&chunks).is_err());
    assert!(store.get_chunks_for_document(doc_id).unwrap().is_empty());
}

#[test]
fn sqlite_test_stats() {
    let mut store = MemoryStore::open_memory(1);

    store.create_collection(Collection::new("test", None)).unwrap();

    let doc = sample_doc("test", "file://test.rs");
    let doc_id = doc.id;
    store.insert_document(doc).unwrap();

    let chunks = vec![Chunk::new(doc_id, 0, "fn main() {}", 5, 1, 1)];
    store.insert_chunks(&chunks).unwrap();

    let stats = store.get_stats(None).unwrap();
    assert_eq!(stats.collections, 1);
    assert_eq!(stats.documents, 1);
    assert_eq!(stats.chunks, 1);
}

#[test]
fn test_keyword_search() {
    let mut store = MemoryStore::open_memory(1);

    store.create_collection(Collection::new("test", None)).unwrap();

    let doc = sample_doc("test", "file://test.rs");
    let doc_id = doc.id;
    store.insert_document(doc).unwrap();

    let chunks = vec![
        Chunk::new(doc_id, 0, "fn main() { println!(\"Hello World\"); }", 10, 1, 1),
        Chunk::new(doc_id, 1, "fn helper() { return 42; }", 8, 2, 2),
    ];
    store.insert_chunks(&chunks).unwrap();

    let results = store.keyword_search("Hello World", 10, None).unwrap();
    assert!(!results.is_empty());
    assert_eq!(results[0].0, chunks[0].id);
}

#[test]
fn test_cascading_delete_reaches_embeddings() {
    let mut store = MemoryStore::open_memory_with_vectors(1);

    store.create_collection(Collection::new("code", None)).unwrap();
    let doc = sample_doc("code", "file://test.rs");
    let doc_id = doc.id;
    store.insert_document(doc).unwrap();

    let chunks = vec![
        Chunk::new(doc_id, 0, "alpha", 1, 1, 1),
        Chunk::new(doc_id, 1, "beta", 1, 2, 2),
    ];
    store.insert_chunks(&chunks).unwrap();
    let ids: Vec<Ulid> = chunks.iter().map(|c| c.id).collect();
    let payloads = vec![vec![1u8, 2, 3, 4], vec![5u8, 6, 7, 8]];
    store.insert_embeddings(&ids, &payloads).unwrap();

    let before = store.get_stats(None).unwrap();
    assert_eq!(before.embeddings, 2);

    store.delete_collection("code").unwrap();

    let after = store.get_stats(None).unwrap();
    assert_eq!(after.collections, 0);
    assert_eq!(after.documents, 0);
    assert_eq!(after.chunks, 0);
    assert_eq!(after.embeddings, 0);
    assert!(store.get_document(doc_id).unwrap().is_none());
    assert!(store.get_chunk(ids[0]).unwrap().is_none());
}

#[test]
fn test_embeddings_need_vector_store() {
    let mut store = MemoryStore::open_memory(1);
    store.create_collection(Collection::new("c", None)).unwrap();
    let doc = sample_doc("c", "file://a.rs");
    let doc_id = doc.id;
    store.insert_document(doc).unwrap();
    let chunks = vec![Chunk::new(doc_id, 0, "x", 1, 1, 1)];
    store.insert_chunks(&chunks).unwrap();
    let ids = vec![chunks[0].id];
    let payloads = vec![vec![0u8; 4]];
    assert!(store.insert_embeddings(&ids, &payloads).is_err());
}

#[test]
fn test_embedding_length_mismatch() {
    let mut store = MemoryStore::open_memory_with_vectors(1);
    store.create_collection(Collection::new("c", None)).unwrap();
    let doc = sample_doc("c", "file://a.rs");
    let doc_id = doc.id;
    store.insert_document(doc).unwrap();
    let chunks = vec![Chunk::new(doc_id, 0, "x", 1, 1, 1)];
    store.insert_chunks(&chunks).unwrap();
    let ids = vec![chunks[0].id];
    let payloads: Vec<Vec<u8>> = Vec::new();
    assert!(store.insert_embeddings(&ids, &payloads).is_err());
}

#[test]
fn test_vector_search_degrades() {
    let store = MemoryStore::open_memory_with_vectors(1);
    assert!(store.vector_search(&vec![0u8; 8], 5, None).is_err());
}

#[test]
fn test_watermark_grows_with_writes() {
    let mut store = MemoryStore::open_memory(1);
    let empty = store.get_watermark().unwrap();
    assert_eq!(empty.wall_time, 0);

    store.create_collection(Collection::new("a", None)).unwrap();
    let w1 = store.get_watermark().unwrap();
    assert!(w1 > empty);

    let doc = sample_doc("a", "file://x.rs");
    store.insert_document(doc).unwrap();
    let w2 = store.get_watermark().unwrap();
    assert!(w2 > w1);
}

#[test]
fn test_sync_feed_is_empty() {
    let store = MemoryStore::open_memory(1);
    let w = store.get_watermark().unwrap();
    assert!(store.get_changes_since(&w).unwrap().is_empty());
    assert!(store.apply_changes(&Vec::new()).is_ok());
}

#[test]
fn test_escape_fts5_plain_terms() {
    assert_eq!(rag_kb::store::escape_fts5_query("hello world"), "hello world");
    assert_eq!(rag_kb::store::escape_fts5_query("  spaced   out  "), "spaced out");
    assert_eq!(rag_kb::store::escape_fts5_query(""), "");
}

#[test]
fn test_escape_fts5_reserved_terms() {
    assert_eq!(
        rag_kb::store::escape_fts5_query("foo+bar baz"),
        "\"foo+bar\" baz"
    );
    assert_eq!(
        rag_kb::store::escape_fts5_query("say \"hi\""),
        "say \"\"\"hi\"\"\""
    );
    assert_eq!(rag_kb::store::escape_fts5_query("(a)*b"), "\"(a)*b\"");
}

#[test]
fn test_list_documents_window() {
    let mut store = MemoryStore::open_memory(1);
    store.create_collection(Collection::new("c", None)).unwrap();
    for i in 0..3 {
        let uri = format!("file://{i}");
        let doc = Document::new("c", &uri, "text", ContentType::PlainText);
        store.insert_document(doc).unwrap();
    }
    assert_eq!(store.list_documents("c", 10, 0).unwrap().len(), 3);
    assert_eq!(store.list_documents("c", 2, 0).unwrap().len(), 2);
    assert_eq!(store.list_documents("c", 10, 2).unwrap().len(), 1);
    assert_eq!(store.list_documents("c", 10, 5).unwrap().len(), 0);
}
