use rag_kb::server::{CollectionParams, IngestParams, RagMcpServer, SearchParams};

#[test]
fn test_server_creation() {
    let _server = RagMcpServer::new_memory(1);
    let info = RagMcpServer::info();
    assert_eq!(info.name, "rag-mcp");
}

#[test]
fn test_create_collection() {
    let mut server = RagMcpServer::new_memory(1);

    let params = CollectionParams {
        name: "test".to_string(),
        description: Some("Test collection".to_string()),
    };

    let result = server.create_collection(params);
    assert!(result.success);
}

#[test]
fn test_list_collections() {
    let mut server = RagMcpServer::new_memory(1);

    let params = CollectionParams {
        name: "test".to_string(),
        description: None,
    };
    server.create_collection(params);

    let result = server.list_collections();
    assert!(result.success);
    assert!(result.message.contains("test"));
}

#[test]
fn test_ingest_and_search() {
    let mut server = RagMcpServer::new_memory(1);

    let params = CollectionParams {
        name: "code".to_string(),
        description: Some("Code snippets".to_string()),
    };
    server.create_collection(params);

    let ingest_params = IngestParams {
        collection: "code".to_string(),
        source_uri: "file://test.rs".to_string(),
        content: "fn main() {\n    println!(\"Hello, world!\");\n}".to_string(),
        content_type: Some("rust".to_string()),
    };
    let result = server.ingest(ingest_params);
    assert!(result.success, "Ingest failed: {}", result.message);

    let search_params = SearchParams {
        query: "hello".to_string(),
        top_k: 5,
        collection: Some("code".to_string()),
    };
    let result = server.search(search_params);
    assert!(result.success, "Search failed: {}", result.message);
    assert!(
        result.message.contains("Hello, world!"),
        "expected the matching chunk text in: {}",
        result.message
    );
}

#[test]
fn test_delete_collection() {
    let mut server = RagMcpServer::new_memory(1);
    server.create_collection(CollectionParams {
        name: "gone".to_string(),
        description: None,
    });
    assert!(server.delete_collection("gone").success);
    assert!(!server.delete_collection("gone").success);
}

#[test]
fn test_ingest_needs_collection() {
    let mut server = RagMcpServer::new_memory(1);
    let result = server.ingest(IngestParams {
        collection: "absent".to_string(),
        source_uri: "file://x.rs".to_string(),
        content: "fn main() {}".to_string(),
        content_type: None,
    });
    assert!(!result.success);
}

#[test]
fn server_test_stats() {
    let server = RagMcpServer::new_memory(1);

    let result = server.stats(None);
    assert!(result.success);
    assert!(result.message.contains("Collections:"));
}

#[test]
fn test_tools_list() {
    let tools = RagMcpServer::tools();
    assert!(!tools.is_empty());
    assert!(tools.iter().any(|t| t.name == "rag_search"));
}

#[test]
fn test_stats_empty_store_message() {
    let server = RagMcpServer::new_memory(1);
    let r = server.stats(None);
    assert!(r.success);
    assert_eq!(
        r.message,
        "Overall statistics:\n\n- Collections: 0\n- Documents: 0\n- Chunks: 0\n- Embeddings: 0\n- Storage: 0 bytes\n"
    );
}

#[test]
fn test_ingest_with_declared_type_hint() {
    let mut server = RagMcpServer::new_memory(1);
    let created = server.create_collection(CollectionParams {
        name: "code".to_string(),
        description: None,
    });
    assert!(created.success);
    let r = server.ingest(IngestParams {
        collection: "code".to_string(),
        source_uri: "mem://snippet".to_string(),
        content: "fn main() {}".to_string(),
        content_type: Some("rust".to_string()),
    });
    assert!(r.success, "{}", r.message);
}

#[test]
fn test_ingest_missing_collection_message() {
    let mut server = RagMcpServer::new_memory(1);
    let r = server.ingest(IngestParams {
        collection: "none".to_string(),
        source_uri: "file://x.txt".to_string(),
        content: "some text".to_string(),
        content_type: None,
    });
    assert!(!r.success);
    assert_eq!(r.message, "Collection 'none' does not exist. Create it first.");
}

#[test]
fn test_ingest_success_message_reports_chunks() {
    let mut server = RagMcpServer::new_memory(1);
    assert!(
        server
            .create_collection(CollectionParams { name: "c".to_string(), description: None })
            .success
    );
    let r = server.ingest(IngestParams {
        collection: "c".to_string(),
        source_uri: "file://small.txt".to_string(),
        content: "one short line".to_string(),
        content_type: None,
    });
    assert!(r.success);
    assert_eq!(r.message, "Successfully ingested 'file://small.txt' with 1 chunks.");
}

#[test]
fn test_search_message_renders_hits() {
    let mut server = RagMcpServer::new_memory(1);
    assert!(
        server
            .create_collection(CollectionParams { name: "c".to_string(), description: None })
            .success
    );
    let r = server.ingest(IngestParams {
        collection: "c".to_string(),
        source_uri: "file://greeting.txt".to_string(),
        content: "hello from the knowledge base".to_string(),
        content_type: None,
    });
    assert!(r.success);
    let s = server.search(SearchParams {
        query: "hello".to_string(),
        top_k: 5,
        collection: None,
    });
    assert!(s.success);
    assert!(s.message.starts_with("Found 1 results in"), "{}", s.message);
    assert!(s.message.contains("[1] file://greeting.txt (score: 1/1)"), "{}", s.message);
    assert!(
        s.message.contains("```\nhello from the knowledge base\n```"),
        "{}",
        s.message
    );
}
