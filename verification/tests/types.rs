use rag_kb::types::{ContentType, Document};

#[test]
fn test_content_type_from_extension() {
    assert_eq!(ContentType::from_extension("rs"), ContentType::Rust);
    assert_eq!(ContentType::from_extension("py"), ContentType::Python);
    assert_eq!(ContentType::from_extension("ts"), ContentType::TypeScript);
    assert_eq!(ContentType::from_extension("md"), ContentType::Markdown);
    assert_eq!(ContentType::from_extension("xyz"), ContentType::Unknown);
}

#[test]
fn test_content_type_from_path() {
    assert_eq!(ContentType::from_path("src/lib.rs"), ContentType::Rust);
    assert_eq!(ContentType::from_path("README.md"), ContentType::Markdown);
    assert_eq!(ContentType::from_path("no_extension"), ContentType::Unknown);
}

#[test]
fn test_content_type_case_insensitive() {
    assert_eq!(ContentType::from_extension("RS"), ContentType::Rust);
    assert_eq!(ContentType::from_extension("Md"), ContentType::Markdown);
}

#[test]
fn test_content_type_predicates() {
    assert!(ContentType::Rust.supports_ast_chunking());
    assert!(!ContentType::Markdown.supports_ast_chunking());
    assert!(ContentType::Markdown.is_markup());
    assert!(!ContentType::Json.is_markup());
}

#[test]
fn test_document_content_changed() {
    let doc = Document::new("test", "file://test.rs", "fn main() {}", ContentType::Rust);
    assert!(!doc.content_changed("fn main() {}"));
    assert!(doc.content_changed("fn main() { println!(); }"));
}

#[test]
fn test_document_hash_is_real_digest() {
    // the digest of the empty text is a fixed, known value
    let doc = Document::new("test", "file://empty.txt", "", ContentType::PlainText);
    let hash = doc.content_hash.unwrap();
    assert_eq!(
        hex::encode(&hash),
        "af1349b9f5f9a1a6a0404dea36dcc9499bcb25c9adc112b7cc9a93cae41f3262"
    );
}

#[test]
fn test_document_fields() {
    let doc = Document::new("docs", "file://a.md", "# Title", ContentType::Markdown);
    assert_eq!(doc.collection, "docs");
    assert_eq!(doc.source_uri, "file://a.md");
    assert_eq!(doc.raw_content.as_deref(), Some("# Title"));
    assert_eq!(doc.metadata, "{}");
    assert_eq!(doc.created_at, doc.updated_at);
}

#[test]
fn test_from_name_declared_hint() {
    assert_eq!(ContentType::from_name("rust"), Some(ContentType::Rust));
    assert_eq!(ContentType::from_name("RUST"), Some(ContentType::Rust));
    assert_eq!(ContentType::from_name("Markdown"), Some(ContentType::Markdown));
    assert_eq!(ContentType::from_name("c++"), Some(ContentType::Cpp));
    assert_eq!(ContentType::from_name("plaintext"), Some(ContentType::PlainText));
    assert_eq!(ContentType::from_name("rs"), None);
    assert_eq!(ContentType::from_name(""), None);
}
