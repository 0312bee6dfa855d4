use rag_kb::chunker::{AdaptiveChunker, ChunkConfig, Chunker, RecursiveChunker, TokenCounter};
use rag_kb::types::ContentType;

#[test]
fn test_simple_chunk() {
    let chunker = RecursiveChunker::new();
    let config = ChunkConfig {
        max_tokens: 100,
        min_tokens: 1,
        overlap_tokens: 0,
    };

    let text = "Hello world. This is a test.";
    let chunks = chunker.chunk(text, ContentType::PlainText, &config).unwrap();

    assert_eq!(chunks.len(), 1);
    assert_eq!(chunks[0].content, text);
}

#[test]
fn test_paragraph_split() {
    let chunker = RecursiveChunker::with_token_counter(TokenCounter::WhitespaceWords);
    let config = ChunkConfig {
        max_tokens: 5,
        min_tokens: 1,
        overlap_tokens: 0,
    };

    let text = "First paragraph with several words here.\n\nSecond paragraph also with words.\n\nThird paragraph too.";
    let chunks = chunker.chunk(text, ContentType::PlainText, &config).unwrap();

    assert!(chunks.len() >= 2, "Expected at least 2 chunks, got {}", chunks.len());
    for c in &chunks {
        assert!(c.token_count <= 5);
    }
}

#[test]
fn test_line_numbers() {
    let chunker = RecursiveChunker::new();
    let config = ChunkConfig {
        max_tokens: 20,
        min_tokens: 1,
        overlap_tokens: 0,
    };

    let text = "Line 1\nLine 2\nLine 3\n\nLine 5\nLine 6";
    let chunks = chunker.chunk(text, ContentType::PlainText, &config).unwrap();

    assert!(!chunks.is_empty());
    assert_eq!(chunks[0].start_line, 1);
}

#[test]
fn test_empty_content() {
    let chunker = RecursiveChunker::new();
    let config = ChunkConfig::default();

    let chunks = chunker.chunk("", ContentType::PlainText, &config).unwrap();
    assert!(chunks.is_empty());
}

#[test]
fn test_supported_types() {
    let chunker = RecursiveChunker::new();
    let supported = chunker.supported_types();
    assert!(supported.contains(&ContentType::PlainText));
    assert!(supported.contains(&ContentType::Rust));
}

#[test]
fn test_adaptive_chunk_text() {
    let chunker = AdaptiveChunker::new();
    let config = ChunkConfig {
        max_tokens: 100,
        min_tokens: 1,
        overlap_tokens: 0,
    };

    let text = "Hello world. This is a test.";
    let chunks = chunker.chunk(text, ContentType::PlainText, &config).unwrap();

    assert_eq!(chunks.len(), 1);
}

#[test]
fn test_adaptive_chunk_rust() {
    let chunker = AdaptiveChunker::new();
    let config = ChunkConfig {
        max_tokens: 50,
        min_tokens: 1,
        overlap_tokens: 0,
    };

    let code = "\nfn main() {\n    println!(\"Hello\");\n}\n\nfn helper() {\n    println!(\"Helper\");\n}\n";
    let chunks = chunker.chunk(code, ContentType::Rust, &config).unwrap();

    assert!(!chunks.is_empty());
}

#[test]
fn test_adaptive_with_token_counter() {
    let chunker = AdaptiveChunker::with_token_counter(TokenCounter::WhitespaceWords);

    let config = ChunkConfig {
        max_tokens: 5,
        min_tokens: 1,
        overlap_tokens: 0,
    };

    let text = "one two three four five six seven eight nine ten";
    let chunks = chunker.chunk(text, ContentType::PlainText, &config).unwrap();

    assert!(chunks.len() >= 2);
}

#[test]
fn test_min_token_gate() {
    let chunker = RecursiveChunker::with_token_counter(TokenCounter::WhitespaceWords);
    let config = ChunkConfig {
        max_tokens: 3,
        min_tokens: 2,
        overlap_tokens: 0,
    };

    let text = "alpha beta gamma x";
    let chunks = chunker.chunk(text, ContentType::PlainText, &config).unwrap();

    for c in &chunks {
        assert!(c.from_size_split || c.token_count >= 2);
    }
}

#[test]
fn test_word_count_tokens() {
    let chunker = RecursiveChunker::with_token_counter(TokenCounter::WhitespaceWords);
    assert_eq!(chunker.count_tokens("one  two\tthree\nfour"), 4);
    assert_eq!(chunker.count_tokens(""), 0);
    assert_eq!(chunker.count_tokens("   "), 0);
}

#[test]
fn test_approx_tokens() {
    let chunker = RecursiveChunker::new();
    assert_eq!(chunker.count_tokens(""), 1);
    assert_eq!(chunker.count_tokens("abcdefgh"), 2);
}
