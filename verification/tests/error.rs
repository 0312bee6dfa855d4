use rag_kb::error::RagError;

#[test]
fn test_error_display() {
    let err = RagError::DocumentNotFound {
        id: "abc123".to_string(),
    };
    assert!(err.message().contains("abc123"));
}

#[test]
fn test_error_codes() {
    assert_eq!(
        RagError::DocumentNotFound {
            id: "x".to_string()
        }
        .error_code(),
        "DOCUMENT_NOT_FOUND"
    );
    assert_eq!(RagError::database("test").error_code(), "DATABASE_ERROR");
}

#[test]
fn test_error_messages_carry_kind() {
    assert_eq!(
        RagError::database("oops").message(),
        "Database error: oops"
    );
    assert_eq!(
        RagError::TextTooLong {
            tokens: 9000,
            max_tokens: 8192
        }
        .message(),
        "Text too long: 9000 tokens exceeds maximum of 8192"
    );
}
