//! Error taxonomy of the knowledge base.

use crate::text::dec_str;
use crate::text::u64_to_string;
use crate::text::usize_to_string;
use vstd::prelude::*;
use vstd::string::*;

verus! {

/// Everything that can go wrong in the knowledge base, by kind.
#[derive(Debug, Clone)]
pub enum RagError {
    /// A document lookup found nothing.
    DocumentNotFound { id: String },
    /// A collection lookup found nothing.
    CollectionNotFound { name: String },
    /// Creating a collection hit a name collision.
    CollectionExists { name: String },
    /// A precondition on inputs failed.
    InvalidArgument { message: String },
    /// A source URI could not be parsed.
    InvalidUri { uri: String, reason: String },
    /// A source could not be fetched.
    LoadFailed { uri: String, reason: String },
    /// An input exceeds the embedder's token limit.
    TextTooLong { tokens: usize, max_tokens: usize },
    /// A failure in the storage layer.
    Database { message: String },
    /// A tokenization or inference failure.
    Embedding { message: String },
    /// A chunker failure.
    Chunking { message: String },
    /// A replication failure.
    Sync { message: String },
    /// An input or output failure at a boundary.
    Io { message: String },
    /// A serialization failure at a boundary.
    Serialization { message: String },
    /// A configuration failure.
    Config { message: String },
    /// An unexpected internal failure.
    Internal { message: String },
}

/// The rendered message of an error, kind first.
pub open spec fn spec_error_message(e: RagError) -> Seq<char> {
    match e {
        RagError::DocumentNotFound { id } => "Document not found: "@ + id@,
        RagError::CollectionNotFound { name } => "Collection not found: "@ + name@,
        RagError::CollectionExists { name } => "Collection already exists: "@ + name@,
        RagError::InvalidArgument { message } => "Invalid argument: "@ + message@,
        RagError::InvalidUri { uri, reason } => "Invalid URI: "@ + uri@ + " - "@ + reason@,
        RagError::LoadFailed { uri, reason } => "Failed to load content from "@ + uri@ + ": "@
            + reason@,
        RagError::TextTooLong { tokens, max_tokens } => "Text too long: "@ + dec_str(
            tokens as nat,
        ) + " tokens exceeds maximum of "@ + dec_str(max_tokens as nat),
        RagError::Database { message } => "Database error: "@ + message@,
        RagError::Embedding { message } => "Embedding error: "@ + message@,
        RagError::Chunking { message } => "Chunking error: "@ + message@,
        RagError::Sync { message } => "Sync error: "@ + message@,
        RagError::Io { message } => "IO error: "@ + message@,
        RagError::Serialization { message } => "Serialization error: "@ + message@,
        RagError::Config { message } => "Configuration error: "@ + message@,
        RagError::Internal { message } => "Internal error: "@ + message@,
    }
}

impl RagError {
    /// An invalid-argument error.
    pub fn invalid_argument(message: &str) -> (r: Self)
        ensures
            r matches RagError::InvalidArgument { message: m } && m@ == message@,
    {
        Self::InvalidArgument { message: String::from_str(message) }
    }

    /// A database error.
    pub fn database(message: &str) -> (r: Self)
        ensures
            r matches RagError::Database { message: m } && m@ == message@,
    {
        Self::Database { message: String::from_str(message) }
    }

    /// An embedding error.
    pub fn embedding(message: &str) -> (r: Self)
        ensures
            r matches RagError::Embedding { message: m } && m@ == message@,
    {
        Self::Embedding { message: String::from_str(message) }
    }

    /// A chunking error.
    pub fn chunking(message: &str) -> (r: Self)
        ensures
            r matches RagError::Chunking { message: m } && m@ == message@,
    {
        Self::Chunking { message: String::from_str(message) }
    }

    /// A sync error.
    pub fn sync(message: &str) -> (r: Self)
        ensures
            r matches RagError::Sync { message: m } && m@ == message@,
    {
        Self::Sync { message: String::from_str(message) }
    }

    /// An internal error.
    pub fn internal(message: &str) -> (r: Self)
        ensures
            r matches RagError::Internal { message: m } && m@ == message@,
    {
        Self::Internal { message: String::from_str(message) }
    }

    /// The stable code for this error's kind.
    pub fn error_code(&self) -> (r: &'static str)
        ensures
            r@ == spec_error_code(*self),
    {
        proof {
            reveal_strlit("DOCUMENT_NOT_FOUND");
        }
        match self {
            Self::DocumentNotFound { .. } => "DOCUMENT_NOT_FOUND",
            Self::CollectionNotFound { .. } => "COLLECTION_NOT_FOUND",
            Self::CollectionExists { .. } => "COLLECTION_EXISTS",
            Self::InvalidArgument { .. } => "INVALID_ARGUMENT",
            Self::InvalidUri { .. } => "INVALID_URI",
            Self::LoadFailed { .. } => "LOAD_FAILED",
            Self::TextTooLong { .. } => "TEXT_TOO_LONG",
            Self::Database { .. } => "DATABASE_ERROR",
            Self::Embedding { .. } => "EMBEDDING_ERROR",
            Self::Chunking { .. } => "CHUNKING_ERROR",
            Self::Sync { .. } => "SYNC_ERROR",
            Self::Io { .. } => "IO_ERROR",
            Self::Serialization { .. } => "SERIALIZATION_ERROR",
            Self::Config { .. } => "CONFIG_ERROR",
            Self::Internal { .. } => "INTERNAL_ERROR",
        }
    }

    /// Render the error as a message, kind first.
    pub fn message(&self) -> (r: String)
        ensures
            r@ == spec_error_message(*self),
    {
        match self {
            Self::DocumentNotFound { id } => {
                let mut s = String::from_str("Document not found: ");
                s.append(id.as_str());
                s
            },
            Self::CollectionNotFound { name } => {
                let mut s = String::from_str("Collection not found: ");
                s.append(name.as_str());
                s
            },
            Self::CollectionExists { name } => {
                let mut s = String::from_str("Collection already exists: ");
                s.append(name.as_str());
                s
            },
            Self::InvalidArgument { message } => {
                let mut s = String::from_str("Invalid argument: ");
                s.append(message.as_str());
                s
            },
            Self::InvalidUri { uri, reason } => {
                let mut s = String::from_str("Invalid URI: ");
                s.append(uri.as_str());
                s.append(" - ");
                s.append(reason.as_str());
                s
            },
            Self::LoadFailed { uri, reason } => {
                let mut s = String::from_str("Failed to load content from ");
                s.append(uri.as_str());
                s.append(": ");
                s.append(reason.as_str());
                s
            },
            Self::TextTooLong { tokens, max_tokens } => {
                let mut s = String::from_str("Text too long: ");
                let t = usize_to_string(*tokens);
                s.append(t.as_str());
                s.append(" tokens exceeds maximum of ");
                let m = usize_to_string(*max_tokens);
                s.append(m.as_str());
                s
            },
            Self::Database { message } => {
                let mut s = String::from_str("Database error: ");
                s.append(message.as_str());
                s
            },
            Self::Embedding { message } => {
                let mut s = String::from_str("Embedding error: ");
                s.append(message.as_str());
                s
            },
            Self::Chunking { message } => {
                let mut s = String::from_str("Chunking error: ");
                s.append(message.as_str());
                s
            },
            Self::Sync { message } => {
                let mut s = String::from_str("Sync error: ");
                s.append(message.as_str());
                s
            },
            Self::Io { message } => {
                let mut s = String::from_str("IO error: ");
                s.append(message.as_str());
                s
            },
            Self::Serialization { message } => {
                let mut s = String::from_str("Serialization error: ");
                s.append(message.as_str());
                s
            },
            Self::Config { message } => {
                let mut s = String::from_str("Configuration error: ");
                s.append(message.as_str());
                s
            },
            Self::Internal { message } => {
                let mut s = String::from_str("Internal error: ");
                s.append(message.as_str());
                s
            },
        }
    }
}

/// The stable code of each error kind.
pub open spec fn spec_error_code(e: RagError) -> Seq<char> {
    match e {
        RagError::DocumentNotFound { .. } => "DOCUMENT_NOT_FOUND"@,
        RagError::CollectionNotFound { .. } => "COLLECTION_NOT_FOUND"@,
        RagError::CollectionExists { .. } => "COLLECTION_EXISTS"@,
        RagError::InvalidArgument { .. } => "INVALID_ARGUMENT"@,
        RagError::InvalidUri { .. } => "INVALID_URI"@,
        RagError::LoadFailed { .. } => "LOAD_FAILED"@,
        RagError::TextTooLong { .. } => "TEXT_TOO_LONG"@,
        RagError::Database { .. } => "DATABASE_ERROR"@,
        RagError::Embedding { .. } => "EMBEDDING_ERROR"@,
        RagError::Chunking { .. } => "CHUNKING_ERROR"@,
        RagError::Sync { .. } => "SYNC_ERROR"@,
        RagError::Io { .. } => "IO_ERROR"@,
        RagError::Serialization { .. } => "SERIALIZATION_ERROR"@,
        RagError::Config { .. } => "CONFIG_ERROR"@,
        RagError::Internal { .. } => "INTERNAL_ERROR"@,
    }
}

} // verus!
