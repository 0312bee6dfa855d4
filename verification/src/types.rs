//! Domain entities: identifiers, content types, collections, documents,
//! chunks, scores, and search results.

use crate::hlc::HybridLogicalClock;
use vstd::prelude::*;
use vstd::string::*;

verus! {

/// A 128-bit time-ordered unique identifier.
#[derive(Debug, Clone, Copy, PartialEq, Eq, Structural, PartialOrd, Ord, Hash)]
pub struct Ulid {
    /// The raw 128-bit value, time bits first.
    pub value: u128,
}

/// Relies on `ulid::Ulid::generate`: a fresh identifier built from the
/// current time and random bits. Nothing can be promised of the value.
#[verifier::external_body]
fn fresh_ulid_value() -> u128 {
    ulid::Ulid::generate().0
}

impl Ulid {
    /// Create an identifier from a raw 128-bit value.
    pub fn from_value(value: u128) -> (r: Self)
        ensures
            r.value == value,
    {
        Self { value }
    }

    /// Mint a fresh time-ordered identifier.
    pub fn fresh() -> Self {
        Self { value: fresh_ulid_value() }
    }

    /// The all-zero identifier.
    pub fn nil() -> (r: Self)
        ensures
            r.value == 0,
    {
        Self { value: 0 }
    }
}

/// The digest a BLAKE3 hash assigns to a text. Opaque here: the trusted
/// wrapper [`blake3_hash`] is the only source of facts about it.
pub uninterp spec fn blake3_of(s: Seq<char>) -> Seq<u8>;

/// Relies on `blake3::hash`: the 32-byte digest of the text's bytes,
/// a function of the input alone.
#[verifier::external_body]
pub fn blake3_hash(content: &str) -> (r: Vec<u8>)
    ensures
        r@ == blake3_of(content@),
        r@.len() == 32,
{
    blake3::hash(content.as_bytes()).as_bytes().to_vec()
}

/// Compare two byte vectors element by element.
pub fn bytes_eq(a: &Vec<u8>, b: &Vec<u8>) -> (r: bool)
    ensures
        r == (a@ == b@),
{
    if a.len() != b.len() {
        proof {
            assert(a@ != b@);
        }
        return false;
    }
    let mut i: usize = 0;
    while i < a.len()
        invariant
            i <= a.len(),
            a@.len() == b@.len(),
            forall|j: int| 0 <= j < i ==> a@[j] == b@[j],
        decreases a.len() - i,
    {
        if a[i] != b[i] {
            proof {
                assert(a@ != b@);
            }
            return false;
        }
        i += 1;
    }
    proof {
        assert(a@ =~= b@);
    }
    true
}

/// Lowercase an ASCII uppercase letter; leave every other character be.
/// The lexical index folds case over this ASCII class only; on ASCII
/// text it agrees with Unicode case folding.
pub open spec fn ascii_lower_char(c: char) -> char {
    if 'A' <= c && c <= 'Z' {
        (((c as u8) + 32) as u8) as char
    } else {
        c
    }
}

/// Character-wise ASCII lowercasing.
pub open spec fn ascii_lower(s: Seq<char>) -> Seq<char> {
    Seq::new(s.len(), |i: int| ascii_lower_char(s[i]))
}

/// Lowercase the ASCII letters of a string, returning its characters.
pub fn lower_chars(s: &str) -> (r: Vec<char>)
    ensures
        r@ == ascii_lower(s@),
{
    let len = s.unicode_len();
    let mut out: Vec<char> = Vec::new();
    let mut i: usize = 0;
    while i < len
        invariant
            i <= len,
            len == s@.len(),
            out@.len() == i,
            forall|j: int| 0 <= j < i ==> out@[j] == ascii_lower_char(s@[j]),
        decreases len - i,
    {
        let c = s.get_char(i);
        let cu = c as u32;
        if 65 <= cu && cu <= 90 {
            out.push(((cu + 32) as u8) as char);
        } else {
            out.push(c);
        }
        i += 1;
    }
    proof {
        assert(out@ =~= ascii_lower(s@));
    }
    out
}

/// Compare a character vector against a string.
pub fn chars_eq_str(v: &Vec<char>, s: &str) -> (r: bool)
    ensures
        r == (v@ == s@),
{
    let len = s.unicode_len();
    if v.len() != len {
        proof {
            assert(v@ != s@);
        }
        return false;
    }
    let mut i: usize = 0;
    while i < len
        invariant
            i <= len,
            len == s@.len(),
            v@.len() == len,
            forall|j: int| 0 <= j < i ==> v@[j] == s@[j],
        decreases len - i,
    {
        if v[i] != s.get_char(i) {
            proof {
                assert(v@ != s@);
            }
            return false;
        }
        i += 1;
    }
    proof {
        assert(v@ =~= s@);
    }
    true
}

/// Content type of a document; it selects the chunking separator cascade.
#[derive(Debug, Clone, Copy, PartialEq, Eq, Structural, Hash)]
pub enum ContentType {
    Rust,
    Python,
    TypeScript,
    JavaScript,
    Go,
    Java,
    Cpp,
    C,
    Ruby,
    Markdown,
    Html,
    Json,
    Yaml,
    Toml,
    PlainText,
    Unknown,
}

/// The content type a lowercased file extension names.
pub open spec fn spec_from_extension(low: Seq<char>) -> ContentType {
    if low == "rs"@ {
        ContentType::Rust
    } else if low == "py"@ || low == "pyi"@ {
        ContentType::Python
    } else if low == "ts"@ || low == "tsx"@ {
        ContentType::TypeScript
    } else if low == "js"@ || low == "jsx"@ || low == "mjs"@ || low == "cjs"@ {
        ContentType::JavaScript
    } else if low == "go"@ {
        ContentType::Go
    } else if low == "java"@ {
        ContentType::Java
    } else if low == "cpp"@ || low == "cc"@ || low == "cxx"@ || low == "hpp"@ || low == "hxx"@ {
        ContentType::Cpp
    } else if low == "c"@ || low == "h"@ {
        ContentType::C
    } else if low == "rb"@ {
        ContentType::Ruby
    } else if low == "md"@ || low == "markdown"@ {
        ContentType::Markdown
    } else if low == "html"@ || low == "htm"@ {
        ContentType::Html
    } else if low == "json"@ {
        ContentType::Json
    } else if low == "yaml"@ || low == "yml"@ {
        ContentType::Yaml
    } else if low == "toml"@ {
        ContentType::Toml
    } else if low == "txt"@ {
        ContentType::PlainText
    } else {
        ContentType::Unknown
    }
}

/// The content type a lowercased declared name stands for, where one is
/// known; a declared name is the spelled-out language or format name, as
/// an ingest request's explicit hint carries it.
pub open spec fn spec_from_name(low: Seq<char>) -> Option<ContentType> {
    if low == "rust"@ {
        Some(ContentType::Rust)
    } else if low == "python"@ {
        Some(ContentType::Python)
    } else if low == "typescript"@ {
        Some(ContentType::TypeScript)
    } else if low == "javascript"@ {
        Some(ContentType::JavaScript)
    } else if low == "go"@ {
        Some(ContentType::Go)
    } else if low == "java"@ {
        Some(ContentType::Java)
    } else if low == "cpp"@ || low == "c++"@ {
        Some(ContentType::Cpp)
    } else if low == "c"@ {
        Some(ContentType::C)
    } else if low == "ruby"@ {
        Some(ContentType::Ruby)
    } else if low == "markdown"@ {
        Some(ContentType::Markdown)
    } else if low == "html"@ {
        Some(ContentType::Html)
    } else if low == "json"@ {
        Some(ContentType::Json)
    } else if low == "yaml"@ {
        Some(ContentType::Yaml)
    } else if low == "toml"@ {
        Some(ContentType::Toml)
    } else if low == "text"@ || low == "plaintext"@ {
        Some(ContentType::PlainText)
    } else {
        None
    }
}

/// The character view of an optional owned string.
pub open spec fn spec_opt_string(o: Option<String>) -> Option<Seq<char>> {
    match o {
        Some(s) => Some(s@),
        None => None,
    }
}

/// The content type an ingest request resolves to: the type its
/// explicit hint names; a hint naming no type is read as an extension;
/// without a hint, the URI's extension decides.
pub open spec fn spec_resolved_type(hint: Option<Seq<char>>, uri: Seq<char>) -> ContentType {
    match hint {
        Some(h) => match spec_from_name(ascii_lower(h)) {
            Some(t) => t,
            None => spec_from_extension(ascii_lower(spec_ext_of(h))),
        },
        None => spec_from_extension(ascii_lower(spec_ext_of(uri))),
    }
}

/// Index of the last `'.'` in a character sequence, or `-1` if none.
pub open spec fn last_dot_index(s: Seq<char>) -> int
    decreases s.len(),
{
    if s.len() == 0 {
        -1
    } else if s.last() == '.' {
        s.len() - 1
    } else {
        last_dot_index(s.drop_last())
    }
}

/// The extension of a path: everything after the last dot, or the whole
/// string when there is no dot.
pub open spec fn spec_ext_of(s: Seq<char>) -> Seq<char> {
    s.subrange(last_dot_index(s) + 1, s.len() as int)
}

proof fn lemma_last_dot_no_dot_past(s: Seq<char>, i: int)
    requires
        0 <= i <= s.len(),
        forall|k: int| i <= k < s.len() ==> s[k] != '.',
    ensures
        last_dot_index(s) == last_dot_index(s.take(i)),
    decreases s.len() - i,
{
    if i < s.len() {
        lemma_last_dot_no_dot_past(s.take((s.len() - 1) as int), i);
        assert(s.take((s.len() - 1) as int).take(i) =~= s.take(i));
        assert(s.drop_last() =~= s.take((s.len() - 1) as int));
    } else {
        assert(s.take(i) =~= s);
    }
}

impl ContentType {
    /// Detect the content type from a file extension, case-insensitively.
    pub fn from_extension(ext: &str) -> (r: Self)
        ensures
            r == spec_from_extension(ascii_lower(ext@)),
    {
        let low = lower_chars(ext);
        if chars_eq_str(&low, "rs") {
            Self::Rust
        } else if chars_eq_str(&low, "py") || chars_eq_str(&low, "pyi") {
            Self::Python
        } else if chars_eq_str(&low, "ts") || chars_eq_str(&low, "tsx") {
            Self::TypeScript
        } else if chars_eq_str(&low, "js") || chars_eq_str(&low, "jsx") || chars_eq_str(
            &low,
            "mjs",
        ) || chars_eq_str(&low, "cjs") {
            Self::JavaScript
        } else if chars_eq_str(&low, "go") {
            Self::Go
        } else if chars_eq_str(&low, "java") {
            Self::Java
        } else if chars_eq_str(&low, "cpp") || chars_eq_str(&low, "cc") || chars_eq_str(
            &low,
            "cxx",
        ) || chars_eq_str(&low, "hpp") || chars_eq_str(&low, "hxx") {
            Self::Cpp
        } else if chars_eq_str(&low, "c") || chars_eq_str(&low, "h") {
            Self::C
        } else if chars_eq_str(&low, "rb") {
            Self::Ruby
        } else if chars_eq_str(&low, "md") || chars_eq_str(&low, "markdown") {
            Self::Markdown
        } else if chars_eq_str(&low, "html") || chars_eq_str(&low, "htm") {
            Self::Html
        } else if chars_eq_str(&low, "json") {
            Self::Json
        } else if chars_eq_str(&low, "yaml") || chars_eq_str(&low, "yml") {
            Self::Yaml
        } else if chars_eq_str(&low, "toml") {
            Self::Toml
        } else if chars_eq_str(&low, "txt") {
            Self::PlainText
        } else {
            Self::Unknown
        }
    }

    /// Detect the content type from a file path, by its extension; a path
    /// without a dot is looked up as a whole.
    pub fn from_path(path: &str) -> (r: Self)
        ensures
            r == spec_from_extension(ascii_lower(spec_ext_of(path@))),
    {
        let len = path.unicode_len();
        let mut i: usize = len;
        while i > 0
            invariant
                i <= len,
                len == path@.len(),
                forall|k: int| i <= k < len ==> path@[k] != '.',
            decreases i,
        {
            if path.get_char(i - 1) == '.' {
                proof {
                    lemma_last_dot_no_dot_past(path@, i as int);
                    assert(path@.take(i as int).last() == path@[i - 1]);
                    assert(last_dot_index(path@) == i - 1);
                }
                let ext = path.substring_char(i, len);
                proof {
                    assert(ext@ =~= spec_ext_of(path@));
                }
                return Self::from_extension(ext);
            }
            i -= 1;
        }
        proof {
            lemma_last_dot_no_dot_past(path@, 0);
            assert(path@.take(0) =~= Seq::<char>::empty());
            assert(last_dot_index(path@) == -1);
            assert(path@.subrange(0, path@.len() as int) =~= path@);
        }
        Self::from_extension(path)
    }

    /// Detect the content type a declared name stands for,
    /// case-insensitively; `None` for an unknown name.
    pub fn from_name(name: &str) -> (r: Option<Self>)
        ensures
            r == spec_from_name(ascii_lower(name@)),
    {
        let low = lower_chars(name);
        if chars_eq_str(&low, "rust") {
            Some(Self::Rust)
        } else if chars_eq_str(&low, "python") {
            Some(Self::Python)
        } else if chars_eq_str(&low, "typescript") {
            Some(Self::TypeScript)
        } else if chars_eq_str(&low, "javascript") {
            Some(Self::JavaScript)
        } else if chars_eq_str(&low, "go") {
            Some(Self::Go)
        } else if chars_eq_str(&low, "java") {
            Some(Self::Java)
        } else if chars_eq_str(&low, "cpp") || chars_eq_str(&low, "c++") {
            Some(Self::Cpp)
        } else if chars_eq_str(&low, "c") {
            Some(Self::C)
        } else if chars_eq_str(&low, "ruby") {
            Some(Self::Ruby)
        } else if chars_eq_str(&low, "markdown") {
            Some(Self::Markdown)
        } else if chars_eq_str(&low, "html") {
            Some(Self::Html)
        } else if chars_eq_str(&low, "json") {
            Some(Self::Json)
        } else if chars_eq_str(&low, "yaml") {
            Some(Self::Yaml)
        } else if chars_eq_str(&low, "toml") {
            Some(Self::Toml)
        } else if chars_eq_str(&low, "text") || chars_eq_str(&low, "plaintext") {
            Some(Self::PlainText)
        } else {
            None
        }
    }

    /// Whether this content type could be chunked by a syntax-aware
    /// splitter.
    pub fn supports_ast_chunking(&self) -> (r: bool)
        ensures
            r == matches!(
                *self,
                ContentType::Rust | ContentType::Python | ContentType::TypeScript
                    | ContentType::JavaScript | ContentType::Go | ContentType::Java
                    | ContentType::Cpp | ContentType::C | ContentType::Ruby
            ),
    {
        matches!(
            *self,
            Self::Rust | Self::Python | Self::TypeScript | Self::JavaScript | Self::Go
                | Self::Java | Self::Cpp | Self::C | Self::Ruby
        )
    }

    /// Whether this is a markup or documentation format.
    pub fn is_markup(&self) -> (r: bool)
        ensures
            r == matches!(*self, ContentType::Markdown | ContentType::Html),
    {
        matches!(*self, Self::Markdown | Self::Html)
    }

    /// A human-readable name for the content type.
    pub fn as_str(&self) -> &'static str {
        match *self {
            Self::Rust => "Rust",
            Self::Python => "Python",
            Self::TypeScript => "TypeScript",
            Self::JavaScript => "JavaScript",
            Self::Go => "Go",
            Self::Java => "Java",
            Self::Cpp => "C++",
            Self::C => "C",
            Self::Ruby => "Ruby",
            Self::Markdown => "Markdown",
            Self::Html => "HTML",
            Self::Json => "JSON",
            Self::Yaml => "YAML",
            Self::Toml => "TOML",
            Self::PlainText => "Plain Text",
            Self::Unknown => "Unknown",
        }
    }
}

/// The file extensions the ingest walk accepts.
pub open spec fn spec_supported_ext(e: Seq<char>) -> bool {
    ||| e == "rs"@
    ||| e == "py"@
    ||| e == "js"@
    ||| e == "ts"@
    ||| e == "tsx"@
    ||| e == "jsx"@
    ||| e == "go"@
    ||| e == "md"@
    ||| e == "txt"@
    ||| e == "json"@
    ||| e == "yaml"@
    ||| e == "yml"@
    ||| e == "toml"@
    ||| e == "html"@
    ||| e == "css"@
    ||| e == "c"@
    ||| e == "cpp"@
    ||| e == "h"@
    ||| e == "hpp"@
    ||| e == "java"@
    ||| e == "rb"@
    ||| e == "sh"@
}

/// Whether a file with this extension is taken by the ingest walk.
pub fn is_supported_file(ext: &str) -> (r: bool)
    ensures
        r == spec_supported_ext(ext@),
{
    let e = str_chars(ext);
    chars_eq_str(&e, "rs") || chars_eq_str(&e, "py") || chars_eq_str(&e, "js") || chars_eq_str(
        &e,
        "ts",
    ) || chars_eq_str(&e, "tsx") || chars_eq_str(&e, "jsx") || chars_eq_str(&e, "go")
        || chars_eq_str(&e, "md") || chars_eq_str(&e, "txt") || chars_eq_str(&e, "json")
        || chars_eq_str(&e, "yaml") || chars_eq_str(&e, "yml") || chars_eq_str(&e, "toml")
        || chars_eq_str(&e, "html") || chars_eq_str(&e, "css") || chars_eq_str(&e, "c")
        || chars_eq_str(&e, "cpp") || chars_eq_str(&e, "h") || chars_eq_str(&e, "hpp")
        || chars_eq_str(&e, "java") || chars_eq_str(&e, "rb") || chars_eq_str(&e, "sh")
}

/// The declared content-type name for an extension, where one is known.
pub open spec fn spec_declared_type(e: Seq<char>) -> Option<Seq<char>> {
    if e == "rs"@ {
        Some("rust"@)
    } else if e == "py"@ {
        Some("python"@)
    } else if e == "js"@ {
        Some("javascript"@)
    } else if e == "ts"@ || e == "tsx"@ {
        Some("typescript"@)
    } else if e == "go"@ {
        Some("go"@)
    } else if e == "md"@ {
        Some("markdown"@)
    } else if e == "json"@ {
        Some("json"@)
    } else if e == "yaml"@ || e == "yml"@ {
        Some("yaml"@)
    } else if e == "toml"@ {
        Some("toml"@)
    } else {
        None
    }
}

/// Name the content type an extension declares, where one is known.
pub fn detect_content_type(ext: &str) -> (r: Option<&'static str>)
    ensures
        r is Some <==> spec_declared_type(ext@) is Some,
        r matches Some(s) ==> spec_declared_type(ext@) matches Some(t) && s@ == t,
{
    let e = str_chars(ext);
    if chars_eq_str(&e, "rs") {
        Some("rust")
    } else if chars_eq_str(&e, "py") {
        Some("python")
    } else if chars_eq_str(&e, "js") {
        Some("javascript")
    } else if chars_eq_str(&e, "ts") || chars_eq_str(&e, "tsx") {
        Some("typescript")
    } else if chars_eq_str(&e, "go") {
        Some("go")
    } else if chars_eq_str(&e, "md") {
        Some("markdown")
    } else if chars_eq_str(&e, "json") {
        Some("json")
    } else if chars_eq_str(&e, "yaml") || chars_eq_str(&e, "yml") {
        Some("yaml")
    } else if chars_eq_str(&e, "toml") {
        Some("toml")
    } else {
        None
    }
}

/// The characters of a string.
pub fn str_chars(s: &str) -> (r: Vec<char>)
    ensures
        r@ == s@,
{
    let len = s.unicode_len();
    let mut out: Vec<char> = Vec::new();
    let mut i: usize = 0;
    while i < len
        invariant
            i <= len,
            len == s@.len(),
            out@.len() == i,
            forall|j: int| 0 <= j < i ==> out@[j] == s@[j],
        decreases len - i,
    {
        out.push(s.get_char(i));
        i += 1;
    }
    proof {
        assert(out@ =~= s@);
    }
    out
}

/// A document in the knowledge base.
#[derive(Debug, Clone)]
pub struct Document {
    /// Unique identifier.
    pub id: Ulid,
    /// Name of the collection this document belongs to.
    pub collection: String,
    /// Source URI the content came from.
    pub source_uri: String,
    /// BLAKE3 digest of the raw content, for change detection.
    pub content_hash: Option<Vec<u8>>,
    /// The raw content, if retained.
    pub raw_content: Option<String>,
    /// Detected or declared content type.
    pub content_type: ContentType,
    /// User metadata as a JSON object text.
    pub metadata: String,
    /// Creation timestamp, Unix milliseconds.
    pub created_at: u64,
    /// Last update timestamp, Unix milliseconds.
    pub updated_at: u64,
    /// Clock stamp assigned by the store at write time.
    pub hlc: HybridLogicalClock,
}

impl Document {
    /// Create a document over the given content: fresh id, hashed
    /// content, creation and update time set to the current wall clock.
    pub fn new(collection: &str, source_uri: &str, content: &str, content_type: ContentType) -> (r:
        Self)
        ensures
            r.collection@ == collection@,
            r.source_uri@ == source_uri@,
            r.content_hash matches Some(h) && h@ == blake3_of(content@),
            r.raw_content matches Some(c) && c@ == content@,
            r.content_type == content_type,
            r.metadata@ == "{}"@,
            r.created_at == r.updated_at,
            r.hlc.logical == 0,
    {
        let now = crate::hlc::wall_clock_ms();
        let hash = blake3_hash(content);
        Self {
            id: Ulid::fresh(),
            collection: String::from_str(collection),
            source_uri: String::from_str(source_uri),
            content_hash: Some(hash),
            raw_content: Some(String::from_str(content)),
            content_type,
            metadata: String::from_str("{}"),
            created_at: now,
            updated_at: now,
            hlc: HybridLogicalClock::new(0),
        }
    }

    /// Whether the given content differs from the stored hash: true
    /// exactly when the digest of `new_content` is not the stored digest,
    /// and always true when no digest is stored.
    pub fn content_changed(&self, new_content: &str) -> (r: bool)
        ensures
            r == match self.content_hash {
                Some(h) => h@ != blake3_of(new_content@),
                None => true,
            },
    {
        let new_hash = blake3_hash(new_content);
        match &self.content_hash {
            Some(h) => !bytes_eq(h, &new_hash),
            None => true,
        }
    }
}

/// View-wise equality of optional byte vectors.
pub open spec fn bytes_opt_eq(a: Option<Vec<u8>>, b: Option<Vec<u8>>) -> bool {
    match (a, b) {
        (Some(x), Some(y)) => x@ == y@,
        (None, None) => true,
        _ => false,
    }
}

/// View-wise equality of optional strings.
pub open spec fn string_opt_eq(a: Option<String>, b: Option<String>) -> bool {
    match (a, b) {
        (Some(x), Some(y)) => x@ == y@,
        (None, None) => true,
        _ => false,
    }
}

/// Two documents carrying the same data.
pub open spec fn doc_eq(a: Document, b: Document) -> bool {
    &&& a.id == b.id
    &&& a.collection@ == b.collection@
    &&& a.source_uri@ == b.source_uri@
    &&& bytes_opt_eq(a.content_hash, b.content_hash)
    &&& string_opt_eq(a.raw_content, b.raw_content)
    &&& a.content_type == b.content_type
    &&& a.metadata@ == b.metadata@
    &&& a.created_at == b.created_at
    &&& a.updated_at == b.updated_at
    &&& a.hlc == b.hlc
}

impl Document {
    /// An exact copy of the document.
    pub fn duplicate(&self) -> (r: Self)
        ensures
            doc_eq(r, *self),
    {
        Self {
            id: self.id,
            collection: self.collection.clone(),
            source_uri: self.source_uri.clone(),
            content_hash: match &self.content_hash {
                Some(h) => Some(clone_bytes(h)),
                None => None,
            },
            raw_content: match &self.raw_content {
                Some(c) => Some(c.clone()),
                None => None,
            },
            content_type: self.content_type,
            metadata: self.metadata.clone(),
            created_at: self.created_at,
            updated_at: self.updated_at,
            hlc: self.hlc,
        }
    }
}

/// An exact copy of a byte vector.
pub fn clone_bytes(v: &Vec<u8>) -> (r: Vec<u8>)
    ensures
        r@ == v@,
{
    let mut out: Vec<u8> = Vec::new();
    let mut i: usize = 0;
    while i < v.len()
        invariant
            i <= v@.len(),
            out@ == v@.take(i as int),
        decreases v@.len() - i,
    {
        out.push(v[i]);
        proof {
            assert(out@ =~= v@.take(i + 1));
        }
        i += 1;
    }
    proof {
        assert(out@ =~= v@);
    }
    out
}

/// A chunk of a document: a contiguous region that is indexed and
/// searched on its own.
#[derive(Debug, Clone)]
pub struct Chunk {
    /// Unique identifier.
    pub id: Ulid,
    /// Identifier of the owning document.
    pub doc_id: Ulid,
    /// Zero-based position within the document.
    pub chunk_index: u32,
    /// The chunk text.
    pub content: String,
    /// Token count reported by the chunker.
    pub token_count: u32,
    /// First line of the chunk in the source, one-based.
    pub start_line: u32,
    /// Last line of the chunk in the source, one-based, inclusive.
    pub end_line: u32,
    /// BLAKE3 digest of the chunk text.
    pub content_hash: Option<Vec<u8>>,
    /// Clock stamp assigned by the store at write time.
    pub hlc: HybridLogicalClock,
}

impl Chunk {
    /// Create a chunk with a fresh id and a hash of its content.
    pub fn new(
        doc_id: Ulid,
        chunk_index: u32,
        content: &str,
        token_count: u32,
        start_line: u32,
        end_line: u32,
    ) -> (r: Self)
        ensures
            r.doc_id == doc_id,
            r.chunk_index == chunk_index,
            r.content@ == content@,
            r.token_count == token_count,
            r.start_line == start_line,
            r.end_line == end_line,
            r.content_hash matches Some(h) && h@ == blake3_of(content@),
    {
        let hash = blake3_hash(content);
        Self {
            id: Ulid::fresh(),
            doc_id,
            chunk_index,
            content: String::from_str(content),
            token_count,
            start_line,
            end_line,
            content_hash: Some(hash),
            hlc: HybridLogicalClock::new(0),
        }
    }
}

/// Two chunks carrying the same data.
pub open spec fn chunk_eq(a: Chunk, b: Chunk) -> bool {
    &&& a.id == b.id
    &&& a.doc_id == b.doc_id
    &&& a.chunk_index == b.chunk_index
    &&& a.content@ == b.content@
    &&& a.token_count == b.token_count
    &&& a.start_line == b.start_line
    &&& a.end_line == b.end_line
    &&& bytes_opt_eq(a.content_hash, b.content_hash)
    &&& a.hlc == b.hlc
}

impl Chunk {
    /// An exact copy of the chunk.
    pub fn duplicate(&self) -> (r: Self)
        ensures
            chunk_eq(r, *self),
    {
        Self {
            id: self.id,
            doc_id: self.doc_id,
            chunk_index: self.chunk_index,
            content: self.content.clone(),
            token_count: self.token_count,
            start_line: self.start_line,
            end_line: self.end_line,
            content_hash: match &self.content_hash {
                Some(h) => Some(clone_bytes(h)),
                None => None,
            },
            hlc: self.hlc,
        }
    }
}

/// A named group of documents.
#[derive(Debug, Clone)]
pub struct Collection {
    /// Unique collection name.
    pub name: String,
    /// Optional description.
    pub description: Option<String>,
    /// Creation timestamp, Unix milliseconds.
    pub created_at: u64,
    /// Clock stamp assigned by the store at write time.
    pub hlc: HybridLogicalClock,
}

impl Collection {
    /// Create a collection with the current wall time. The clock stamp
    /// is a placeholder at logical zero, node zero; the store assigns
    /// the real stamp at write time.
    pub fn new(name: &str, description: Option<&str>) -> (r: Self)
        ensures
            r.name@ == name@,
            r.description is Some <==> description is Some,
            r.description matches Some(d) ==> description matches Some(d0) && d@ == d0@,
            r.hlc.logical == 0,
            r.hlc.node_id == 0,
    {
        let desc = match description {
            Some(d) => Some(String::from_str(d)),
            None => None,
        };
        Self {
            name: String::from_str(name),
            description: desc,
            created_at: crate::hlc::wall_clock_ms(),
            hlc: HybridLogicalClock::new(0),
        }
    }
}

/// Two collections carrying the same data.
pub open spec fn coll_eq(a: Collection, b: Collection) -> bool {
    &&& a.name@ == b.name@
    &&& string_opt_eq(a.description, b.description)
    &&& a.created_at == b.created_at
    &&& a.hlc == b.hlc
}

impl Collection {
    /// An exact copy of the collection.
    pub fn duplicate(&self) -> (r: Self)
        ensures
            coll_eq(r, *self),
    {
        Self {
            name: self.name.clone(),
            description: match &self.description {
                Some(d) => Some(d.clone()),
                None => None,
            },
            created_at: self.created_at,
            hlc: self.hlc,
        }
    }
}

/// An exact nonnegative rational relevance score.
///
/// Reciprocal-rank sums and occurrence counts are held exactly as a
/// numerator over a denominator, so ordering results never rounds.
#[derive(Debug, Clone, Copy, PartialEq, Eq, Structural)]
pub struct Score {
    /// Numerator.
    pub num: u64,
    /// Denominator; well-formed scores keep it nonzero.
    pub den: u64,
}

impl Score {
    /// A well-formed score has a nonzero denominator.
    pub open spec fn wf(&self) -> bool {
        self.den >= 1
    }

    /// The rational this score denotes, compared as `num / den`.
    /// Mathematically: `a` is below `b` iff `a.num * b.den < b.num * a.den`.
    pub open spec fn spec_lt(a: Score, b: Score) -> bool {
        (a.num as int) * (b.den as int) < (b.num as int) * (a.den as int)
    }

    /// An integer score `n`, denominator one.
    pub fn from_count(n: u64) -> (r: Score)
        ensures
            r.num == n,
            r.den == 1,
            r.wf(),
    {
        Score { num: n, den: 1 }
    }

    /// Compare two scores as rationals.
    pub fn lt(&self, other: &Score) -> (r: bool)
        ensures
            r == Score::spec_lt(*self, *other),
    {
        proof {
            vstd::arithmetic::mul::lemma_mul_upper_bound(
                self.num as int,
                u64::MAX as int,
                other.den as int,
                u64::MAX as int,
            );
            vstd::arithmetic::mul::lemma_mul_upper_bound(
                other.num as int,
                u64::MAX as int,
                self.den as int,
                u64::MAX as int,
            );
        }
        (self.num as u128) * (other.den as u128) < (other.num as u128) * (self.den as u128)
    }

    /// The halved score: the same numerator over twice the denominator,
    /// saturating at the largest representable denominator.
    pub open spec fn spec_halved(s: Score) -> Score {
        Score {
            num: s.num,
            den: if s.den <= u64::MAX / 2 {
                (2 * s.den) as u64
            } else {
                u64::MAX
            },
        }
    }

    /// Halve a score by doubling its denominator, saturating at the
    /// largest representable denominator.
    pub fn halved(&self) -> (r: Score)
        ensures
            r == Score::spec_halved(*self),
            r.num == self.num,
            self.den <= u64::MAX / 2 ==> r.den == 2 * self.den,
            self.den > u64::MAX / 2 ==> r.den == u64::MAX,
            self.wf() ==> r.wf(),
    {
        if self.den > u64::MAX / 2 {
            Score { num: self.num, den: u64::MAX }
        } else {
            Score { num: self.num, den: 2 * self.den }
        }
    }
}

/// One search hit: a ranked, scored chunk with its provenance.
#[derive(Debug, Clone)]
pub struct SearchResult {
    /// One-based rank in the result list.
    pub rank: u32,
    /// Relevance score; higher is better.
    pub score: Score,
    /// The matched chunk.
    pub chunk: Chunk,
    /// Source URI of the owning document.
    pub source_uri: String,
    /// Collection of the owning document.
    pub collection: String,
}

/// A full search answer.
#[derive(Debug, Clone)]
pub struct SearchResults {
    /// The query as asked.
    pub query: String,
    /// Number of results returned.
    pub total_results: usize,
    /// Time the search took, in milliseconds.
    pub latency_ms: u64,
    /// The ranked results.
    pub results: Vec<SearchResult>,
}

/// Derived counts over the store.
#[derive(Debug, Clone)]
pub struct Stats {
    /// Number of collections.
    pub collections: u64,
    /// Number of documents.
    pub documents: u64,
    /// Number of chunks.
    pub chunks: u64,
    /// Number of stored embeddings.
    pub embeddings: u64,
    /// Estimated storage footprint in bytes.
    pub storage_bytes: u64,
    /// The collection filter that was applied, if any.
    pub filter: Option<String>,
}

} // verus!
