//! The recursive content-aware chunker.
//!
//! Text is split along an ordered separator cascade chosen by content
//! type; pieces are accumulated greedily up to a token bound, flushed
//! subject to a minimum-token gate, and oversized pieces recurse on the
//! remaining separators, falling back to size-splitting when no
//! separator is left. Line ranges are tracked from per-part line counts;
//! for chunks joined across separators they are approximate.

use crate::error::RagError;
use crate::types::ContentType;
use vstd::prelude::*;
use vstd::string::*;

verus! {

/// How tokens are counted. Token counts are approximations: the default
/// charges one token per four bytes of text (at least one), and the word
/// counter charges one per whitespace-separated word, splitting on the
/// ASCII space-like characters — on ASCII text this agrees with Unicode
/// whitespace splitting.
#[derive(Debug, Clone, Copy, PartialEq, Eq, Structural)]
pub enum TokenCounter {
    /// One token per four bytes, and at least one.
    ApproxBytes,
    /// One token per whitespace-separated word.
    WhitespaceWords,
}

/// Whitespace for the word counter: the ASCII space-like characters.
pub open spec fn is_space(c: char) -> bool {
    c == ' ' || c == '\t' || c == '\n' || c == '\r' || c == '\u{0b}' || c == '\u{0c}'
}

/// Words remaining from position `i` on, given whether position `i`
/// continues a word.
pub open spec fn words_from(s: Seq<char>, i: int, in_word: bool) -> nat
    decreases s.len() - i when 0 <= i <= s.len()
{
    if i >= s.len() {
        0
    } else if is_space(s[i]) {
        words_from(s, i + 1, false)
    } else if in_word {
        words_from(s, i + 1, true)
    } else {
        1 + words_from(s, i + 1, true)
    }
}

/// Number of whitespace-separated words in a text.
pub open spec fn word_count(s: Seq<char>) -> nat {
    words_from(s, 0, false)
}

/// The token count a counter assigns to a text.
pub open spec fn spec_count_tokens(c: TokenCounter, s: Seq<char>) -> nat {
    match c {
        TokenCounter::ApproxBytes => {
            let b = vstd::utf8::encode_utf8(s).len() as usize;
            if b / 4 == 0 {
                1
            } else {
                (b / 4) as nat
            }
        },
        TokenCounter::WhitespaceWords => word_count(s),
    }
}

/// Newlines in a text.
pub open spec fn count_nl(s: Seq<char>) -> nat
    decreases s.len(),
{
    if s.len() == 0 {
        0
    } else {
        count_nl(s.drop_last()) + if s.last() == '\n' {
            1nat
        } else {
            0nat
        }
    }
}

/// Number of lines in a text: zero for the empty text, otherwise one
/// more than the newlines before the final character.
pub open spec fn line_count(s: Seq<char>) -> nat {
    if s.len() == 0 {
        0
    } else {
        1 + count_nl(s.take(s.len() - 1))
    }
}

/// Count the lines of a text.
pub fn line_count_str(s: &str) -> (r: usize)
    ensures
        r as nat == line_count(s@),
{
    let len = s.unicode_len();
    if len == 0 {
        return 0;
    }
    let mut count: usize = 0;
    let mut i: usize = 0;
    while i + 1 < len
        invariant
            i < len,
            len == s@.len(),
            count as nat == count_nl(s@.take(i as int)),
            count <= i,
        decreases len - i,
    {
        proof {
            assert(s@.take(i + 1).drop_last() =~= s@.take(i as int));
        }
        if s.get_char(i) == '\n' {
            count += 1;
        }
        i += 1;
    }
    count + 1
}

/// Add a line count onto a cursor, stopping at the largest line number.
fn sat_add_lines(a: u32, b: usize) -> (r: u32)
    ensures
        r >= a,
        r as nat == vstd::math::min(a as int + b as int, u32::MAX as int) as nat,
{
    let sum: u128 = (a as u128) + (b as u128);
    if sum > u32::MAX as u128 {
        u32::MAX
    } else {
        sum as u32
    }
}

/// The last line of a chunk that starts at `start` and ends just before
/// line `cursor`: one less than the cursor, but never before `start`.
fn clamp_end(start: u32, cursor: u32) -> (r: u32)
    ensures
        r >= start,
        cursor > start ==> r == cursor - 1,
        cursor <= start ==> r == start,
{
    if cursor > start {
        cursor - 1
    } else {
        start
    }
}

/// One chunk of a document: its text, token count, and line range.
#[derive(Debug, Clone)]
pub struct ChunkData {
    /// The chunk text.
    pub content: String,
    /// Token count of the text, as the chunker's counter assigns it.
    pub token_count: usize,
    /// First line of the chunk in the source, one-based.
    pub start_line: u32,
    /// Last line of the chunk in the source, one-based, inclusive.
    pub end_line: u32,
    /// Whether the size-splitting fallback produced this chunk; the
    /// minimum-token gate does not apply to such chunks.
    pub from_size_split: bool,
}

/// The concatenated text of a chunk list, in order.
pub open spec fn concat_chunks(s: Seq<ChunkData>) -> Seq<char>
    decreases s.len(),
{
    if s.len() == 0 {
        Seq::<char>::empty()
    } else {
        concat_chunks(s.drop_last()) + s.last().content@
    }
}

/// Well-formedness of a produced chunk: text nonempty, token count
/// exactly what the counter assigns, and a valid one-based line range.
pub open spec fn chunk_data_wf(c: ChunkData, counter: TokenCounter) -> bool {
    &&& c.content@.len() > 0
    &&& c.token_count as nat == spec_count_tokens(counter, c.content@)
    &&& 1 <= c.start_line <= c.end_line
}

/// Chunking bounds.
#[derive(Debug, Clone)]
pub struct ChunkConfig {
    /// Largest number of tokens per chunk.
    pub max_tokens: usize,
    /// Smallest number of tokens a gated chunk may keep.
    pub min_tokens: usize,
    /// Token overlap between neighboring chunks.
    pub overlap_tokens: usize,
}

impl Default for ChunkConfig {
    /// The default bounds: 512 tokens at most, 50 at least, no overlap.
    fn default() -> (r: Self)
        ensures
            r.max_tokens == 512,
            r.min_tokens == 50,
            r.overlap_tokens == 0,
    {
        ChunkConfig { max_tokens: 512, min_tokens: 50, overlap_tokens: 0 }
    }
}

/// The separator cascade for a content type, first separator first.
pub open spec fn spec_separators(content_type: ContentType) -> Seq<Seq<char>> {
    match content_type {
        ContentType::Markdown => seq!["\n## "@, "\n### "@, "\n\n"@, "\n"@, ". "@, " "@],
        ContentType::Rust | ContentType::Python | ContentType::TypeScript
            | ContentType::JavaScript | ContentType::Go | ContentType::Java | ContentType::Cpp
            | ContentType::C => seq![
            "\n\n"@,
            "\nfn "@,
            "\ndef "@,
            "\nfunc "@,
            "\nclass "@,
            "\nimpl "@,
            "\n"@,
            " "@,
        ],
        ContentType::Json | ContentType::Yaml | ContentType::Toml => seq![
            "\n\n"@,
            "\n"@,
            ", "@,
            " "@,
        ],
        _ => seq!["\n\n"@, "\n"@, ". "@, " "@],
    }
}

/// A splitter that can chunk text by content type within token bounds.
pub trait Chunker: Sized {
    /// The token counter this chunker applies.
    spec fn counter(&self) -> TokenCounter;

    /// Split `content` into chunks within `config`'s bounds.
    ///
    /// Empty input yields no chunks; nonempty input yields at least one
    /// chunk under the byte counter. Every chunk is well-formed for this
    /// chunker's counter. Content that already fits the token bound
    /// comes back as the single chunk it is, however small, covering
    /// lines one through its line count; content over the bound yields
    /// only chunks that respect both token bounds, except those the
    /// size fallback produced.
    fn chunk(&self, content: &str, content_type: ContentType, config: &ChunkConfig) -> (r: Result<
        Vec<ChunkData>,
        RagError,
    >)
        requires
            config.max_tokens >= 1,
        ensures
            r matches Ok(chunks) ==> {
                &&& content@.len() == 0 ==> chunks@.len() == 0
                &&& (content@.len() > 0 && self.counter() == TokenCounter::ApproxBytes)
                    ==> chunks@.len() >= 1
                &&& forall|i: int|
                    0 <= i < chunks@.len() ==> chunk_data_wf(#[trigger] chunks@[i], self.counter())
                &&& forall|i: int|
                    0 <= i < chunks@.len() ==> (#[trigger] chunks@[i].from_size_split || (
                    config.min_tokens <= chunks@[i].token_count <= config.max_tokens) || (
                    chunks@.len() == 1 && chunks@[0].content@ == content@))
                &&& spec_count_tokens(self.counter(), content@) > config.max_tokens
                    ==> forall|i: int|
                    0 <= i < chunks@.len() ==> ((#[trigger] chunks@[i]).from_size_split || (
                    config.min_tokens <= chunks@[i].token_count <= config.max_tokens))
                &&& forall|i: int|
                    0 <= i < chunks@.len() && (#[trigger] chunks@[i]).from_size_split
                        ==> chunks@[i].content@.len() <= 4 * config.max_tokens
                &&& (content@.len() > 0 && spec_count_tokens(self.counter(), content@)
                    <= config.max_tokens) ==> chunks@.len() == 1 && chunks@[0].content@
                    == content@ && chunks@[0].start_line == 1 && chunks@[0].end_line as int
                    == vstd::math::min(line_count(content@) as int, u32::MAX as int)
                    && !chunks@[0].from_size_split
            },
            r is Ok,
    ;

    /// The content types this chunker accepts.
    fn supported_types(&self) -> (r: Vec<ContentType>)
        ensures
            r@.len() == 16,
    ;
}

/// The recursive separator-cascade chunker.
pub struct RecursiveChunker {
    /// The token counter in use.
    pub counter: TokenCounter,
}

/// Append every element of `src` to `dst`, in order.
fn append_all(dst: &mut Vec<ChunkData>, src: Vec<ChunkData>)
    ensures
        final(dst)@ == old(dst)@ + src@,
{
    let mut src = src;
    let ghost all = old(dst)@ + src@;
    while src.len() > 0
        invariant
            dst@ + src@ == all,
        decreases src@.len(),
    {
        let c = src.remove(0);
        dst.push(c);
        proof {
            assert(dst@ + src@ =~= all);
        }
    }
    proof {
        assert(dst@ =~= all);
    }
}

/// Whether `sep` occurs in `text` at character position `i`.
fn matches_at(text: &str, sep: &str, i: usize) -> (r: bool)
    requires
        i + sep@.len() <= text@.len(),
    ensures
        r == (text@.subrange(i as int, i as int + sep@.len() as int) == sep@),
{
    let m = sep.unicode_len();
    let n = text.unicode_len();
    let ghost sub = text@.subrange(i as int, i as int + sep@.len() as int);
    let mut j: usize = 0;
    while j < m
        invariant
            j <= m,
            m == sep@.len(),
            n == text@.len(),
            i + m <= n,
            sub == text@.subrange(i as int, i as int + sep@.len() as int),
            forall|k: int| 0 <= k < j ==> sub[k] == sep@[k],
        decreases m - j,
    {
        if text.get_char(i + j) != sep.get_char(j) {
            proof {
                assert(sub[j as int] != sep@[j as int]);
            }
            return false;
        }
        j += 1;
    }
    proof {
        assert(sub =~= sep@);
    }
    true
}

impl RecursiveChunker {
    /// Create a chunker with the default four-bytes-per-token counter.
    pub fn new() -> (r: Self)
        ensures
            r.counter == TokenCounter::ApproxBytes,
    {
        Self { counter: TokenCounter::ApproxBytes }
    }

    /// Create a chunker with the given token counter.
    pub fn with_token_counter(counter: TokenCounter) -> (r: Self)
        ensures
            r.counter == counter,
    {
        Self { counter }
    }

    /// Count the tokens of a text with this chunker's counter.
    pub fn count_tokens(&self, text: &str) -> (r: usize)
        ensures
            r as nat == spec_count_tokens(self.counter, text@),
    {
        match self.counter {
            TokenCounter::ApproxBytes => {
                let b = text.len();
                let t = b / 4;
                if t == 0 {
                    1
                } else {
                    t
                }
            },
            TokenCounter::WhitespaceWords => {
                let len = text.unicode_len();
                let mut count: usize = 0;
                let mut in_word = false;
                let mut i: usize = 0;
                while i < len
                    invariant
                        i <= len,
                        len == text@.len(),
                        count <= i,
                        count as nat + words_from(text@, i as int, in_word) == word_count(text@),
                    decreases len - i,
                {
                    let c = text.get_char(i);
                    if c == ' ' || c == '\t' || c == '\n' || c == '\r' || c == '\u{0b}' || c
                        == '\u{0c}' {
                        in_word = false;
                    } else {
                        if !in_word {
                            count += 1;
                        }
                        in_word = true;
                    }
                    i += 1;
                }
                count
            },
        }
    }

    /// The separator cascade for a content type.
    pub fn separators(&self, content_type: &ContentType) -> (r: Vec<&'static str>)
        ensures
            r.deep_view() == spec_separators(*content_type),
            r@.len() >= 1,
    {
        let mut v: Vec<&'static str> = Vec::new();
        match content_type {
            ContentType::Markdown => {
                v.push("\n## ");
                v.push("\n### ");
                v.push("\n\n");
                v.push("\n");
                v.push(". ");
                v.push(" ");
            },
            ContentType::Rust | ContentType::Python | ContentType::TypeScript
                | ContentType::JavaScript | ContentType::Go | ContentType::Java | ContentType::Cpp
                | ContentType::C => {
                v.push("\n\n");
                v.push("\nfn ");
                v.push("\ndef ");
                v.push("\nfunc ");
                v.push("\nclass ");
                v.push("\nimpl ");
                v.push("\n");
                v.push(" ");
            },
            ContentType::Json | ContentType::Yaml | ContentType::Toml => {
                v.push("\n\n");
                v.push("\n");
                v.push(", ");
                v.push(" ");
            },
            _ => {
                v.push("\n\n");
                v.push("\n");
                v.push(". ");
                v.push(" ");
            },
        }
        proof {
            assert(v.deep_view() =~~= spec_separators(*content_type));
        }
        v
    }

    /// Split text at each occurrence of a separator, dropping empty
    /// pieces; an empty separator splits into single characters.
    fn split_by_separator<'a>(&self, text: &'a str, separator: &str) -> (r: Vec<&'a str>)
        ensures
            forall|i: int| 0 <= i < r@.len() ==> (#[trigger] r@[i])@.len() > 0,
    {
        let len = text.unicode_len();
        let mut parts: Vec<&'a str> = Vec::new();
        let m = separator.unicode_len();
        if m == 0 {
            let mut i: usize = 0;
            while i < len
                invariant
                    i <= len,
                    len == text@.len(),
                    forall|k: int| 0 <= k < parts@.len() ==> (#[trigger] parts@[k])@.len() > 0,
                decreases len - i,
            {
                parts.push(text.substring_char(i, i + 1));
                i += 1;
            }
            return parts;
        }
        let mut last: usize = 0;
        let mut i: usize = 0;
        while i < len
            invariant
                last <= i,
                i <= len,
                len == text@.len(),
                m == separator@.len(),
                m >= 1,
                forall|k: int| 0 <= k < parts@.len() ==> (#[trigger] parts@[k])@.len() > 0,
            decreases len - i,
        {
            if m <= len - i && matches_at(text, separator, i) {
                if i > last {
                    parts.push(text.substring_char(last, i));
                }
                last = i + m;
                i = i + m;
            } else {
                i += 1;
            }
        }
        if last < len {
            parts.push(text.substring_char(last, len));
        }
        parts
    }

    /// Split an oversized text into pieces of roughly four characters per
    /// token, backing off to the nearest prior whitespace. Under the
    /// byte counter every piece is kept, so the pieces concatenate back
    /// to the text.
    #[verifier::loop_isolation(false)]
    fn split_by_size(&self, text: &str, config: &ChunkConfig, start_line: u32) -> (r: Vec<
        ChunkData,
    >)
        requires
            1 <= start_line,
            config.max_tokens >= 1,
            text@.len() > 0,
        ensures
            forall|i: int| 0 <= i < r@.len() ==> chunk_data_wf(#[trigger] r@[i], self.counter),
            forall|i: int| 0 <= i < r@.len() ==> (#[trigger] r@[i]).start_line >= start_line,
            forall|i: int| 0 <= i < r@.len() ==> (#[trigger] r@[i]).from_size_split,
            forall|i: int| 0 <= i < r@.len() ==> (#[trigger] r@[i]).content@.len() <= 4
                * config.max_tokens,
            self.counter == TokenCounter::ApproxBytes ==> r@.len() >= 1 && concat_chunks(r@)
                == text@,
    {
        let len = text.unicode_len();
        let mut chunks: Vec<ChunkData> = Vec::new();
        let target_chars: usize = if config.max_tokens > usize::MAX / 4 {
            usize::MAX
        } else {
            config.max_tokens * 4
        };
        let mut start: usize = 0;
        let mut current_line: u32 = start_line;
        while start < len
            invariant
                start <= len,
                current_line >= start_line,
                target_chars >= 1,
                forall|i: int|
                    0 <= i < chunks@.len() ==> chunk_data_wf(#[trigger] chunks@[i], self.counter),
                forall|i: int|
                    0 <= i < chunks@.len() ==> (#[trigger] chunks@[i]).start_line >= start_line,
                forall|i: int| 0 <= i < chunks@.len() ==> (#[trigger] chunks@[i]).from_size_split,
                target_chars as int <= 4 * (config.max_tokens as int),
                forall|i: int|
                    0 <= i < chunks@.len() ==> (#[trigger] chunks@[i]).content@.len() <= 4
                        * config.max_tokens,
                self.counter == TokenCounter::ApproxBytes ==> concat_chunks(chunks@)
                    == text@.take(start as int),
                self.counter == TokenCounter::ApproxBytes ==> (chunks@.len() >= 1 || start == 0),
            decreases len - start,
        {
            let end: usize = if len - start < target_chars {
                len
            } else {
                start + target_chars
            };
            let mut actual_end: usize = end;
            if end < len {
                let mut j: usize = end;
                while j > start
                    invariant
                        start <= j <= end,
                        end <= len,
                        len == text@.len(),
                        actual_end == end,
                    decreases j,
                {
                    let c = text.get_char(j - 1);
                    if c == ' ' || c == '\n' {
                        break;
                    }
                    j -= 1;
                }
                if j > start {
                    actual_end = j;
                }
            }
            let piece = text.substring_char(start, actual_end);
            let tokens = self.count_tokens(piece);
            let lines_in_chunk = line_count_str(piece);
            let ghost prev_chunks = chunks@;
            if tokens > 0 {
                proof {
                    assert(line_count(piece@) >= 1);
                }
                chunks.push(
                    ChunkData {
                        content: piece.to_owned(),
                        token_count: tokens,
                        start_line: current_line,
                        end_line: sat_add_lines(current_line, lines_in_chunk - 1),
                        from_size_split: true,
                    },
                );
                proof {
                    assert(chunks@.drop_last() =~= prev_chunks);
                    if self.counter == TokenCounter::ApproxBytes {
                        assert(concat_chunks(chunks@) == concat_chunks(prev_chunks) + piece@);
                        assert(text@.take(start as int) + text@.subrange(
                            start as int,
                            actual_end as int,
                        ) =~= text@.take(actual_end as int));
                    }
                }
            } else {
                proof {
                    if self.counter == TokenCounter::ApproxBytes {
                        assert(spec_count_tokens(TokenCounter::ApproxBytes, piece@) >= 1);
                        assert(false);
                    }
                }
            }
            current_line = sat_add_lines(current_line, lines_in_chunk);
            start = actual_end;
        }
        proof {
            assert(text@.take(text@.len() as int) =~= text@);
        }
        chunks
    }

    /// Chunk a text along the separator cascade from `sep_start` on:
    /// accumulate parts while they fit, flush past the minimum gate, and
    /// recurse on oversized parts with the remaining separators.
    #[verifier::loop_isolation(false)]
    fn chunk_recursive(
        &self,
        text: &str,
        separators: &Vec<&'static str>,
        sep_start: usize,
        config: &ChunkConfig,
        start_line: u32,
    ) -> (r: Vec<ChunkData>)
        requires
            1 <= start_line,
            config.max_tokens >= 1,
            sep_start <= separators@.len(),
            text@.len() > 0,
        ensures
            forall|i: int| 0 <= i < r@.len() ==> chunk_data_wf(#[trigger] r@[i], self.counter),
            forall|i: int| 0 <= i < r@.len() ==> (#[trigger] r@[i]).start_line >= start_line,
            forall|i: int|
                0 <= i < r@.len() ==> !(#[trigger] r@[i]).from_size_split ==> r@[i].token_count
                    <= config.max_tokens,
            spec_count_tokens(self.counter, text@) > config.max_tokens ==> forall|i: int|
                0 <= i < r@.len() ==> ((#[trigger] r@[i]).from_size_split || r@[i].token_count
                    >= config.min_tokens),
            forall|i: int|
                0 <= i < r@.len() && (#[trigger] r@[i]).from_size_split ==> r@[i].content@.len()
                    <= 4 * config.max_tokens,
            self.counter == TokenCounter::ApproxBytes ==> r@.len() >= 1,
            spec_count_tokens(self.counter, text@) <= config.max_tokens ==> r@.len() == 1
                && r@[0].content@ == text@ && r@[0].start_line == start_line
                && r@[0].end_line as int == vstd::math::min(
                start_line as int + line_count(text@) as int - 1,
                u32::MAX as int,
            ) && !r@[0].from_size_split,
        decreases separators@.len() - sep_start,
    {
        let tokens = self.count_tokens(text);
        if tokens <= config.max_tokens {
            let lc = line_count_str(text);
            proof {
                assert(line_count(text@) >= 1);
            }
            let mut single: Vec<ChunkData> = Vec::new();
            single.push(
                ChunkData {
                    content: text.to_owned(),
                    token_count: tokens,
                    start_line,
                    end_line: sat_add_lines(start_line, lc - 1),
                    from_size_split: false,
                },
            );
            return single;
        }
        let mut si = sep_start;
        while si < separators.len()
            invariant
                sep_start <= si <= separators@.len(),
            decreases separators@.len() - si,
        {
            let parts = self.split_by_separator(text, separators[si]);
            if parts.len() > 1 {
                let mut chunks: Vec<ChunkData> = Vec::new();
                let mut current_chunk = String::new();
                let mut chunk_start_line: u32 = start_line;
                let mut current_line: u32 = start_line;
                let mut pi: usize = 0;
                while pi < parts.len()
                    invariant
                        pi <= parts@.len(),
                        current_line >= start_line,
                        chunk_start_line >= start_line,
                        current_chunk@.len() > 0 ==> spec_count_tokens(
                            self.counter,
                            current_chunk@,
                        ) <= config.max_tokens,
                        forall|i: int|
                            0 <= i < chunks@.len() ==> chunk_data_wf(
                                #[trigger] chunks@[i],
                                self.counter,
                            ),
                        forall|i: int|
                            0 <= i < chunks@.len() ==> (#[trigger] chunks@[i]).start_line
                                >= start_line,
                        forall|i: int|
                            0 <= i < chunks@.len() ==> !(#[trigger] chunks@[i]).from_size_split
                                ==> chunks@[i].token_count <= config.max_tokens,
                        forall|i: int|
                            0 <= i < chunks@.len() ==> ((#[trigger] chunks@[i]).from_size_split
                                || chunks@[i].token_count >= config.min_tokens),
                        forall|i: int|
                            0 <= i < chunks@.len() && (#[trigger] chunks@[i]).from_size_split
                                ==> chunks@[i].content@.len() <= 4 * config.max_tokens,
                    decreases parts@.len() - pi,
                {
                    let part: &str = parts[pi];
                    let accumulating = !current_chunk.as_str().is_empty();
                    let part_with_sep: String = if accumulating {
                        let mut t = current_chunk.clone();
                        t.append(separators[si]);
                        t.append(part);
                        t
                    } else {
                        part.to_owned()
                    };
                    let combined = self.count_tokens(part_with_sep.as_str());
                    if combined <= config.max_tokens {
                        if !accumulating {
                            chunk_start_line = current_line;
                        }
                        current_chunk = part_with_sep;
                    } else if !accumulating {
                        if si + 1 >= separators.len() {
                            append_all(
                                &mut chunks,
                                self.split_by_size(part, config, current_line),
                            );
                        } else {
                            append_all(
                                &mut chunks,
                                self.chunk_recursive(
                                    part,
                                    separators,
                                    si + 1,
                                    config,
                                    current_line,
                                ),
                            );
                        }
                    } else {
                        let flushed_tokens = self.count_tokens(current_chunk.as_str());
                        if flushed_tokens >= config.min_tokens {
                            chunks.push(
                                ChunkData {
                                    content: current_chunk.clone(),
                                    token_count: flushed_tokens,
                                    start_line: chunk_start_line,
                                    end_line: clamp_end(chunk_start_line, current_line),
                                    from_size_split: false,
                                },
                            );
                        }
                        let part_tokens = self.count_tokens(part);
                        if part_tokens <= config.max_tokens {
                            current_chunk = part.to_owned();
                            chunk_start_line = current_line;
                        } else {
                            if si + 1 >= separators.len() {
                                append_all(
                                    &mut chunks,
                                    self.split_by_size(part, config, current_line),
                                );
                            } else {
                                append_all(
                                    &mut chunks,
                                    self.chunk_recursive(
                                        part,
                                        separators,
                                        si + 1,
                                        config,
                                        current_line,
                                    ),
                                );
                            }
                            current_chunk = String::new();
                        }
                    }
                    current_line = sat_add_lines(current_line, line_count_str(part));
                    pi += 1;
                }
                if !current_chunk.as_str().is_empty() {
                    let flushed_tokens = self.count_tokens(current_chunk.as_str());
                    if flushed_tokens >= config.min_tokens {
                        chunks.push(
                            ChunkData {
                                content: current_chunk,
                                token_count: flushed_tokens,
                                start_line: chunk_start_line,
                                end_line: clamp_end(chunk_start_line, current_line),
                                from_size_split: false,
                            },
                        );
                    }
                }
                if chunks.len() > 0 {
                    return chunks;
                }
            }
            si += 1;
        }
        self.split_by_size(text, config, start_line)
    }
}

impl Default for RecursiveChunker {
    /// The default chunker counts a token per four bytes.
    fn default() -> (r: Self)
        ensures
            r.counter == TokenCounter::ApproxBytes,
    {
        Self::new()
    }
}

impl Chunker for RecursiveChunker {
    open spec fn counter(&self) -> TokenCounter {
        self.counter
    }

    #[verifier::loop_isolation(false)]
    fn chunk(&self, content: &str, content_type: ContentType, config: &ChunkConfig) -> (r: Result<
        Vec<ChunkData>,
        RagError,
    >) {
        if content.is_empty() {
            return Ok(Vec::new());
        }
        let tokens = self.count_tokens(content);
        if tokens <= config.max_tokens {
            let lc = line_count_str(content);
            proof {
                assert(line_count(content@) >= 1);
            }
            let mut single: Vec<ChunkData> = Vec::new();
            single.push(
                ChunkData {
                    content: content.to_owned(),
                    token_count: tokens,
                    start_line: 1,
                    end_line: sat_add_lines(1, lc - 1),
                    from_size_split: false,
                },
            );
            return Ok(single);
        }
        let separators = self.separators(&content_type);
        let mut pieces = self.chunk_recursive(content, &separators, 0, config, 1);
        let ghost total = pieces@.len();
        let mut out: Vec<ChunkData> = Vec::new();
        // content is over the bound here, so every piece passes the
        // minimum-token gate: nothing is dropped
        while pieces.len() > 0
            invariant
                out@.len() + pieces@.len() == total,
                forall|i: int|
                    0 <= i < pieces@.len() ==> chunk_data_wf(#[trigger] pieces@[i], self.counter),
                forall|i: int|
                    0 <= i < pieces@.len() ==> !(#[trigger] pieces@[i]).from_size_split
                        ==> pieces@[i].token_count <= config.max_tokens,
                forall|i: int|
                    0 <= i < pieces@.len() ==> ((#[trigger] pieces@[i]).from_size_split
                        || pieces@[i].token_count >= config.min_tokens),
                forall|i: int|
                    0 <= i < pieces@.len() && (#[trigger] pieces@[i]).from_size_split
                        ==> pieces@[i].content@.len() <= 4 * config.max_tokens,
                forall|i: int|
                    0 <= i < out@.len() ==> chunk_data_wf(#[trigger] out@[i], self.counter),
                forall|i: int|
                    0 <= i < out@.len() ==> (#[trigger] out@[i]).from_size_split || (
                    config.min_tokens <= out@[i].token_count <= config.max_tokens),
                forall|i: int|
                    0 <= i < out@.len() && (#[trigger] out@[i]).from_size_split
                        ==> out@[i].content@.len() <= 4 * config.max_tokens,
            decreases pieces@.len(),
        {
            let ghost prev_pieces = pieces@;
            let c = pieces.remove(0);
            proof {
                assert(c == prev_pieces[0]);
            }
            if c.from_size_split || c.token_count >= config.min_tokens {
                out.push(c);
            }
        }
        Ok(out)
    }

    fn supported_types(&self) -> (r: Vec<ContentType>) {
        let mut v: Vec<ContentType> = Vec::new();
        v.push(ContentType::PlainText);
        v.push(ContentType::Markdown);
        v.push(ContentType::Rust);
        v.push(ContentType::Python);
        v.push(ContentType::TypeScript);
        v.push(ContentType::JavaScript);
        v.push(ContentType::Go);
        v.push(ContentType::Java);
        v.push(ContentType::Cpp);
        v.push(ContentType::C);
        v.push(ContentType::Ruby);
        v.push(ContentType::Json);
        v.push(ContentType::Yaml);
        v.push(ContentType::Toml);
        v.push(ContentType::Html);
        v.push(ContentType::Unknown);
        v
    }
}

/// A chunker that selects a strategy by content type; today every type
/// is served by the recursive separator cascade.
pub struct AdaptiveChunker {
    /// The cascade chunker that serves every content type.
    pub recursive: RecursiveChunker,
}

impl AdaptiveChunker {
    /// Create an adaptive chunker with the default token counter.
    pub fn new() -> (r: Self)
        ensures
            r.recursive.counter == TokenCounter::ApproxBytes,
    {
        Self { recursive: RecursiveChunker::new() }
    }

    /// Create an adaptive chunker with the given token counter.
    pub fn with_token_counter(counter: TokenCounter) -> (r: Self)
        ensures
            r.recursive.counter == counter,
    {
        Self { recursive: RecursiveChunker::with_token_counter(counter) }
    }
}

impl Default for AdaptiveChunker {
    /// The default adaptive chunker counts a token per four bytes.
    fn default() -> (r: Self)
        ensures
            r.recursive.counter == TokenCounter::ApproxBytes,
    {
        Self::new()
    }
}

impl Chunker for AdaptiveChunker {
    open spec fn counter(&self) -> TokenCounter {
        self.recursive.counter
    }

    fn chunk(&self, content: &str, content_type: ContentType, config: &ChunkConfig) -> (r: Result<
        Vec<ChunkData>,
        RagError,
    >) {
        self.recursive.chunk(content, content_type, config)
    }

    fn supported_types(&self) -> (r: Vec<ContentType>) {
        self.recursive.supported_types()
    }
}

} // verus!
