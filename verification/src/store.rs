//! The deterministic in-memory storage engine.
//!
//! Collections, documents, chunks, and embedding payloads live in plain
//! tables with the relational rules of the schema: unique keys, foreign
//! keys, dense chunk indexes per document, and cascading deletes. Every
//! write stamps the touched rows from a store-owned hybrid logical
//! clock, so each write carries a strictly greater stamp than any prior
//! write of this store. Embedding payloads are opaque bytes here;
//! nearest-neighbour ranking over them is floating-point work and lives
//! with the native vector index, while this engine serves the lexical
//! side and reports the vector side as unavailable.

use crate::error::RagError;
use crate::hlc::hlc_le;
use crate::hlc::hlc_lt;
use crate::hlc::HybridLogicalClock;
use crate::types::ascii_lower;
use crate::types::chunk_eq;
use crate::types::coll_eq;
use crate::types::doc_eq;
use crate::types::Chunk;
use crate::types::Collection;
use crate::types::Document;
use crate::types::Score;
use crate::types::Stats;
use crate::types::Ulid;
use vstd::prelude::*;
use vstd::string::*;

verus! {

/// Strict lexicographic order on character sequences: the first
/// differing position decides, and a strict prefix is smaller.
pub open spec fn chars_lt(a: Seq<char>, b: Seq<char>) -> bool
    decreases a.len(),
{
    if b.len() == 0 {
        false
    } else if a.len() == 0 {
        true
    } else if a[0] != b[0] {
        a[0] < b[0]
    } else {
        chars_lt(a.drop_first(), b.drop_first())
    }
}

proof fn lemma_chars_lt_trichotomy(a: Seq<char>, b: Seq<char>)
    requires
        !chars_lt(a, b),
        !chars_lt(b, a),
    ensures
        a == b,
    decreases a.len(),
{
    if a.len() == 0 || b.len() == 0 {
        assert(a =~= b);
    } else {
        lemma_chars_lt_trichotomy(a.drop_first(), b.drop_first());
        assert(a =~= seq![a[0]] + a.drop_first());
        assert(b =~= seq![b[0]] + b.drop_first());
    }
}

proof fn lemma_chars_lt_trans(a: Seq<char>, b: Seq<char>, c: Seq<char>)
    requires
        chars_lt(a, b),
        chars_lt(b, c),
    ensures
        chars_lt(a, c),
    decreases a.len() + b.len() + c.len(),
{
    if a.len() == 0 || b.len() == 0 || c.len() == 0 {
    } else {
        if a[0] == b[0] && b[0] == c[0] {
            lemma_chars_lt_trans(a.drop_first(), b.drop_first(), c.drop_first());
        }
    }
}

proof fn lemma_chars_lt_irrefl(a: Seq<char>)
    ensures
        !chars_lt(a, a),
    decreases a.len(),
{
    if a.len() > 0 {
        lemma_chars_lt_irrefl(a.drop_first());
    }
}

/// Compare two strings in strict lexicographic character order.
pub fn str_lt(a: &str, b: &str) -> (r: bool)
    ensures
        r == chars_lt(a@, b@),
{
    let alen = a.unicode_len();
    let blen = b.unicode_len();
    proof {
        assert(a@.skip(0) =~= a@);
        assert(b@.skip(0) =~= b@);
    }
    let mut i: usize = 0;
    loop
        invariant
            i <= alen,
            i <= blen,
            alen == a@.len(),
            blen == b@.len(),
            chars_lt(a@, b@) == chars_lt(a@.skip(i as int), b@.skip(i as int)),
        decreases alen - i,
    {
        if i == blen {
            proof {
                assert(b@.skip(i as int).len() == 0);
            }
            return false;
        }
        if i == alen {
            proof {
                assert(a@.skip(i as int).len() == 0);
            }
            return true;
        }
        let ca = a.get_char(i);
        let cb = b.get_char(i);
        proof {
            assert(a@.skip(i as int)[0] == a@[i as int]);
            assert(b@.skip(i as int)[0] == b@[i as int]);
            assert(a@.skip(i as int).drop_first() =~= a@.skip(i + 1));
            assert(b@.skip(i as int).drop_first() =~= b@.skip(i + 1));
        }
        if ca != cb {
            return ca < cb;
        }
        i += 1;
    }
}

/// Compare two strings for character equality.
pub fn str_eq(a: &str, b: &str) -> (r: bool)
    ensures
        r == (a@ == b@),
{
    let alen = a.unicode_len();
    let blen = b.unicode_len();
    if alen != blen {
        proof {
            assert(a@ != b@);
        }
        return false;
    }
    let mut i: usize = 0;
    while i < alen
        invariant
            i <= alen,
            alen == a@.len(),
            alen == b@.len(),
            forall|j: int| 0 <= j < i ==> a@[j] == b@[j],
        decreases alen - i,
    {
        if a.get_char(i) != b.get_char(i) {
            proof {
                assert(a@ != b@);
            }
            return false;
        }
        i += 1;
    }
    proof {
        assert(a@ =~= b@);
    }
    true
}

/// One step of filtering: extending the prefix by one element extends
/// the filtered prefix exactly when the element passes.
pub(crate) proof fn lemma_filter_step<A>(s: Seq<A>, i: int, pred: spec_fn(A) -> bool)
    requires
        0 <= i < s.len(),
    ensures
        s.take(i + 1).filter(pred) == if pred(s[i]) {
            s.take(i).filter(pred).push(s[i])
        } else {
            s.take(i).filter(pred)
        },
{
    reveal(Seq::filter);
    assert(s.take(i + 1).drop_last() =~= s.take(i));
    assert(s.take(i + 1).last() == s[i]);
}

/// Filtering a pushed element keeps it exactly when it passes.
pub(crate) proof fn lemma_filter_push<A>(s: Seq<A>, e: A, pred: spec_fn(A) -> bool)
    ensures
        s.push(e).filter(pred) == if pred(e) {
            s.filter(pred).push(e)
        } else {
            s.filter(pred)
        },
{
    reveal(Seq::filter);
    assert(s.push(e).drop_last() =~= s);
    assert(s.push(e).last() == e);
}

/// Every element of a filtered sequence occurs in the original.
proof fn lemma_filter_subset<A>(s: Seq<A>, pred: spec_fn(A) -> bool)
    ensures
        forall|i: int|
            0 <= i < s.filter(pred).len() ==> exists|k: int|
                0 <= k < s.len() && s[k] == #[trigger] s.filter(pred)[i],
    decreases s.len(),
{
    reveal(Seq::filter);
    if s.len() > 0 {
        lemma_filter_subset(s.drop_last(), pred);
        let f = s.filter(pred);
        let f2 = s.drop_last().filter(pred);
        assert forall|i: int| 0 <= i < f.len() implies exists|k: int|
            0 <= k < s.len() && s[k] == #[trigger] f[i] by {
            if pred(s.last()) && i == f.len() - 1 {
                assert(s[s.len() - 1] == f[i]);
            } else {
                assert(f[i] == f2[i]);
                let k = choose|k: int|
                    0 <= k < s.drop_last().len() && s.drop_last()[k] == f2[i];
                assert(s[k] == f[i]);
            }
        }
    }
}

/// Filtering keeps every pairwise relation of the original order.
proof fn lemma_filter_preserves_rel<A>(s: Seq<A>, pred: spec_fn(A) -> bool, rel: spec_fn(A, A) -> bool)
    requires
        forall|i: int, j: int| 0 <= i < j < s.len() ==> rel(#[trigger] s[i], #[trigger] s[j]),
    ensures
        forall|i: int, j: int|
            0 <= i < j < s.filter(pred).len() ==> rel(
                #[trigger] s.filter(pred)[i],
                #[trigger] s.filter(pred)[j],
            ),
    decreases s.len(),
{
    reveal(Seq::filter);
    if s.len() > 0 {
        lemma_filter_preserves_rel(s.drop_last(), pred, rel);
        lemma_filter_subset(s.drop_last(), pred);
        let f = s.filter(pred);
        let f2 = s.drop_last().filter(pred);
        assert forall|i: int, j: int| 0 <= i < j < f.len() implies rel(
            #[trigger] f[i],
            #[trigger] f[j],
        ) by {
            if pred(s.last()) && j == f.len() - 1 {
                assert(f[i] == f2[i]);
                let k = choose|k: int|
                    0 <= k < s.drop_last().len() && s.drop_last()[k] == f2[i];
                assert(s[k] == f[i]);
                assert(f[j] == s[s.len() - 1]);
                assert(rel(s[k], s[s.len() - 1]));
            } else {
                assert(f[i] == f2[i] && f[j] == f2[j]);
            }
        }
    }
}

/// When everything a narrower test accepts also passes a wider one,
/// filtering by the wider test first changes nothing.
proof fn lemma_filter_subsumed<A>(s: Seq<A>, wide: spec_fn(A) -> bool, narrow: spec_fn(A) -> bool)
    requires
        forall|i: int| 0 <= i < s.len() && narrow(#[trigger] s[i]) ==> wide(s[i]),
    ensures
        s.filter(wide).filter(narrow) == s.filter(narrow),
    decreases s.len(),
{
    reveal(Seq::filter);
    if s.len() > 0 {
        lemma_filter_subsumed(s.drop_last(), wide, narrow);
        if wide(s.last()) {
            assert(s.filter(wide) == s.drop_last().filter(wide).push(s.last()));
            assert(s.filter(wide).drop_last() =~= s.drop_last().filter(wide));
        } else {
            assert(!narrow(s.last()));
            assert(s.filter(wide) == s.drop_last().filter(wide));
        }
    }
}

/// A chunk of a document's chunk list is a chunk of the table, and
/// belongs to that document.
pub(crate) proof fn lemma_doc_chunks_member(cs: Seq<Chunk>, d: Ulid, i: int)
    requires
        0 <= i < doc_chunks(cs, d).len(),
    ensures
        cs.contains(doc_chunks(cs, d)[i]),
        doc_chunks(cs, d)[i].doc_id == d,
{
    lemma_filter_subset(cs, chunk_of(d));
    cs.filter_lemma(chunk_of(d));
    assert(cs.filter(chunk_of(d))[i] == doc_chunks(cs, d)[i]);
    let k = choose|k: int| 0 <= k < cs.len() && cs[k] == cs.filter(chunk_of(d))[i];
    assert(cs[k] == doc_chunks(cs, d)[i]);
}

/// A sequence whose elements all pass a test filters to itself.
pub(crate) proof fn lemma_filter_all<A>(s: Seq<A>, pred: spec_fn(A) -> bool)
    requires
        forall|i: int| 0 <= i < s.len() ==> pred(#[trigger] s[i]),
    ensures
        s.filter(pred) == s,
    decreases s.len(),
{
    reveal(Seq::filter);
    if s.len() > 0 {
        lemma_filter_all(s.drop_last(), pred);
        assert(s.filter(pred) =~= s);
    }
}

/// A sequence whose elements all fail a test filters to nothing.
pub(crate) proof fn lemma_filter_none<A>(s: Seq<A>, pred: spec_fn(A) -> bool)
    requires
        forall|i: int| 0 <= i < s.len() ==> !pred(#[trigger] s[i]),
    ensures
        s.filter(pred).len() == 0,
    decreases s.len(),
{
    reveal(Seq::filter);
    if s.len() > 0 {
        lemma_filter_none(s.drop_last(), pred);
    }
}

/// Whether some collection in the table bears this name.
pub open spec fn has_coll(cs: Seq<Collection>, name: Seq<char>) -> bool {
    exists|i: int| 0 <= i < cs.len() && cs[i].name@ == name
}

/// Whether some document in the table bears this id.
pub open spec fn has_doc_id(ds: Seq<Document>, id: Ulid) -> bool {
    exists|i: int| 0 <= i < ds.len() && ds[i].id == id
}

/// Whether some chunk in the table bears this id.
pub open spec fn has_chunk_id(cs: Seq<Chunk>, id: Ulid) -> bool {
    exists|i: int| 0 <= i < cs.len() && cs[i].id == id
}

/// Select the chunks of one document.
pub open spec fn chunk_of(d: Ulid) -> spec_fn(Chunk) -> bool {
    |c: Chunk| c.doc_id == d
}

/// The chunks of one document, in table order.
pub open spec fn doc_chunks(cs: Seq<Chunk>, d: Ulid) -> Seq<Chunk> {
    cs.filter(chunk_of(d))
}

/// Keep a chunk whose document is among these.
pub open spec fn chunk_alive(docs: Seq<Document>) -> spec_fn(Chunk) -> bool {
    |c: Chunk| has_doc_id(docs, c.doc_id)
}

/// Keep an embedding whose chunk is among these.
pub open spec fn emb_alive(chunks: Seq<Chunk>) -> spec_fn((Ulid, Seq<u8>)) -> bool {
    |e: (Ulid, Seq<u8>)| has_chunk_id(chunks, e.0)
}

/// Keep a collection not bearing this name.
pub open spec fn coll_not_named(name: Seq<char>) -> spec_fn(Collection) -> bool {
    |c: Collection| c.name@ != name
}

/// Keep a document outside the collection of this name.
pub open spec fn doc_outside(name: Seq<char>) -> spec_fn(Document) -> bool {
    |d: Document| d.collection@ != name
}

/// Keep a document not bearing this id.
pub open spec fn doc_not(id: Ulid) -> spec_fn(Document) -> bool {
    |d: Document| d.id != id
}

/// The document as the store persists it, carrying the given stamp.
pub open spec fn doc_with_stamp(d: Document, h: HybridLogicalClock) -> Document {
    Document {
        id: d.id,
        collection: d.collection,
        source_uri: d.source_uri,
        content_hash: d.content_hash,
        raw_content: d.raw_content,
        content_type: d.content_type,
        metadata: d.metadata,
        created_at: d.created_at,
        updated_at: d.updated_at,
        hlc: h,
    }
}

/// The chunk as the store persists it, carrying the given stamp.
pub open spec fn chunk_with_stamp(c: Chunk, h: HybridLogicalClock) -> Chunk {
    Chunk {
        id: c.id,
        doc_id: c.doc_id,
        chunk_index: c.chunk_index,
        content: c.content,
        token_count: c.token_count,
        start_line: c.start_line,
        end_line: c.end_line,
        content_hash: c.content_hash,
        hlc: h,
    }
}

/// Keep a document inside the collection of this name.
pub open spec fn doc_inside(name: Seq<char>) -> spec_fn(Document) -> bool {
    |d: Document| d.collection@ == name
}

/// What a chunk batch must satisfy to be inserted after the given
/// tables: documents present, ids fresh and distinct, and each chunk
/// extending its document's dense index sequence.
pub open spec fn batch_ok(v: StoreView, batch: Seq<Chunk>) -> bool {
    &&& forall|i: int|
        0 <= i < batch.len() ==> has_doc_id(v.documents, (#[trigger] batch[i]).doc_id)
    &&& forall|i: int| 0 <= i < batch.len() ==> !has_chunk_id(v.chunks, (#[trigger] batch[i]).id)
    &&& forall|i: int, j: int|
        0 <= i < j < batch.len() ==> (#[trigger] batch[i]).id != (#[trigger] batch[j]).id
    &&& forall|i: int|
        0 <= i < batch.len() ==> (#[trigger] batch[i]).chunk_index as int == doc_chunks(
            v.chunks + batch.take(i),
            batch[i].doc_id,
        ).len()
}

/// Keep a chunk outside this document.
pub open spec fn chunk_outside(d: Ulid) -> spec_fn(Chunk) -> bool {
    |c: Chunk| c.doc_id != d
}

/// Chunk indexes run densely from zero in order.
pub open spec fn indexed_ok(s: Seq<Chunk>) -> bool {
    forall|k: int| 0 <= k < s.len() ==> (#[trigger] s[k]).chunk_index as int == k
}

/// Whether one sequence occurs in another at this position.
pub open spec fn occurs_at(hay: Seq<char>, needle: Seq<char>, p: int) -> bool {
    0 <= p && p + needle.len() <= hay.len() && hay.subrange(p, p + needle.len()) == needle
}

/// How often a nonempty needle occurs in the text from position `p` on;
/// occurrences may overlap, and an empty needle never occurs.
pub open spec fn count_occ_from(hay: Seq<char>, needle: Seq<char>, p: int) -> nat
    decreases hay.len() - p when 0 <= p <= hay.len()
{
    if needle.len() == 0 || p + needle.len() > hay.len() {
        0
    } else {
        (if occurs_at(hay, needle, p) {
            1nat
        } else {
            0nat
        }) + count_occ_from(hay, needle, p + 1)
    }
}

/// How often a needle occurs in a text.
pub open spec fn count_occurrences(hay: Seq<char>, needle: Seq<char>) -> nat {
    count_occ_from(hay, needle, 0)
}

/// What a keyword hit promises: some stored chunk bears the id, the
/// score is that chunk's occurrence count for the lowercased query, the
/// score is positive, and the chunk sits in the named collection when
/// one was named.
pub open spec fn kw_hit_ok(v: StoreView, q: Seq<char>, cname: Option<Seq<char>>, e: (Ulid, u64)) -> bool {
    exists|c: int|
        0 <= c < v.chunks.len() && e.0 == (#[trigger] v.chunks[c]).id && e.1
            == count_occurrences(ascii_lower(v.chunks[c].content@), ascii_lower(q)) && e.1 > 0 && (
        cname matches Some(n) ==> chunk_in_collection(v, v.chunks[c], n))
}

/// Whether the chunk at table position `c` answers the query: it is in
/// scope for the optional collection filter and the lowercased query
/// occurs in its lowercased text.
pub open spec fn kw_candidate(v: StoreView, q: Seq<char>, cname: Option<Seq<char>>, c: int) -> bool {
    &&& 0 <= c < v.chunks.len()
    &&& (cname matches Some(n) ==> chunk_in_collection(v, v.chunks[c], n))
    &&& count_occurrences(ascii_lower(v.chunks[c].content@), ascii_lower(q)) > 0
}

/// The character view of an optional name.
pub open spec fn spec_opt_name(c: Option<&str>) -> Option<Seq<char>> {
    match c {
        Some(n) => Some(n@),
        None => None,
    }
}

/// Whether a chunk's document belongs to the named collection.
pub open spec fn chunk_in_collection(v: StoreView, c: Chunk, name: Seq<char>) -> bool {
    exists|d: int|
        0 <= d < v.documents.len() && (#[trigger] v.documents[d]).id == c.doc_id
            && v.documents[d].collection@ == name
}

/// Count how often a needle occurs in a text, overlaps included.
#[verifier::loop_isolation(false)]
pub fn count_occ_chars(hay: &Vec<char>, needle: &Vec<char>) -> (r: usize)
    ensures
        r == count_occurrences(hay@, needle@),
{
    let n = needle.len();
    if n == 0 || n > hay.len() {
        return 0;
    }
    let mut count: usize = 0;
    let mut p: usize = hay.len() - n + 1;
    while p > 0
        invariant
            p <= hay@.len() - needle@.len() + 1,
            count + p <= hay@.len() - needle@.len() + 1,
            count == count_occ_from(hay@, needle@, p as int),
        decreases p,
    {
        p -= 1;
        let mut m = true;
        let mut q: usize = 0;
        while q < n
            invariant
                q <= n,
                m <==> forall|t: int| 0 <= t < q ==> hay@[p + t] == needle@[t],
            decreases n - q,
        {
            let same = hay[p + q] == needle[q];
            if m && !same {
                proof {
                    assert(hay@[p + q] != needle@[q as int]);
                }
            }
            m = m && same;
            q += 1;
        }
        proof {
            if m {
                assert(hay@.subrange(p as int, p + needle@.len()) =~= needle@);
                assert(occurs_at(hay@, needle@, p as int));
            } else {
                let t = choose|t: int| 0 <= t < needle@.len() && hay@[p + t] != needle@[t];
                assert(hay@.subrange(p as int, p + needle@.len())[t] != needle@[t]);
                assert(!occurs_at(hay@, needle@, p as int));
            }
        }
        if m {
            count += 1;
        }
    }
    count
}

/// One replicated change, for the sync feed.
#[derive(Debug, Clone)]
pub enum SyncChange {
    /// A collection was created or updated.
    UpsertCollection(Collection),
    /// A collection was deleted, by name.
    DeleteCollection(String),
    /// A document was created or updated.
    UpsertDocument(Document),
    /// A document was deleted, by id.
    DeleteDocument(Ulid),
    /// A chunk was created or updated, with its embedding payload.
    UpsertChunk(Chunk, Vec<u8>),
    /// A chunk was deleted, by id.
    DeleteChunk(Ulid),
}

/// The ghost contents of the store.
pub struct StoreView {
    /// The collection table, sorted by name.
    pub collections: Seq<Collection>,
    /// The document table, in insertion order.
    pub documents: Seq<Document>,
    /// The chunk table, in insertion order.
    pub chunks: Seq<Chunk>,
    /// The embedding table: chunk id and opaque payload bytes.
    pub embeddings: Seq<(Ulid, Seq<u8>)>,
    /// The write clock.
    pub clock: HybridLogicalClock,
    /// Whether embedding writes are accepted.
    pub vector_store: bool,
}

/// The deterministic in-memory store.
pub struct MemoryStore {
    collections: Vec<Collection>,
    documents: Vec<Document>,
    chunks: Vec<Chunk>,
    embeddings: Vec<(Ulid, Vec<u8>)>,
    clock: HybridLogicalClock,
    vector_store: bool,
}

impl View for MemoryStore {
    type V = StoreView;

    closed spec fn view(&self) -> StoreView {
        StoreView {
            collections: self.collections@,
            documents: self.documents@,
            chunks: self.chunks@,
            embeddings: Seq::new(
                self.embeddings@.len(),
                |i: int| (self.embeddings@[i].0, self.embeddings@[i].1@),
            ),
            clock: self.clock,
            vector_store: self.vector_store,
        }
    }
}

/// The store's relational invariant: sorted unique collection names,
/// unique ids, foreign keys, dense chunk indexes per document, and a
/// clock that dominates every row's stamp.
pub open spec fn store_inv(v: StoreView) -> bool {
    &&& forall|i: int, j: int|
        0 <= i < j < v.collections.len() ==> chars_lt(
            (#[trigger] v.collections[i]).name@,
            (#[trigger] v.collections[j]).name@,
        )
    &&& forall|i: int, j: int|
        0 <= i < j < v.documents.len() ==> (#[trigger] v.documents[i]).id != (
        #[trigger] v.documents[j]).id
    &&& forall|i: int|
        0 <= i < v.documents.len() ==> has_coll(
            v.collections,
            (#[trigger] v.documents[i]).collection@,
        )
    &&& forall|i: int, j: int|
        0 <= i < j < v.chunks.len() ==> (#[trigger] v.chunks[i]).id != (#[trigger] v.chunks[j]).id
    &&& forall|i: int|
        0 <= i < v.chunks.len() ==> has_doc_id(v.documents, (#[trigger] v.chunks[i]).doc_id)
    &&& forall|d: Ulid| indexed_ok(#[trigger] doc_chunks(v.chunks, d))
    &&& forall|i: int, j: int|
        0 <= i < j < v.embeddings.len() ==> (#[trigger] v.embeddings[i]).0 != (
        #[trigger] v.embeddings[j]).0
    &&& forall|i: int|
        0 <= i < v.embeddings.len() ==> has_chunk_id(v.chunks, (#[trigger] v.embeddings[i]).0)
    &&& forall|i: int| 0 <= i < v.collections.len() ==> hlc_le((#[trigger] v.collections[i]).hlc, v.clock)
    &&& forall|i: int| 0 <= i < v.documents.len() ==> hlc_le((#[trigger] v.documents[i]).hlc, v.clock)
    &&& forall|i: int| 0 <= i < v.chunks.len() ==> hlc_le((#[trigger] v.chunks[i]).hlc, v.clock)
}

impl MemoryStore {
    /// The store's invariant, as a predicate on itself.
    pub open spec fn wf(&self) -> bool {
        store_inv(self@)
    }

    /// Open an empty in-memory store without vector support: embedding
    /// writes are refused, as when no vector extension is present.
    pub fn open_memory(node_id: u16) -> (r: Self)
        ensures
            r.wf(),
            r@.collections.len() == 0,
            r@.documents.len() == 0,
            r@.chunks.len() == 0,
            r@.embeddings.len() == 0,
            r@.vector_store == false,
            r@.clock.node_id == node_id,
            r@.clock.logical == 0,
    {
        let r = Self {
            collections: Vec::new(),
            documents: Vec::new(),
            chunks: Vec::new(),
            embeddings: Vec::new(),
            clock: HybridLogicalClock::new(node_id),
            vector_store: false,
        };
        proof {
            assert forall|d: Ulid| indexed_ok(#[trigger] doc_chunks(r@.chunks, d)) by {
                lemma_filter_none(r@.chunks, |c: Chunk| c.doc_id == d);
            }
        }
        r
    }

    /// Open an empty in-memory store that also accepts embedding
    /// payloads, as when the vector extension is loaded.
    pub fn open_memory_with_vectors(node_id: u16) -> (r: Self)
        ensures
            r.wf(),
            r@.collections.len() == 0,
            r@.documents.len() == 0,
            r@.chunks.len() == 0,
            r@.embeddings.len() == 0,
            r@.vector_store == true,
            r@.clock.node_id == node_id,
            r@.clock.logical == 0,
    {
        let r = Self {
            collections: Vec::new(),
            documents: Vec::new(),
            chunks: Vec::new(),
            embeddings: Vec::new(),
            clock: HybridLogicalClock::new(node_id),
            vector_store: true,
        };
        proof {
            assert forall|d: Ulid| indexed_ok(#[trigger] doc_chunks(r@.chunks, d)) by {
                lemma_filter_none(r@.chunks, |c: Chunk| c.doc_id == d);
            }
        }
        r
    }

    /// Whether embedding writes are accepted.
    pub fn vec_enabled(&self) -> (r: bool)
        ensures
            r == self@.vector_store,
    {
        self.vector_store
    }

    /// Whether the store can rank embeddings by similarity. Never, for
    /// this engine: nearest-neighbour search is floating-point work and
    /// lives with the native vector index.
    pub fn vector_search_available(&self) -> (r: bool)
        ensures
            r == false,
    {
        false
    }

    /// Create a collection, stamping it from the store clock.
    ///
    /// Fails with `CollectionExists` exactly on a name collision, and
    /// with a database error exactly when the clock cannot advance;
    /// either failure leaves the store unchanged.
    pub fn create_collection(&mut self, collection: Collection) -> (r: Result<(), RagError>)
        requires
            old(self).wf(),
        ensures
            final(self).wf(),
            r matches Err(RagError::CollectionExists { name }) ==> name@ == collection.name@
                && has_coll(old(self)@.collections, collection.name@) && *final(self) == *old(self),
            r matches Err(RagError::Database { .. }) ==> old(self)@.clock.logical == u32::MAX
                && *final(self) == *old(self),
            r is Err ==> r matches Err(RagError::CollectionExists { .. }) || r matches Err(
                RagError::Database { .. },
            ),
            r is Ok <==> !has_coll(old(self)@.collections, collection.name@) && old(
                self,
            )@.clock.logical < u32::MAX,
            r is Ok ==> {
                &&& final(self)@.documents == old(self)@.documents
                &&& final(self)@.chunks == old(self)@.chunks
                &&& final(self)@.embeddings == old(self)@.embeddings
                &&& final(self)@.vector_store == old(self)@.vector_store
                &&& hlc_lt(old(self)@.clock, final(self)@.clock)
                &&& (final(self)@.clock.logical == 0 || (final(self)@.clock.wall_time == old(
                    self,
                )@.clock.wall_time && final(self)@.clock.logical == old(self)@.clock.logical + 1))
                &&& final(self)@.collections.len() == old(self)@.collections.len() + 1
                &&& exists|p: int|
                    0 <= p < final(self)@.collections.len() && {
                        let c = #[trigger] final(self)@.collections[p];
                        &&& c.name@ == collection.name@
                        &&& crate::types::string_opt_eq(c.description, collection.description)
                        &&& c.created_at == collection.created_at
                        &&& c.hlc == final(self)@.clock
                        &&& final(self)@.collections == old(self)@.collections.insert(p, c)
                    }
            },
    {
        let ghost prev = self@;
        // find the sorted position, refusing duplicates
        let mut p: usize = 0;
        loop
            invariant
                *self == *old(self),
                old(self).wf(),
                p <= self.collections@.len(),
                forall|k: int|
                    0 <= k < p ==> chars_lt(
                        (#[trigger] self.collections@[k]).name@,
                        collection.name@,
                    ),
            ensures
                *self == *old(self),
                p <= self.collections@.len(),
                forall|k: int|
                    0 <= k < p ==> chars_lt(
                        (#[trigger] self.collections@[k]).name@,
                        collection.name@,
                    ),
                p < self.collections@.len() ==> chars_lt(
                    collection.name@,
                    self.collections@[p as int].name@,
                ),
            decreases self.collections@.len() - p,
        {
            if p == self.collections.len() {
                break;
            }
            if str_eq(self.collections[p].name.as_str(), collection.name.as_str()) {
                proof {
                    assert(has_coll(old(self)@.collections, collection.name@));
                }
                return Err(
                    RagError::CollectionExists { name: collection.name.as_str().to_owned() },
                );
            }
            if str_lt(collection.name.as_str(), self.collections[p].name.as_str()) {
                break;
            }
            proof {
                if !chars_lt(self.collections@[p as int].name@, collection.name@) {
                    lemma_chars_lt_trichotomy(
                        self.collections@[p as int].name@,
                        collection.name@,
                    );
                    assert(false);
                }
            }
            p += 1;
        }
        proof {
            if has_coll(prev.collections, collection.name@) {
                let q = choose|q: int|
                    0 <= q < prev.collections.len() && prev.collections[q].name@
                        == collection.name@;
                if q < p {
                    assert(chars_lt(collection.name@, collection.name@));
                    lemma_chars_lt_irrefl(collection.name@);
                } else {
                    if p < q {
                        lemma_chars_lt_trans(
                            collection.name@,
                            prev.collections[p as int].name@,
                            prev.collections[q].name@,
                        );
                    }
                    assert(chars_lt(collection.name@, collection.name@));
                    lemma_chars_lt_irrefl(collection.name@);
                }
                assert(false);
            }
        }
        if self.clock.logical == u32::MAX {
            return Err(RagError::database("clock exhausted"));
        }
        let stamp = self.clock.tick();
        self.clock = stamp;
        let mut c = collection;
        c.hlc = stamp;
        let ghost cg = c;
        self.collections.insert(p, c);
        proof {
            let cols = self@.collections;
            assert(cols == prev.collections.insert(p as int, cg));
            assert(cols[p as int] == cg);
            assert(cg.hlc == self@.clock);
            assert(cols.len() == prev.collections.len() + 1);
            assert forall|i: int, j: int| 0 <= i < j < cols.len() implies chars_lt(
                (#[trigger] cols[i]).name@,
                (#[trigger] cols[j]).name@,
            ) by {
                if i == p {
                    if p < prev.collections.len() && j == p + 1 {
                    } else {
                        lemma_chars_lt_trans(
                            cg.name@,
                            prev.collections[p as int].name@,
                            prev.collections[j - 1].name@,
                        );
                    }
                } else if j == p {
                } else if i < p && p < j {
                } else {
                }
            }
            assert forall|i: int| 0 <= i < self@.documents.len() implies has_coll(
                cols,
                (#[trigger] self@.documents[i]).collection@,
            ) by {
                let q = choose|q: int|
                    0 <= q < prev.collections.len() && prev.collections[q].name@
                        == self@.documents[i].collection@;
                if q < p {
                    assert(cols[q].name@ == self@.documents[i].collection@);
                } else {
                    assert(cols[q + 1].name@ == self@.documents[i].collection@);
                }
            }
            assert(self@.chunks == prev.chunks);
            assert(self@.embeddings =~= prev.embeddings);
        }
        Ok(())
    }
}

/// Whether a document table holds this id.
fn vec_has_doc(docs: &Vec<Document>, id: Ulid) -> (r: bool)
    ensures
        r == has_doc_id(docs@, id),
{
    let mut i: usize = 0;
    while i < docs.len()
        invariant
            i <= docs@.len(),
            forall|k: int| 0 <= k < i ==> (#[trigger] docs@[k]).id != id,
        decreases docs@.len() - i,
    {
        if docs[i].id == id {
            return true;
        }
        i += 1;
    }
    false
}

/// Whether a chunk table holds this id.
fn vec_has_chunk(chunks: &Vec<Chunk>, id: Ulid) -> (r: bool)
    ensures
        r == has_chunk_id(chunks@, id),
{
    let mut i: usize = 0;
    while i < chunks.len()
        invariant
            i <= chunks@.len(),
            forall|k: int| 0 <= k < i ==> (#[trigger] chunks@[k]).id != id,
        decreases chunks@.len() - i,
    {
        if chunks[i].id == id {
            return true;
        }
        i += 1;
    }
    false
}

impl MemoryStore {
    /// Whether a collection table holds this name.
    fn has_collection_named(&self, name: &str) -> (r: bool)
        ensures
            r == has_coll(self@.collections, name@),
    {
        let mut i: usize = 0;
        while i < self.collections.len()
            invariant
                i <= self.collections@.len(),
                forall|k: int| 0 <= k < i ==> (#[trigger] self.collections@[k]).name@ != name@,
            decreases self.collections@.len() - i,
        {
            if str_eq(self.collections[i].name.as_str(), name) {
                return true;
            }
            i += 1;
        }
        false
    }

    /// Look a collection up by name.
    pub fn get_collection(&self, name: &str) -> (r: Result<Option<Collection>, RagError>)
        ensures
            r is Ok,
            r matches Ok(opt) ==> {
                &&& (opt is None <==> !has_coll(self@.collections, name@))
                &&& (opt matches Some(c) ==> c.name@ == name@ && exists|i: int|
                    0 <= i < self@.collections.len() && coll_eq(c, #[trigger] self@.collections[i]))
            },
    {
        let mut i: usize = 0;
        while i < self.collections.len()
            invariant
                i <= self.collections@.len(),
                forall|k: int| 0 <= k < i ==> (#[trigger] self.collections@[k]).name@ != name@,
            decreases self.collections@.len() - i,
        {
            if str_eq(self.collections[i].name.as_str(), name) {
                let c = self.collections[i].duplicate();
                proof {
                    assert(coll_eq(c, self@.collections[i as int]));
                }
                return Ok(Some(c));
            }
            i += 1;
        }
        Ok(None)
    }

    /// List every collection, in name order.
    pub fn list_collections(&self) -> (r: Result<Vec<Collection>, RagError>)
        requires
            self.wf(),
        ensures
            r is Ok,
            r matches Ok(v) ==> {
                &&& v@.len() == self@.collections.len()
                &&& forall|i: int|
                    0 <= i < v@.len() ==> coll_eq(#[trigger] v@[i], self@.collections[i])
                &&& forall|i: int, j: int|
                    0 <= i < j < v@.len() ==> chars_lt(
                        (#[trigger] v@[i]).name@,
                        (#[trigger] v@[j]).name@,
                    )
            },
    {
        let mut out: Vec<Collection> = Vec::new();
        let mut i: usize = 0;
        while i < self.collections.len()
            invariant
                i <= self.collections@.len(),
                out@.len() == i,
                forall|k: int| 0 <= k < i ==> coll_eq(#[trigger] out@[k], self.collections@[k]),
            decreases self.collections@.len() - i,
        {
            out.push(self.collections[i].duplicate());
            i += 1;
        }
        proof {
            assert forall|i: int, j: int| 0 <= i < j < out@.len() implies chars_lt(
                (#[trigger] out@[i]).name@,
                (#[trigger] out@[j]).name@,
            ) by {
                assert(chars_lt(self.collections@[i].name@, self.collections@[j].name@));
            }
        }
        Ok(out)
    }

    /// Drop every chunk whose document is gone.
    fn prune_chunks(&mut self)
        ensures
            final(self)@.chunks == old(self)@.chunks.filter(chunk_alive(old(self)@.documents)),
            final(self)@.collections == old(self)@.collections,
            final(self)@.documents == old(self)@.documents,
            final(self)@.embeddings == old(self)@.embeddings,
            final(self)@.clock == old(self)@.clock,
            final(self)@.vector_store == old(self)@.vector_store,
    {
        let ghost pred = chunk_alive(old(self)@.documents);
        let mut rest: Vec<Chunk> = Vec::new();
        core::mem::swap(&mut rest, &mut self.chunks);
        let ghost cseq = rest@;
        while rest.len() > 0
            invariant
                self.collections@ == old(self).collections@,
                self.documents@ == old(self).documents@,
                self.embeddings@ == old(self).embeddings@,
                self.clock == old(self).clock,
                self.vector_store == old(self).vector_store,
                rest@.len() <= cseq.len(),
                rest@ =~= cseq.skip(cseq.len() - rest@.len()),
                self.chunks@ == cseq.take(cseq.len() - rest@.len()).filter(pred),
                pred == chunk_alive(old(self)@.documents),
            decreases rest@.len(),
        {
            let ghost done = cseq.len() - rest@.len();
            let c = rest.remove(0);
            proof {
                assert(c == cseq[done]);
                assert(rest@ =~= cseq.skip(done + 1));
                lemma_filter_step(cseq, done, pred);
                assert(cseq.take(done + 1).take(done) =~= cseq.take(done));
            }
            if vec_has_doc(&self.documents, c.doc_id) {
                self.chunks.push(c);
            }
        }
        proof {
            assert(cseq.take(cseq.len() as int) =~= cseq);
            assert(self@.embeddings =~= old(self)@.embeddings);
        }
    }

    /// Drop every embedding whose chunk is gone.
    fn prune_embeddings(&mut self)
        ensures
            final(self)@.embeddings == old(self)@.embeddings.filter(
                emb_alive(old(self)@.chunks),
            ),
            final(self)@.collections == old(self)@.collections,
            final(self)@.documents == old(self)@.documents,
            final(self)@.chunks == old(self)@.chunks,
            final(self)@.clock == old(self)@.clock,
            final(self)@.vector_store == old(self)@.vector_store,
    {
        let ghost pred = emb_alive(old(self)@.chunks);
        let mut rest: Vec<(Ulid, Vec<u8>)> = Vec::new();
        core::mem::swap(&mut rest, &mut self.embeddings);
        let ghost eseq = Seq::new(rest@.len(), |i: int| (rest@[i].0, rest@[i].1@));
        proof {
            assert(eseq == old(self)@.embeddings);
        }
        while rest.len() > 0
            invariant
                self.collections@ == old(self).collections@,
                self.documents@ == old(self).documents@,
                self.chunks@ == old(self).chunks@,
                self.clock == old(self).clock,
                self.vector_store == old(self).vector_store,
                rest@.len() <= eseq.len(),
                forall|k: int|
                    0 <= k < rest@.len() ==> ((#[trigger] rest@[k]).0, rest@[k].1@) == eseq[
                        eseq.len() - rest@.len() + k
                    ],
                self@.embeddings == eseq.take(eseq.len() - rest@.len()).filter(pred),
                pred == emb_alive(old(self)@.chunks),
            decreases rest@.len(),
        {
            let ghost done = eseq.len() - rest@.len();
            let ghost prev_emb = self@.embeddings;
            let ghost prev_rest = rest@;
            let e = rest.remove(0);
            proof {
                assert((prev_rest[0].0, prev_rest[0].1@) == eseq[done]);
                assert((e.0, e.1@) == eseq[done]);
                assert(rest@ =~= prev_rest.skip(1));
                assert forall|k: int| 0 <= k < rest@.len() implies ((#[trigger] rest@[k]).0,
                rest@[k].1@) == eseq[done + 1 + k] by {
                    assert(rest@[k] == prev_rest[k + 1]);
                }
                lemma_filter_step(eseq, done, pred);
                assert(eseq.take(done + 1).take(done) =~= eseq.take(done));
            }
            if vec_has_chunk(&self.chunks, e.0) {
                self.embeddings.push(e);
                proof {
                    assert(self@.embeddings =~= prev_emb.push(eseq[done]));
                }
            } else {
                proof {
                    assert(self@.embeddings =~= prev_emb);
                }
            }
        }
        proof {
            assert(eseq.take(eseq.len() as int) =~= eseq);
        }
    }

    /// Delete a collection and, by cascade, its documents, their chunks,
    /// and the chunks' embeddings.
    pub fn delete_collection(&mut self, name: &str) -> (r: Result<(), RagError>)
        requires
            old(self).wf(),
        ensures
            final(self).wf(),
            r is Err ==> (r matches Err(RagError::CollectionNotFound { name: n }) && n@ == name@
                && *final(self) == *old(self)),
            r is Ok <==> has_coll(old(self)@.collections, name@),
            r is Ok ==> {
                &&& final(self)@.collections == old(self)@.collections.filter(
                    coll_not_named(name@),
                )
                &&& final(self)@.documents == old(self)@.documents.filter(doc_outside(name@))
                &&& final(self)@.chunks == old(self)@.chunks.filter(
                    chunk_alive(old(self)@.documents.filter(doc_outside(name@))),
                )
                &&& final(self)@.embeddings == old(self)@.embeddings.filter(
                    emb_alive(final(self)@.chunks),
                )
                &&& final(self)@.clock == old(self)@.clock
                &&& final(self)@.vector_store == old(self)@.vector_store
            },
    {
        if !self.has_collection_named(name) {
            return Err(RagError::CollectionNotFound { name: name.to_owned() });
        }
        let ghost v0 = self@;
        let ghost keep_coll = coll_not_named(name@);
        let ghost keep_doc = doc_outside(name@);
        // collections
        let mut rest: Vec<Collection> = Vec::new();
        core::mem::swap(&mut rest, &mut self.collections);
        let ghost cseq = rest@;
        while rest.len() > 0
            invariant
                self.documents@ == old(self).documents@,
                self.chunks@ == old(self).chunks@,
                self.embeddings@ == old(self).embeddings@,
                self.clock == old(self).clock,
                self.vector_store == old(self).vector_store,
                cseq == old(self).collections@,
                rest@.len() <= cseq.len(),
                rest@ =~= cseq.skip(cseq.len() - rest@.len()),
                self.collections@ == cseq.take(cseq.len() - rest@.len()).filter(keep_coll),
                keep_coll == coll_not_named(name@),
            decreases rest@.len(),
        {
            let ghost done = cseq.len() - rest@.len();
            let c = rest.remove(0);
            proof {
                assert(c == cseq[done]);
                assert(rest@ =~= cseq.skip(done + 1));
                lemma_filter_step(cseq, done, keep_coll);
                assert(cseq.take(done + 1).take(done) =~= cseq.take(done));
            }
            if !str_eq(c.name.as_str(), name) {
                self.collections.push(c);
            }
        }
        proof {
            assert(cseq.take(cseq.len() as int) =~= cseq);
        }
        // documents
        let mut drest: Vec<Document> = Vec::new();
        core::mem::swap(&mut drest, &mut self.documents);
        let ghost dseq = drest@;
        while drest.len() > 0
            invariant
                self.collections@ == v0.collections.filter(coll_not_named(name@)),
                self.chunks@ == old(self).chunks@,
                self.embeddings@ == old(self).embeddings@,
                self.clock == old(self).clock,
                self.vector_store == old(self).vector_store,
                dseq == old(self).documents@,
                v0.collections == old(self).collections@,
                drest@.len() <= dseq.len(),
                drest@ =~= dseq.skip(dseq.len() - drest@.len()),
                self.documents@ == dseq.take(dseq.len() - drest@.len()).filter(keep_doc),
                keep_doc == doc_outside(name@),
            decreases drest@.len(),
        {
            let ghost done = dseq.len() - drest@.len();
            let d = drest.remove(0);
            proof {
                assert(d == dseq[done]);
                assert(drest@ =~= dseq.skip(done + 1));
                lemma_filter_step(dseq, done, keep_doc);
                assert(dseq.take(done + 1).take(done) =~= dseq.take(done));
            }
            if !str_eq(d.collection.as_str(), name) {
                self.documents.push(d);
            }
        }
        proof {
            assert(dseq.take(dseq.len() as int) =~= dseq);
        }
        self.prune_chunks();
        self.prune_embeddings();
        proof {
            self.lemma_restore_inv(v0, name@);
        }
        Ok(())
    }

    /// Re-establish the store invariant after a cascade rooted at a
    /// collection deletion.
    proof fn lemma_restore_inv(&self, v0: StoreView, name: Seq<char>)
        requires
            store_inv(v0),
            self@.collections == v0.collections.filter(coll_not_named(name)),
            self@.documents == v0.documents.filter(doc_outside(name)),
            self@.chunks == v0.chunks.filter(
                chunk_alive(v0.documents.filter(doc_outside(name))),
            ),
            self@.embeddings == v0.embeddings.filter(emb_alive(self@.chunks)),
            self@.clock == v0.clock,
        ensures
            self.wf(),
    {
        let v = self@;
        let keep_coll = coll_not_named(name);
        let keep_doc = doc_outside(name);
        let keep_chunk = chunk_alive(v0.documents.filter(keep_doc));
        let keep_emb = emb_alive(v.chunks);
        lemma_filter_preserves_rel(
            v0.collections,
            keep_coll,
            |a: Collection, b: Collection| chars_lt(a.name@, b.name@),
        );
        lemma_filter_preserves_rel(
            v0.documents,
            keep_doc,
            |a: Document, b: Document| a.id != b.id,
        );
        lemma_filter_preserves_rel(v0.chunks, keep_chunk, |a: Chunk, b: Chunk| a.id != b.id);
        lemma_filter_preserves_rel(
            v0.embeddings,
            keep_emb,
            |a: (Ulid, Seq<u8>), b: (Ulid, Seq<u8>)| a.0 != b.0,
        );
        lemma_filter_subset(v0.collections, keep_coll);
        lemma_filter_subset(v0.documents, keep_doc);
        lemma_filter_subset(v0.chunks, keep_chunk);
        lemma_filter_subset(v0.embeddings, keep_emb);
        v0.collections.filter_lemma(keep_coll);
        v0.documents.filter_lemma(keep_doc);
        v0.chunks.filter_lemma(keep_chunk);
        v0.embeddings.filter_lemma(keep_emb);
        // document foreign keys still point at surviving collections
        assert forall|i: int| 0 <= i < v.documents.len() implies has_coll(
            v.collections,
            (#[trigger] v.documents[i]).collection@,
        ) by {
            let k = choose|k: int| 0 <= k < v0.documents.len() && v0.documents[k] == v.documents[i];
            let q = choose|q: int|
                0 <= q < v0.collections.len() && v0.collections[q].name@
                    == v0.documents[k].collection@;
            assert(keep_coll(v0.collections[q]));
            assert(v0.collections.filter(keep_coll).contains(v0.collections[q]));
            let w = choose|w: int|
                0 <= w < v.collections.len() && v.collections[w] == v0.collections[q];
            assert(v.collections[w].name@ == v.documents[i].collection@);
        }
        // per-document chunk lists are unchanged or empty
        assert forall|d: Ulid| indexed_ok(#[trigger] doc_chunks(v.chunks, d)) by {
            let dpred = chunk_of(d);
            if has_doc_id(v0.documents.filter(keep_doc), d) {
                assert forall|i: int|
                    0 <= i < v0.chunks.len() && dpred(#[trigger] v0.chunks[i]) implies keep_chunk(
                    v0.chunks[i],
                ) by {}
                lemma_filter_subsumed(v0.chunks, keep_chunk, dpred);
                assert(doc_chunks(v.chunks, d) == doc_chunks(v0.chunks, d));
            } else {
                v.chunks.filter_lemma(dpred);
                lemma_filter_subset(v.chunks, dpred);
                if doc_chunks(v.chunks, d).len() > 0 {
                    let e0 = doc_chunks(v.chunks, d)[0];
                    assert(dpred(e0));
                    let k = choose|k: int| 0 <= k < v.chunks.len() && v.chunks[k] == e0;
                    assert(keep_chunk(v.chunks[k]));
                    assert(false);
                }
            }
        }
        // surviving rows stay dominated by the clock
        assert forall|i: int| 0 <= i < v.collections.len() implies hlc_le(
            (#[trigger] v.collections[i]).hlc,
            v.clock,
        ) by {
            let k = choose|k: int|
                0 <= k < v0.collections.len() && v0.collections[k] == v.collections[i];
        }
        assert forall|i: int| 0 <= i < v.documents.len() implies hlc_le(
            (#[trigger] v.documents[i]).hlc,
            v.clock,
        ) by {
            let k = choose|k: int| 0 <= k < v0.documents.len() && v0.documents[k] == v.documents[i];
        }
        assert forall|i: int| 0 <= i < v.chunks.len() implies hlc_le(
            (#[trigger] v.chunks[i]).hlc,
            v.clock,
        ) by {
            let k = choose|k: int| 0 <= k < v0.chunks.len() && v0.chunks[k] == v.chunks[i];
        }
    }

    /// Insert a document, stamping it from the store clock.
    ///
    /// Fails with a database error exactly when the collection is
    /// missing, the id collides, or the clock cannot advance; failure
    /// leaves the store unchanged.
    pub fn insert_document(&mut self, doc: Document) -> (r: Result<(), RagError>)
        requires
            old(self).wf(),
        ensures
            final(self).wf(),
            r is Ok <==> has_coll(old(self)@.collections, doc.collection@) && !has_doc_id(
                old(self)@.documents,
                doc.id,
            ) && old(self)@.clock.logical < u32::MAX,
            r is Err ==> (r matches Err(RagError::Database { .. }) && *final(self) == *old(self)),
            r is Ok ==> {
                &&& final(self)@.collections == old(self)@.collections
                &&& final(self)@.chunks == old(self)@.chunks
                &&& final(self)@.embeddings == old(self)@.embeddings
                &&& final(self)@.vector_store == old(self)@.vector_store
                &&& hlc_lt(old(self)@.clock, final(self)@.clock)
                &&& (final(self)@.clock.logical == 0 || (final(self)@.clock.wall_time == old(
                    self,
                )@.clock.wall_time && final(self)@.clock.logical == old(self)@.clock.logical + 1))
                &&& final(self)@.documents == old(self)@.documents.push(
                    doc_with_stamp(doc, final(self)@.clock),
                )
            },
    {
        if !self.has_collection_named(doc.collection.as_str()) {
            return Err(RagError::database("document names a missing collection"));
        }
        if vec_has_doc(&self.documents, doc.id) {
            return Err(RagError::database("duplicate document id"));
        }
        if self.clock.logical == u32::MAX {
            return Err(RagError::database("clock exhausted"));
        }
        let ghost v0 = self@;
        let stamp = self.clock.tick();
        self.clock = stamp;
        let mut d = doc;
        d.hlc = stamp;
        let ghost dg = d;
        self.documents.push(d);
        proof {
            assert(dg == doc_with_stamp(doc, stamp));
            assert(self@.embeddings =~= v0.embeddings);
            assert forall|i: int| 0 <= i < self@.chunks.len() implies has_doc_id(
                self@.documents,
                (#[trigger] self@.chunks[i]).doc_id,
            ) by {
                let k = choose|k: int|
                    0 <= k < v0.documents.len() && v0.documents[k].id == self@.chunks[i].doc_id;
                assert(self@.documents[k].id == self@.chunks[i].doc_id);
            }
            assert forall|i: int| 0 <= i < self@.documents.len() implies has_coll(
                self@.collections,
                (#[trigger] self@.documents[i]).collection@,
            ) by {
                if i < v0.documents.len() {
                    assert(has_coll(v0.collections, v0.documents[i].collection@));
                }
            }
        }
        Ok(())
    }

    /// Look a document up by id.
    pub fn get_document(&self, id: Ulid) -> (r: Result<Option<Document>, RagError>)
        ensures
            r is Ok,
            r matches Ok(opt) ==> {
                &&& (opt is None <==> !has_doc_id(self@.documents, id))
                &&& (opt matches Some(d) ==> d.id == id && exists|i: int|
                    0 <= i < self@.documents.len() && doc_eq(d, #[trigger] self@.documents[i]))
            },
    {
        let mut i: usize = 0;
        while i < self.documents.len()
            invariant
                i <= self.documents@.len(),
                forall|k: int| 0 <= k < i ==> (#[trigger] self.documents@[k]).id != id,
            decreases self.documents@.len() - i,
        {
            if self.documents[i].id == id {
                let d = self.documents[i].duplicate();
                proof {
                    assert(doc_eq(d, self@.documents[i as int]));
                }
                return Ok(Some(d));
            }
            i += 1;
        }
        Ok(None)
    }

    /// Look the first document with this source URI up.
    pub fn get_document_by_uri(&self, uri: &str) -> (r: Result<Option<Document>, RagError>)
        ensures
            r is Ok,
            r matches Ok(opt) ==> {
                &&& (opt is None <==> forall|k: int|
                    0 <= k < self@.documents.len() ==> (
                    #[trigger] self@.documents[k]).source_uri@ != uri@)
                &&& (opt matches Some(d) ==> d.source_uri@ == uri@ && exists|i: int|
                    0 <= i < self@.documents.len() && doc_eq(d, #[trigger] self@.documents[i])
                        && forall|k: int|
                        0 <= k < i ==> self@.documents[k].source_uri@ != uri@)
            },
    {
        let mut i: usize = 0;
        while i < self.documents.len()
            invariant
                i <= self.documents@.len(),
                forall|k: int| 0 <= k < i ==> (#[trigger] self.documents@[k]).source_uri@ != uri@,
            decreases self.documents@.len() - i,
        {
            if str_eq(self.documents[i].source_uri.as_str(), uri) {
                let d = self.documents[i].duplicate();
                proof {
                    assert(doc_eq(d, self@.documents[i as int]));
                }
                return Ok(Some(d));
            }
            i += 1;
        }
        Ok(None)
    }

    /// List documents of a collection, most recently created first,
    /// windowed by `offset` and `limit`.
    pub fn list_documents(&self, collection: &str, limit: u32, offset: u32) -> (r: Result<
        Vec<Document>,
        RagError,
    >)
        ensures
            r is Ok,
            r matches Ok(v) ==> {
                &&& v@.len() <= limit
                &&& v@.len() == vstd::math::min(
                    limit as int,
                    vstd::math::max(
                        0,
                        self@.documents.filter(doc_inside(collection@)).len() - offset,
                    ),
                )
                &&& forall|i: int|
                    0 <= i < v@.len() ==> (#[trigger] v@[i]).collection@ == collection@ && exists|
                        k: int,
                    | 0 <= k < self@.documents.len() && doc_eq(v@[i], #[trigger] self@.documents[k])
                &&& forall|i: int, j: int|
                    0 <= i < j < v@.len() ==> (#[trigger] v@[i]).created_at >= (
                    #[trigger] v@[j]).created_at
            },
    {
        let ghost docs = self@.documents;
        let ghost dpred = doc_inside(collection@);
        // gather the collection's documents
        let mut matched: Vec<Document> = Vec::new();
        let mut i: usize = 0;
        while i < self.documents.len()
            invariant
                i <= self.documents@.len(),
                docs == self.documents@,
                dpred == doc_inside(collection@),
                matched@.len() == docs.take(i as int).filter(dpred).len(),
                forall|p: int|
                    0 <= p < matched@.len() ==> (#[trigger] matched@[p]).collection@ == collection@
                        && exists|k: int| 0 <= k < docs.len() && doc_eq(matched@[p], #[trigger] docs[k]),
            decreases self.documents@.len() - i,
        {
            proof {
                lemma_filter_step(docs, i as int, dpred);
                assert(docs.take(i + 1).take(i as int) =~= docs.take(i as int));
            }
            if str_eq(self.documents[i].collection.as_str(), collection) {
                let d = self.documents[i].duplicate();
                proof {
                    assert(doc_eq(d, docs[i as int]));
                }
                matched.push(d);
            }
            i += 1;
        }
        proof {
            assert(docs.take(docs.len() as int) =~= docs);
        }
        let ghost total = matched@.len() as int;
        // sort by creation time, newest first
        let mut sorted: Vec<Document> = Vec::new();
        while matched.len() > 0
            invariant
                docs == self.documents@,
                dpred == doc_inside(collection@),
                sorted@.len() + matched@.len() == total,
                total == docs.filter(dpred).len(),
                forall|p: int|
                    0 <= p < matched@.len() ==> (#[trigger] matched@[p]).collection@ == collection@
                        && exists|k: int| 0 <= k < docs.len() && doc_eq(matched@[p], #[trigger] docs[k]),
                forall|p: int|
                    0 <= p < sorted@.len() ==> (#[trigger] sorted@[p]).collection@ == collection@
                        && exists|k: int| 0 <= k < docs.len() && doc_eq(sorted@[p], #[trigger] docs[k]),
                forall|p: int, q: int|
                    0 <= p < q < sorted@.len() ==> (#[trigger] sorted@[p]).created_at >= (
                    #[trigger] sorted@[q]).created_at,
                forall|p: int, q: int|
                    0 <= p < sorted@.len() && 0 <= q < matched@.len() ==> (
                    #[trigger] sorted@[p]).created_at >= (#[trigger] matched@[q]).created_at,
            decreases matched@.len(),
        {
            let mut best: usize = 0;
            let mut bi: usize = 1;
            while bi < matched.len()
                invariant
                    best < bi <= matched@.len(),
                    matched@.len() > 0,
                    forall|k: int|
                        0 <= k < bi ==> matched@[best as int].created_at >= (
                        #[trigger] matched@[k]).created_at,
                decreases matched@.len() - bi,
            {
                if matched[bi].created_at > matched[best].created_at {
                    best = bi;
                }
                bi += 1;
            }
            let ghost prev_matched = matched@;
            let e = matched.remove(best);
            proof {
                assert(e == prev_matched[best as int]);
                assert forall|q: int| 0 <= q < matched@.len() implies e.created_at >= (
                #[trigger] matched@[q]).created_at by {
                    if q < best {
                        assert(matched@[q] == prev_matched[q]);
                    } else {
                        assert(matched@[q] == prev_matched[q + 1]);
                    }
                }
                assert forall|q: int| 0 <= q < matched@.len() implies (#[trigger] matched@[q]).collection@
                    == collection@ && exists|k: int|
                    0 <= k < docs.len() && doc_eq(matched@[q], #[trigger] docs[k]) by {
                    if q < best {
                        assert(matched@[q] == prev_matched[q]);
                    } else {
                        assert(matched@[q] == prev_matched[q + 1]);
                    }
                }
            }
            sorted.push(e);
        }
        // window
        let mut out: Vec<Document> = Vec::new();
        let mut j: usize = offset as usize;
        while j < sorted.len() && out.len() < limit as usize
            invariant
                j == offset as int + out@.len(),
                out@.len() <= limit,
                j <= vstd::math::max(offset as int, sorted@.len() as int),
                docs == self.documents@,
                dpred == doc_inside(collection@),
                sorted@.len() == docs.filter(dpred).len(),
                forall|p: int|
                    0 <= p < sorted@.len() ==> (#[trigger] sorted@[p]).collection@ == collection@
                        && exists|k: int| 0 <= k < docs.len() && doc_eq(sorted@[p], #[trigger] docs[k]),
                forall|p: int, q: int|
                    0 <= p < q < sorted@.len() ==> (#[trigger] sorted@[p]).created_at >= (
                    #[trigger] sorted@[q]).created_at,
                forall|p: int|
                    0 <= p < out@.len() ==> offset + p < sorted@.len() && doc_eq(
                        #[trigger] out@[p],
                        sorted@[offset + p],
                    ),
            decreases sorted@.len() - j,
        {
            let d = sorted[j].duplicate();
            proof {
                assert(doc_eq(d, sorted@[j as int]));
            }
            out.push(d);
            j += 1;
        }
        proof {
            assert forall|p: int| 0 <= p < out@.len() implies (#[trigger] out@[p]).collection@
                == collection@ && exists|k: int|
                0 <= k < self@.documents.len() && doc_eq(out@[p], #[trigger] self@.documents[k]) by {
                assert(doc_eq(out@[p], sorted@[offset + p]));
                assert((#[trigger] sorted@[offset + p]).collection@ == collection@);
                let k = choose|k: int|
                    0 <= k < docs.len() && doc_eq(sorted@[offset + p], #[trigger] docs[k]);
                assert(doc_eq(out@[p], docs[k]));
            }
            let n = docs.filter(dpred).len() as int;
            assert(sorted@.len() == n);
            assert(out@.len() == vstd::math::min(
                limit as int,
                vstd::math::max(0, n - offset),
            ));
        }
        Ok(out)
    }

    /// Delete a document and, by cascade, its chunks and their
    /// embeddings.
    pub fn delete_document(&mut self, id: Ulid) -> (r: Result<(), RagError>)
        requires
            old(self).wf(),
        ensures
            final(self).wf(),
            r is Err ==> (r matches Err(RagError::DocumentNotFound { .. }) && !has_doc_id(
                old(self)@.documents,
                id,
            ) && *final(self) == *old(self)),
            r is Ok <==> has_doc_id(old(self)@.documents, id),
            r is Ok ==> {
                &&& final(self)@.collections == old(self)@.collections
                &&& final(self)@.documents == old(self)@.documents.filter(doc_not(id))
                &&& final(self)@.chunks == old(self)@.chunks.filter(
                    chunk_alive(old(self)@.documents.filter(doc_not(id))),
                )
                &&& final(self)@.embeddings == old(self)@.embeddings.filter(
                    emb_alive(final(self)@.chunks),
                )
                &&& final(self)@.clock == old(self)@.clock
                &&& final(self)@.vector_store == old(self)@.vector_store
            },
    {
        if !vec_has_doc(&self.documents, id) {
            return Err(RagError::DocumentNotFound { id: crate::text::u128_to_string(id.value) });
        }
        let ghost v0 = self@;
        let ghost keep_doc = doc_not(id);
        let mut drest: Vec<Document> = Vec::new();
        core::mem::swap(&mut drest, &mut self.documents);
        let ghost dseq = drest@;
        while drest.len() > 0
            invariant
                self.collections@ == old(self).collections@,
                self.chunks@ == old(self).chunks@,
                self.embeddings@ == old(self).embeddings@,
                self.clock == old(self).clock,
                self.vector_store == old(self).vector_store,
                dseq == old(self).documents@,
                drest@.len() <= dseq.len(),
                drest@ =~= dseq.skip(dseq.len() - drest@.len()),
                self.documents@ == dseq.take(dseq.len() - drest@.len()).filter(keep_doc),
                keep_doc == doc_not(id),
            decreases drest@.len(),
        {
            let ghost done = dseq.len() - drest@.len();
            let d = drest.remove(0);
            proof {
                assert(d == dseq[done]);
                assert(drest@ =~= dseq.skip(done + 1));
                lemma_filter_step(dseq, done, keep_doc);
                assert(dseq.take(done + 1).take(done) =~= dseq.take(done));
            }
            if d.id != id {
                self.documents.push(d);
            }
        }
        proof {
            assert(dseq.take(dseq.len() as int) =~= dseq);
        }
        self.prune_chunks();
        self.prune_embeddings();
        proof {
            self.lemma_restore_inv_docs(v0, doc_not(id));
        }
        Ok(())
    }

    /// Re-establish the store invariant after a cascade rooted at a
    /// document deletion.
    proof fn lemma_restore_inv_docs(&self, v0: StoreView, dp: spec_fn(Document) -> bool)
        requires
            store_inv(v0),
            self@.collections == v0.collections,
            self@.documents == v0.documents.filter(dp),
            self@.chunks == v0.chunks.filter(chunk_alive(v0.documents.filter(dp))),
            self@.embeddings == v0.embeddings.filter(emb_alive(self@.chunks)),
            self@.clock == v0.clock,
        ensures
            self.wf(),
    {
        let v = self@;
        let keep_chunk = chunk_alive(v0.documents.filter(dp));
        let keep_emb = emb_alive(v.chunks);
        lemma_filter_preserves_rel(v0.documents, dp, |a: Document, b: Document| a.id != b.id);
        lemma_filter_preserves_rel(v0.chunks, keep_chunk, |a: Chunk, b: Chunk| a.id != b.id);
        lemma_filter_preserves_rel(
            v0.embeddings,
            keep_emb,
            |a: (Ulid, Seq<u8>), b: (Ulid, Seq<u8>)| a.0 != b.0,
        );
        lemma_filter_subset(v0.documents, dp);
        lemma_filter_subset(v0.chunks, keep_chunk);
        lemma_filter_subset(v0.embeddings, keep_emb);
        v0.documents.filter_lemma(dp);
        v0.chunks.filter_lemma(keep_chunk);
        v0.embeddings.filter_lemma(keep_emb);
        assert forall|i: int| 0 <= i < v.documents.len() implies has_coll(
            v.collections,
            (#[trigger] v.documents[i]).collection@,
        ) by {
            let k = choose|k: int| 0 <= k < v0.documents.len() && v0.documents[k] == v.documents[i];
        }
        assert forall|d: Ulid| indexed_ok(#[trigger] doc_chunks(v.chunks, d)) by {
            let dpred = chunk_of(d);
            if has_doc_id(v0.documents.filter(dp), d) {
                assert forall|i: int|
                    0 <= i < v0.chunks.len() && dpred(#[trigger] v0.chunks[i]) implies keep_chunk(
                    v0.chunks[i],
                ) by {}
                lemma_filter_subsumed(v0.chunks, keep_chunk, dpred);
                assert(doc_chunks(v.chunks, d) == doc_chunks(v0.chunks, d));
            } else {
                v.chunks.filter_lemma(dpred);
                lemma_filter_subset(v.chunks, dpred);
                if doc_chunks(v.chunks, d).len() > 0 {
                    let e0 = doc_chunks(v.chunks, d)[0];
                    assert(dpred(e0));
                    let k = choose|k: int| 0 <= k < v.chunks.len() && v.chunks[k] == e0;
                    assert(keep_chunk(v.chunks[k]));
                    assert(false);
                }
            }
        }
        assert forall|i: int| 0 <= i < v.documents.len() implies hlc_le(
            (#[trigger] v.documents[i]).hlc,
            v.clock,
        ) by {
            let k = choose|k: int| 0 <= k < v0.documents.len() && v0.documents[k] == v.documents[i];
        }
        assert forall|i: int| 0 <= i < v.chunks.len() implies hlc_le(
            (#[trigger] v.chunks[i]).hlc,
            v.clock,
        ) by {
            let k = choose|k: int| 0 <= k < v0.chunks.len() && v0.chunks[k] == v.chunks[i];
        }
    }

    /// Count the chunks of one document among the first `upto` rows.
    fn count_doc_chunks(chunks: &Vec<Chunk>, upto: usize, d: Ulid) -> (r: usize)
        requires
            upto <= chunks@.len(),
        ensures
            r == doc_chunks(chunks@.take(upto as int), d).len(),
    {
        let ghost pred = chunk_of(d);
        let mut count: usize = 0;
        let mut i: usize = 0;
        while i < upto
            invariant
                i <= upto <= chunks@.len(),
                count <= i,
                count == doc_chunks(chunks@.take(i as int), d).len(),
                pred == chunk_of(d),
            decreases upto - i,
        {
            proof {
                lemma_filter_step(chunks@, i as int, pred);
                assert(chunks@.take(i + 1).take(i as int) =~= chunks@.take(i as int));
            }
            if chunks[i].doc_id == d {
                count += 1;
            }
            i += 1;
        }
        count
    }

    /// Whether an embedding row exists for this chunk.
    fn has_embedding_for(&self, id: Ulid) -> (r: bool)
        ensures
            r == exists|i: int| 0 <= i < self@.embeddings.len() && (#[trigger] self@.embeddings[i]).0 == id,
    {
        let mut i: usize = 0;
        while i < self.embeddings.len()
            invariant
                i <= self.embeddings@.len(),
                forall|k: int| 0 <= k < i ==> (#[trigger] self.embeddings@[k]).0 != id,
            decreases self.embeddings@.len() - i,
        {
            if self.embeddings[i].0 == id {
                proof {
                    assert(self@.embeddings[i as int].0 == id);
                }
                return true;
            }
            i += 1;
        }
        proof {
            assert forall|k: int| 0 <= k < self@.embeddings.len() implies (
            #[trigger] self@.embeddings[k]).0 != id by {
                assert(self@.embeddings[k].0 == self.embeddings@[k].0);
            }
        }
        false
    }

    /// Insert a batch of chunks transactionally, stamping the whole
    /// batch from one clock advance.
    ///
    /// Fails with a database error exactly when a chunk names a missing
    /// document, an id collides, a chunk breaks its document's dense
    /// index sequence, or the clock cannot advance; failure leaves the
    /// store unchanged.
    #[verifier::loop_isolation(false)]
    pub fn insert_chunks(&mut self, chunks: &Vec<Chunk>) -> (r: Result<(), RagError>)
        requires
            old(self).wf(),
        ensures
            final(self).wf(),
            r is Err ==> (r matches Err(RagError::Database { .. }) && *final(self) == *old(self)),
            r is Ok <==> batch_ok(old(self)@, chunks@) && old(self)@.clock.logical < u32::MAX,
            r is Ok ==> {
                &&& final(self)@.collections == old(self)@.collections
                &&& final(self)@.documents == old(self)@.documents
                &&& final(self)@.embeddings == old(self)@.embeddings
                &&& final(self)@.vector_store == old(self)@.vector_store
                &&& hlc_lt(old(self)@.clock, final(self)@.clock)
                &&& (final(self)@.clock.logical == 0 || (final(self)@.clock.wall_time == old(
                    self,
                )@.clock.wall_time && final(self)@.clock.logical == old(self)@.clock.logical + 1))
                &&& final(self)@.chunks.len() == old(self)@.chunks.len() + chunks@.len()
                &&& final(self)@.chunks.take(old(self)@.chunks.len() as int) == old(self)@.chunks
                &&& forall|i: int|
                    0 <= i < chunks@.len() ==> chunk_eq(
                        #[trigger] final(self)@.chunks[old(self)@.chunks.len() + i],
                        chunk_with_stamp(chunks@[i], final(self)@.clock),
                    )
            },
    {
        let ghost v0 = self@;
        // validate the whole batch first
        let mut i: usize = 0;
        while i < chunks.len()
            invariant
                i <= chunks@.len(),
                forall|k: int|
                    0 <= k < i ==> has_doc_id(v0.documents, (#[trigger] chunks@[k]).doc_id),
                forall|k: int|
                    0 <= k < i ==> !has_chunk_id(v0.chunks, (#[trigger] chunks@[k]).id),
                forall|k: int, l: int|
                    0 <= k < l < i ==> (#[trigger] chunks@[k]).id != (#[trigger] chunks@[l]).id,
                forall|k: int|
                    0 <= k < i ==> (#[trigger] chunks@[k]).chunk_index as int == doc_chunks(
                        v0.chunks + chunks@.take(k),
                        chunks@[k].doc_id,
                    ).len(),
            decreases chunks@.len() - i,
        {
            let c = &chunks[i];
            if !vec_has_doc(&self.documents, c.doc_id) {
                proof {
                    assert(!batch_ok(v0, chunks@));
                }
                return Err(RagError::database("chunk names a missing document"));
            }
            if vec_has_chunk(&self.chunks, c.id) {
                proof {
                    assert(!batch_ok(v0, chunks@));
                }
                return Err(RagError::database("duplicate chunk id"));
            }
            let mut k: usize = 0;
            while k < i
                invariant
                    k <= i < chunks@.len(),
                    forall|l: int| 0 <= l < k ==> (#[trigger] chunks@[l]).id != chunks@[i as int].id,
                decreases i - k,
            {
                if chunks[k].id == chunks[i].id {
                    proof {
                        assert(!batch_ok(v0, chunks@));
                    }
                    return Err(RagError::database("duplicate chunk id in batch"));
                }
                k += 1;
            }
            let existing = Self::count_doc_chunks(&self.chunks, self.chunks.len(), c.doc_id);
            let in_batch = Self::count_doc_chunks(chunks, i, c.doc_id);
            proof {
                assert(self.chunks@.take(self.chunks@.len() as int) =~= v0.chunks);
                Seq::filter_distributes_over_add(v0.chunks, chunks@.take(i as int), chunk_of(c.doc_id));
            }
            if !((c.chunk_index as u128) == (existing as u128) + (in_batch as u128)) {
                proof {
                    assert(doc_chunks(v0.chunks + chunks@.take(i as int), chunks@[i as int].doc_id).len()
                        == existing + in_batch);
                    assert(!batch_ok(v0, chunks@));
                }
                return Err(RagError::database("chunk index breaks the dense order"));
            }
            proof {
                assert(doc_chunks(v0.chunks + chunks@.take(i as int), chunks@[i as int].doc_id).len()
                    == existing + in_batch);
            }
            i += 1;
        }
        proof {
            assert(batch_ok(v0, chunks@));
        }
        if self.clock.logical == u32::MAX {
            return Err(RagError::database("clock exhausted"));
        }
        let stamp = self.clock.tick();
        self.clock = stamp;
        // append the stamped batch
        let mut j: usize = 0;
        while j < chunks.len()
            invariant
                j <= chunks@.len(),
                self.clock == stamp,
                hlc_lt(v0.clock, stamp),
                self.collections@ == v0.collections,
                self.documents@ == v0.documents,
                self.embeddings@ == old(self).embeddings@,
                self.vector_store == v0.vector_store,
                self.chunks@.len() == v0.chunks.len() + j,
                self.chunks@.take(v0.chunks.len() as int) == v0.chunks,
                forall|p: int|
                    0 <= p < j ==> chunk_eq(
                        #[trigger] self.chunks@[v0.chunks.len() + p],
                        chunk_with_stamp(chunks@[p], stamp),
                    ),
                forall|d: Ulid|
                    #![trigger doc_chunks(self.chunks@, d)]
                    doc_chunks(self.chunks@, d).len() == doc_chunks(
                        v0.chunks + chunks@.take(j as int),
                        d,
                    ).len(),
                forall|d: Ulid| indexed_ok(#[trigger] doc_chunks(self.chunks@, d)),
                forall|p: int, q: int|
                    0 <= p < q < self.chunks@.len() ==> (#[trigger] self.chunks@[p]).id != (
                    #[trigger] self.chunks@[q]).id,
                forall|p: int|
                    0 <= p < self.chunks@.len() ==> has_doc_id(
                        v0.documents,
                        (#[trigger] self.chunks@[p]).doc_id,
                    ),
                forall|p: int|
                    0 <= p < self.chunks@.len() ==> hlc_le((#[trigger] self.chunks@[p]).hlc, stamp),
            decreases chunks@.len() - j,
        {
            let ghost prev_chunks = self.chunks@;
            let c = chunks[j].duplicate();
            let mut c = c;
            c.hlc = stamp;
            proof {
                assert(chunk_eq(c, chunk_with_stamp(chunks@[j as int], stamp)));
            }
            let ghost cg = c;
            self.chunks.push(c);
            proof {
                // the pushed chunk carries exactly the stamped fields
                assert(cg.id == chunks@[j as int].id);
                assert(cg.doc_id == chunks@[j as int].doc_id);
                assert(cg.chunk_index == chunks@[j as int].chunk_index);
                assert forall|d: Ulid|
                    #![trigger doc_chunks(self.chunks@, d)]
                    doc_chunks(self.chunks@, d).len() == doc_chunks(
                        v0.chunks + chunks@.take(j + 1),
                        d,
                    ).len() by {
                    let pred = chunk_of(d);
                    lemma_filter_push(prev_chunks, cg, pred);
                    lemma_filter_push(v0.chunks + chunks@.take(j as int), chunks@[j as int], pred);
                    assert((v0.chunks + chunks@.take(j as int)).push(chunks@[j as int]) =~= v0.chunks
                        + chunks@.take(j + 1));
                    assert(doc_chunks(prev_chunks, d).len() == doc_chunks(
                        v0.chunks + chunks@.take(j as int),
                        d,
                    ).len());
                    if cg.doc_id == d {
                        assert(doc_chunks(self.chunks@, d) == doc_chunks(prev_chunks, d).push(cg));
                        assert(doc_chunks(v0.chunks + chunks@.take(j + 1), d) == doc_chunks(
                            v0.chunks + chunks@.take(j as int),
                            d,
                        ).push(chunks@[j as int]));
                    } else {
                        assert(doc_chunks(self.chunks@, d) == doc_chunks(prev_chunks, d));
                        assert(doc_chunks(v0.chunks + chunks@.take(j + 1), d) == doc_chunks(
                            v0.chunks + chunks@.take(j as int),
                            d,
                        ));
                    }
                }
                assert forall|d: Ulid| indexed_ok(#[trigger] doc_chunks(self.chunks@, d)) by {
                    let pred = chunk_of(d);
                    lemma_filter_push(prev_chunks, cg, pred);
                    if cg.doc_id == d {
                        assert(cg.chunk_index as int == doc_chunks(
                            v0.chunks + chunks@.take(j as int),
                            d,
                        ).len());
                        assert(doc_chunks(self.chunks@, d) == doc_chunks(prev_chunks, d).push(cg));
                    } else {
                        assert(doc_chunks(self.chunks@, d) == doc_chunks(prev_chunks, d));
                    }
                }
                assert forall|p: int, q: int|
                    0 <= p < q < self.chunks@.len() implies (#[trigger] self.chunks@[p]).id != (
                #[trigger] self.chunks@[q]).id by {
                    if q == self.chunks@.len() - 1 {
                        assert(self.chunks@[q] == cg);
                        if p < v0.chunks.len() {
                            assert(self.chunks@[p] == v0.chunks[p]);
                            if v0.chunks[p].id == cg.id {
                                assert(has_chunk_id(v0.chunks, chunks@[j as int].id));
                            }
                        } else {
                            let b = p - v0.chunks.len();
                            assert(chunk_eq(
                                self.chunks@[p],
                                chunk_with_stamp(chunks@[b], stamp),
                            ));
                            assert(chunks@[b].id != chunks@[j as int].id);
                        }
                    } else {
                        assert(self.chunks@[p] == prev_chunks[p]);
                        assert(self.chunks@[q] == prev_chunks[q]);
                    }
                }
                assert(self.chunks@.take(v0.chunks.len() as int) =~= v0.chunks);
            }
            j += 1;
        }
        proof {
            assert(chunks@.take(chunks@.len() as int) =~= chunks@);
            assert(self@.embeddings =~= v0.embeddings);
        }
        Ok(())
    }

    /// The chunks of one document, in their dense index order.
    pub fn get_chunks_for_document(&self, doc_id: Ulid) -> (r: Result<Vec<Chunk>, RagError>)
        requires
            self.wf(),
        ensures
            r is Ok,
            r matches Ok(v) ==> {
                &&& v@.len() == doc_chunks(self@.chunks, doc_id).len()
                &&& forall|k: int|
                    0 <= k < v@.len() ==> chunk_eq(
                        #[trigger] v@[k],
                        doc_chunks(self@.chunks, doc_id)[k],
                    )
                &&& forall|k: int| 0 <= k < v@.len() ==> (#[trigger] v@[k]).chunk_index as int == k
            },
    {
        let ghost pred = chunk_of(doc_id);
        let mut out: Vec<Chunk> = Vec::new();
        let mut i: usize = 0;
        while i < self.chunks.len()
            invariant
                i <= self.chunks@.len(),
                pred == chunk_of(doc_id),
                out@.len() == doc_chunks(self.chunks@.take(i as int), doc_id).len(),
                forall|k: int|
                    0 <= k < out@.len() ==> chunk_eq(
                        #[trigger] out@[k],
                        doc_chunks(self.chunks@.take(i as int), doc_id)[k],
                    ),
            decreases self.chunks@.len() - i,
        {
            proof {
                lemma_filter_step(self.chunks@, i as int, pred);
                assert(self.chunks@.take(i + 1).take(i as int) =~= self.chunks@.take(i as int));
            }
            if self.chunks[i].doc_id == doc_id {
                let c = self.chunks[i].duplicate();
                proof {
                    assert(chunk_eq(c, self.chunks@[i as int]));
                }
                out.push(c);
            }
            i += 1;
        }
        proof {
            assert(self.chunks@.take(self.chunks@.len() as int) =~= self.chunks@);
            assert(indexed_ok(doc_chunks(self@.chunks, doc_id)));
        }
        Ok(out)
    }

    /// Look a chunk up by id.
    pub fn get_chunk(&self, id: Ulid) -> (r: Result<Option<Chunk>, RagError>)
        ensures
            r is Ok,
            r matches Ok(opt) ==> {
                &&& (opt is None <==> !has_chunk_id(self@.chunks, id))
                &&& (opt matches Some(c) ==> c.id == id && exists|i: int|
                    0 <= i < self@.chunks.len() && chunk_eq(c, #[trigger] self@.chunks[i]))
            },
    {
        let mut i: usize = 0;
        while i < self.chunks.len()
            invariant
                i <= self.chunks@.len(),
                forall|k: int| 0 <= k < i ==> (#[trigger] self.chunks@[k]).id != id,
            decreases self.chunks@.len() - i,
        {
            if self.chunks[i].id == id {
                let c = self.chunks[i].duplicate();
                proof {
                    assert(chunk_eq(c, self@.chunks[i as int]));
                }
                return Ok(Some(c));
            }
            i += 1;
        }
        Ok(None)
    }

    /// Delete the chunks of one document and their embeddings.
    pub fn delete_chunks_for_document(&mut self, doc_id: Ulid) -> (r: Result<(), RagError>)
        requires
            old(self).wf(),
        ensures
            final(self).wf(),
            r is Ok,
            final(self)@.collections == old(self)@.collections,
            final(self)@.documents == old(self)@.documents,
            final(self)@.chunks == old(self)@.chunks.filter(chunk_outside(doc_id)),
            final(self)@.embeddings == old(self)@.embeddings.filter(
                emb_alive(final(self)@.chunks),
            ),
            final(self)@.clock == old(self)@.clock,
            final(self)@.vector_store == old(self)@.vector_store,
    {
        let ghost v0 = self@;
        let ghost keep = chunk_outside(doc_id);
        let mut rest: Vec<Chunk> = Vec::new();
        core::mem::swap(&mut rest, &mut self.chunks);
        let ghost cseq = rest@;
        while rest.len() > 0
            invariant
                self.collections@ == old(self).collections@,
                self.documents@ == old(self).documents@,
                self.embeddings@ == old(self).embeddings@,
                self.clock == old(self).clock,
                self.vector_store == old(self).vector_store,
                cseq == old(self).chunks@,
                rest@.len() <= cseq.len(),
                rest@ =~= cseq.skip(cseq.len() - rest@.len()),
                self.chunks@ == cseq.take(cseq.len() - rest@.len()).filter(keep),
                keep == chunk_outside(doc_id),
            decreases rest@.len(),
        {
            let ghost done = cseq.len() - rest@.len();
            let c = rest.remove(0);
            proof {
                assert(c == cseq[done]);
                assert(rest@ =~= cseq.skip(done + 1));
                lemma_filter_step(cseq, done, keep);
                assert(cseq.take(done + 1).take(done) =~= cseq.take(done));
            }
            if c.doc_id != doc_id {
                self.chunks.push(c);
            }
        }
        proof {
            assert(cseq.take(cseq.len() as int) =~= cseq);
        }
        self.prune_embeddings();
        proof {
            self.lemma_restore_inv_chunks(v0, doc_id);
        }
        Ok(())
    }

    /// Re-establish the store invariant after deleting one document's
    /// chunks.
    proof fn lemma_restore_inv_chunks(&self, v0: StoreView, doc_id: Ulid)
        requires
            store_inv(v0),
            self@.collections == v0.collections,
            self@.documents == v0.documents,
            self@.chunks == v0.chunks.filter(chunk_outside(doc_id)),
            self@.embeddings == v0.embeddings.filter(emb_alive(self@.chunks)),
            self@.clock == v0.clock,
        ensures
            self.wf(),
    {
        let v = self@;
        let keep = chunk_outside(doc_id);
        let keep_emb = emb_alive(v.chunks);
        lemma_filter_preserves_rel(v0.chunks, keep, |a: Chunk, b: Chunk| a.id != b.id);
        lemma_filter_preserves_rel(
            v0.embeddings,
            keep_emb,
            |a: (Ulid, Seq<u8>), b: (Ulid, Seq<u8>)| a.0 != b.0,
        );
        lemma_filter_subset(v0.chunks, keep);
        lemma_filter_subset(v0.embeddings, keep_emb);
        v0.chunks.filter_lemma(keep);
        v0.embeddings.filter_lemma(keep_emb);
        assert forall|d: Ulid| indexed_ok(#[trigger] doc_chunks(v.chunks, d)) by {
            let dpred = chunk_of(d);
            if d != doc_id {
                assert forall|i: int|
                    0 <= i < v0.chunks.len() && dpred(#[trigger] v0.chunks[i]) implies keep(
                    v0.chunks[i],
                ) by {}
                lemma_filter_subsumed(v0.chunks, keep, dpred);
                assert(doc_chunks(v.chunks, d) == doc_chunks(v0.chunks, d));
            } else {
                v.chunks.filter_lemma(dpred);
                lemma_filter_subset(v.chunks, dpred);
                if doc_chunks(v.chunks, d).len() > 0 {
                    let e0 = doc_chunks(v.chunks, d)[0];
                    assert(dpred(e0));
                    let k = choose|k: int| 0 <= k < v.chunks.len() && v.chunks[k] == e0;
                    assert(keep(v.chunks[k]));
                    assert(false);
                }
            }
        }
        assert forall|i: int| 0 <= i < v.chunks.len() implies hlc_le(
            (#[trigger] v.chunks[i]).hlc,
            v.clock,
        ) by {
            let k = choose|k: int| 0 <= k < v0.chunks.len() && v0.chunks[k] == v.chunks[i];
        }
    }

    /// Store embedding payloads keyed by chunk id.
    ///
    /// Refused with a database error when the vector store is absent,
    /// when a chunk is missing, or when a chunk already has an
    /// embedding; with an invalid-argument error when the two lists
    /// disagree in length. Failure leaves the store unchanged.
    #[verifier::loop_isolation(false)]
    pub fn insert_embeddings(&mut self, chunk_ids: &Vec<Ulid>, embeddings: &Vec<Vec<u8>>) -> (r:
        Result<(), RagError>)
        requires
            old(self).wf(),
        ensures
            final(self).wf(),
            r is Err ==> *final(self) == *old(self),
            r matches Err(RagError::InvalidArgument { .. }) ==> old(self)@.vector_store
                && chunk_ids@.len() != embeddings@.len(),
            old(self)@.vector_store && chunk_ids@.len() != embeddings@.len() ==> r matches Err(
                RagError::InvalidArgument { .. },
            ),
            r is Err ==> (r matches Err(RagError::Database { .. }) || r matches Err(
                RagError::InvalidArgument { .. },
            )),
            !old(self)@.vector_store ==> (r matches Err(RagError::Database { .. })),
            r is Ok <==> old(self)@.vector_store && chunk_ids@.len() == embeddings@.len() && (
            forall|i: int|
                0 <= i < chunk_ids@.len() ==> has_chunk_id(
                    old(self)@.chunks,
                    #[trigger] chunk_ids@[i],
                )) && (forall|i: int, j: int|
                0 <= i < j < chunk_ids@.len() ==> (#[trigger] chunk_ids@[i]) != (
                #[trigger] chunk_ids@[j])) && (forall|i: int|
                0 <= i < chunk_ids@.len() ==> !exists|k: int|
                    0 <= k < old(self)@.embeddings.len() && (#[trigger] old(
                        self,
                    )@.embeddings[k]).0 == (#[trigger] chunk_ids@[i])),
            r is Ok ==> {
                &&& final(self)@.collections == old(self)@.collections
                &&& final(self)@.documents == old(self)@.documents
                &&& final(self)@.chunks == old(self)@.chunks
                &&& final(self)@.clock == old(self)@.clock
                &&& final(self)@.vector_store == old(self)@.vector_store
                &&& final(self)@.embeddings == old(self)@.embeddings + Seq::new(
                    chunk_ids@.len(),
                    |i: int| (chunk_ids@[i], embeddings@[i]@),
                )
            },
    {
        if !self.vector_store {
            return Err(RagError::database("the vector store is not available"));
        }
        if chunk_ids.len() != embeddings.len() {
            return Err(
                RagError::invalid_argument("chunk ids and embeddings must have the same length"),
            );
        }
        let ghost v0 = self@;
        let mut i: usize = 0;
        while i < chunk_ids.len()
            invariant
                i <= chunk_ids@.len(),
                forall|k: int| 0 <= k < i ==> has_chunk_id(v0.chunks, #[trigger] chunk_ids@[k]),
                forall|k: int, l: int|
                    0 <= k < l < i ==> (#[trigger] chunk_ids@[k]) != (#[trigger] chunk_ids@[l]),
                forall|k: int|
                    0 <= k < i ==> !exists|p: int|
                        0 <= p < v0.embeddings.len() && (#[trigger] v0.embeddings[p]).0 == (
                        #[trigger] chunk_ids@[k]),
            decreases chunk_ids@.len() - i,
        {
            if !vec_has_chunk(&self.chunks, chunk_ids[i]) {
                return Err(RagError::database("embedding names a missing chunk"));
            }
            if self.has_embedding_for(chunk_ids[i]) {
                return Err(RagError::database("chunk already has an embedding"));
            }
            let mut k: usize = 0;
            while k < i
                invariant
                    k <= i < chunk_ids@.len(),
                    forall|l: int| 0 <= l < k ==> (#[trigger] chunk_ids@[l]) != chunk_ids@[i as int],
                decreases i - k,
            {
                if chunk_ids[k] == chunk_ids[i] {
                    return Err(RagError::database("duplicate chunk id in embedding batch"));
                }
                k += 1;
            }
            i += 1;
        }
        let mut j: usize = 0;
        while j < chunk_ids.len()
            invariant
                j <= chunk_ids@.len(),
                self.collections@ == v0.collections,
                self.documents@ == v0.documents,
                self.chunks@ == v0.chunks,
                self.clock == v0.clock,
                self.vector_store == v0.vector_store,
                self@.embeddings =~= v0.embeddings + Seq::new(
                    j as nat,
                    |p: int| (chunk_ids@[p], embeddings@[p]@),
                ),
            decreases chunk_ids@.len() - j,
        {
            let ghost prev = self@.embeddings;
            let payload = crate::types::clone_bytes(&embeddings[j]);
            self.embeddings.push((chunk_ids[j], payload));
            proof {
                assert(self@.embeddings =~= prev.push((chunk_ids@[j as int], embeddings@[j as int]@)));
                assert(self@.embeddings =~= v0.embeddings + Seq::new(
                    (j + 1) as nat,
                    |p: int| (chunk_ids@[p], embeddings@[p]@),
                ));
            }
            j += 1;
        }
        proof {
            // uniqueness and foreign keys of the extended embedding table
            let emb = self@.embeddings;
            assert forall|p: int, q: int| 0 <= p < q < emb.len() implies (
            #[trigger] emb[p]).0 != (#[trigger] emb[q]).0 by {
                if p >= v0.embeddings.len() {
                } else if q >= v0.embeddings.len() {
                    assert(emb[q].0 == chunk_ids@[q - v0.embeddings.len()]);
                }
            }
        }
        Ok(())
    }

    /// The highest clock stamp across collections, documents, and
    /// chunks; the zero clock when every table is empty.
    pub fn get_watermark(&self) -> (r: Result<HybridLogicalClock, RagError>)
        ensures
            r is Ok,
            r matches Ok(w) ==> {
                &&& forall|i: int|
                    0 <= i < self@.collections.len() ==> hlc_le(
                        (#[trigger] self@.collections[i]).hlc,
                        w,
                    )
                &&& forall|i: int|
                    0 <= i < self@.documents.len() ==> hlc_le((#[trigger] self@.documents[i]).hlc, w)
                &&& forall|i: int|
                    0 <= i < self@.chunks.len() ==> hlc_le((#[trigger] self@.chunks[i]).hlc, w)
                &&& (self@.collections.len() == 0 && self@.documents.len() == 0
                    && self@.chunks.len() == 0 ==> w == (HybridLogicalClock {
                    wall_time: 0u64,
                    logical: 0u32,
                    node_id: 0u16,
                }))
                &&& (w == (HybridLogicalClock { wall_time: 0u64, logical: 0u32, node_id: 0u16 })
                    || (exists|i: int|
                    0 <= i < self@.collections.len() && (#[trigger] self@.collections[i]).hlc == w)
                    || (exists|i: int|
                    0 <= i < self@.documents.len() && (#[trigger] self@.documents[i]).hlc == w)
                    || (exists|i: int|
                    0 <= i < self@.chunks.len() && (#[trigger] self@.chunks[i]).hlc == w))
            },
    {
        let mut w = HybridLogicalClock::zero();
        let ghost zero = w;
        let mut i: usize = 0;
        while i < self.collections.len()
            invariant
                i <= self.collections@.len(),
                forall|k: int|
                    0 <= k < i ==> hlc_le((#[trigger] self.collections@[k]).hlc, w),
                w == zero || exists|k: int|
                    0 <= k < i && (#[trigger] self.collections@[k]).hlc == w,
                zero == (HybridLogicalClock { wall_time: 0u64, logical: 0u32, node_id: 0u16 }),
            decreases self.collections@.len() - i,
        {
            if w.lt(&self.collections[i].hlc) {
                w = self.collections[i].hlc;
            }
            i += 1;
        }
        let mut j: usize = 0;
        while j < self.documents.len()
            invariant
                j <= self.documents@.len(),
                forall|k: int|
                    0 <= k < self.collections@.len() ==> hlc_le(
                        (#[trigger] self.collections@[k]).hlc,
                        w,
                    ),
                forall|k: int| 0 <= k < j ==> hlc_le((#[trigger] self.documents@[k]).hlc, w),
                w == zero || (exists|k: int|
                    0 <= k < self.collections@.len() && (#[trigger] self.collections@[k]).hlc == w)
                    || (exists|k: int| 0 <= k < j && (#[trigger] self.documents@[k]).hlc == w),
                zero == (HybridLogicalClock { wall_time: 0u64, logical: 0u32, node_id: 0u16 }),
            decreases self.documents@.len() - j,
        {
            if w.lt(&self.documents[j].hlc) {
                w = self.documents[j].hlc;
            }
            j += 1;
        }
        let mut k: usize = 0;
        while k < self.chunks.len()
            invariant
                k <= self.chunks@.len(),
                forall|p: int|
                    0 <= p < self.collections@.len() ==> hlc_le(
                        (#[trigger] self.collections@[p]).hlc,
                        w,
                    ),
                forall|p: int|
                    0 <= p < self.documents@.len() ==> hlc_le((#[trigger] self.documents@[p]).hlc, w),
                forall|p: int| 0 <= p < k ==> hlc_le((#[trigger] self.chunks@[p]).hlc, w),
                w == zero || (exists|p: int|
                    0 <= p < self.collections@.len() && (#[trigger] self.collections@[p]).hlc == w)
                    || (exists|p: int|
                    0 <= p < self.documents@.len() && (#[trigger] self.documents@[p]).hlc == w) || (
                exists|p: int| 0 <= p < k && (#[trigger] self.chunks@[p]).hlc == w),
                zero == (HybridLogicalClock { wall_time: 0u64, logical: 0u32, node_id: 0u16 }),
            decreases self.chunks@.len() - k,
        {
            if w.lt(&self.chunks[k].hlc) {
                w = self.chunks[k].hlc;
            }
            k += 1;
        }
        Ok(w)
    }

    /// Count rows within an optional collection filter, and estimate the
    /// stored bytes over every table.
    pub fn get_stats(&self, collection: Option<&str>) -> (r: Result<Stats, RagError>)
        ensures
            r is Ok,
            r matches Ok(s) ==> {
                &&& s.collections == self@.collections.len()
                &&& s.embeddings == self@.embeddings.len()
                &&& (collection is None ==> s.documents == self@.documents.len() && s.chunks
                    == self@.chunks.len() && s.filter is None)
                &&& (collection matches Some(name) ==> {
                    &&& s.documents == self@.documents.filter(doc_inside(name@)).len()
                    &&& s.chunks == self@.chunks.filter(
                        chunk_alive(self@.documents.filter(doc_inside(name@))),
                    ).len()
                    &&& (s.filter matches Some(f) && f@ == name@)
                })
            },
    {
        let collections_n = self.collections.len() as u64;
        let embeddings_n = self.embeddings.len() as u64;
        let (documents_n, chunks_n, filter) = match collection {
            None => (self.documents.len() as u64, self.chunks.len() as u64, None),
            Some(name) => {
                let ghost dpred = doc_inside(name@);
                let mut dn: usize = 0;
                let mut i: usize = 0;
                while i < self.documents.len()
                    invariant
                        i <= self.documents@.len(),
                        dn == self.documents@.take(i as int).filter(dpred).len(),
                        dn <= i,
                        dpred == doc_inside(name@),
                    decreases self.documents@.len() - i,
                {
                    proof {
                        lemma_filter_step(self.documents@, i as int, dpred);
                        assert(self.documents@.take(i + 1).take(i as int) =~= self.documents@.take(
                            i as int,
                        ));
                    }
                    if str_eq(self.documents[i].collection.as_str(), name) {
                        dn += 1;
                    }
                    i += 1;
                }
                proof {
                    assert(self.documents@.take(self.documents@.len() as int)
                        =~= self.documents@);
                }
                let ghost cpred = chunk_alive(self@.documents.filter(doc_inside(name@)));
                let mut cn: usize = 0;
                let mut j: usize = 0;
                while j < self.chunks.len()
                    invariant
                        j <= self.chunks@.len(),
                        cn == self.chunks@.take(j as int).filter(cpred).len(),
                        cn <= j,
                        cpred == chunk_alive(self@.documents.filter(doc_inside(name@))),
                    decreases self.chunks@.len() - j,
                {
                    proof {
                        lemma_filter_step(self.chunks@, j as int, cpred);
                        assert(self.chunks@.take(j + 1).take(j as int) =~= self.chunks@.take(
                            j as int,
                        ));
                    }
                    let mut hit = false;
                    let mut k: usize = 0;
                    let ghost fdocs = self@.documents.filter(doc_inside(name@));
                    while k < self.documents.len()
                        invariant
                            k <= self.documents@.len(),
                            j < self.chunks@.len(),
                            fdocs == self@.documents.filter(doc_inside(name@)),
                            hit ==> has_doc_id(fdocs, self.chunks@[j as int].doc_id),
                            !hit ==> forall|p: int|
                                0 <= p < k ==> !((#[trigger] self.documents@[p]).id
                                    == self.chunks@[j as int].doc_id && self.documents@[p].collection@
                                    == name@),
                        ensures
                            hit ==> has_doc_id(fdocs, self.chunks@[j as int].doc_id),
                            !hit ==> forall|p: int|
                                0 <= p < self.documents@.len() ==> !((
                                #[trigger] self.documents@[p]).id == self.chunks@[j as int].doc_id
                                    && self.documents@[p].collection@ == name@),
                        decreases self.documents@.len() - k,
                    {
                        if self.documents[k].id == self.chunks[j].doc_id && str_eq(
                            self.documents[k].collection.as_str(),
                            name,
                        ) {
                            proof {
                                self@.documents.filter_lemma(doc_inside(name@));
                                assert(doc_inside(name@)(self@.documents[k as int]));
                                assert(fdocs.contains(self@.documents[k as int]));
                                let w = choose|w: int|
                                    0 <= w < fdocs.len() && fdocs[w] == self@.documents[k as int];
                                assert(fdocs[w].id == self.chunks@[j as int].doc_id);
                            }
                            hit = true;
                            break;
                        }
                        k += 1;
                    }
                    proof {
                        if !hit {
                            lemma_filter_subset(self@.documents, doc_inside(name@));
                            self@.documents.filter_lemma(doc_inside(name@));
                            if has_doc_id(fdocs, self.chunks@[j as int].doc_id) {
                                let w = choose|w: int|
                                    0 <= w < fdocs.len() && (#[trigger] fdocs[w]).id
                                        == self.chunks@[j as int].doc_id;
                                assert(fdocs == self@.documents.filter(doc_inside(name@)));
                                assert(doc_inside(name@)(fdocs[w]));
                                assert(fdocs[w].collection@ == name@);
                                let p = choose|p: int|
                                    0 <= p < self@.documents.len() && self@.documents[p]
                                        == fdocs[w];
                                assert(self.documents@[p].id == self.chunks@[j as int].doc_id);
                                assert(self.documents@[p].collection@ == name@);
                                assert(false);
                            }
                        }
                    }
                    if hit {
                        cn += 1;
                    }
                    j += 1;
                }
                proof {
                    assert(self.chunks@.take(self.chunks@.len() as int) =~= self.chunks@);
                }
                (dn as u64, cn as u64, Some(String::from_str(name)))
            },
        };
        let storage = self.storage_bytes();
        Ok(
            Stats {
                collections: collections_n,
                documents: documents_n,
                chunks: chunks_n,
                embeddings: embeddings_n,
                storage_bytes: storage,
                filter,
            },
        )
    }

    /// An estimate of the bytes the store holds: the text of every chunk
    /// and retained document plus every embedding payload, saturating at
    /// the largest representable count.
    fn storage_bytes(&self) -> u64 {
        let mut total: u64 = 0;
        let mut i: usize = 0;
        while i < self.chunks.len()
            invariant
                i <= self.chunks@.len(),
            decreases self.chunks@.len() - i,
        {
            let b = self.chunks[i].content.as_str().len() as u64;
            if total > u64::MAX - b {
                total = u64::MAX;
            } else {
                total = total + b;
            }
            i += 1;
        }
        let mut j: usize = 0;
        while j < self.documents.len()
            invariant
                j <= self.documents@.len(),
            decreases self.documents@.len() - j,
        {
            let b = match &self.documents[j].raw_content {
                Some(c) => c.as_str().len() as u64,
                None => 0,
            };
            if total > u64::MAX - b {
                total = u64::MAX;
            } else {
                total = total + b;
            }
            j += 1;
        }
        let mut k: usize = 0;
        while k < self.embeddings.len()
            invariant
                k <= self.embeddings@.len(),
            decreases self.embeddings@.len() - k,
        {
            let b = self.embeddings[k].1.len() as u64;
            if total > u64::MAX - b {
                total = u64::MAX;
            } else {
                total = total + b;
            }
            k += 1;
        }
        total
    }

    /// Rank stored embeddings against a query embedding. This engine
    /// never ranks vectors: cosine distance is floating-point work that
    /// lives with the native vector index, so the call reports the
    /// degraded mode with a typed database error.
    pub fn vector_search(&self, _embedding: &Vec<u8>, _k: u32, _collection: Option<&str>) -> (r:
        Result<Vec<(Ulid, Score)>, RagError>)
        ensures
            r matches Err(RagError::Database { .. }),
    {
        Err(RagError::database("vector ranking is not available on the in-memory index"))
    }

    /// The change feed since a clock stamp. The replication interface is
    /// present, but change retrieval is not part of this engine: the
    /// feed is empty.
    pub fn get_changes_since(&self, _hlc: &HybridLogicalClock) -> (r: Result<
        Vec<SyncChange>,
        RagError,
    >)
        ensures
            r matches Ok(v) && v@.len() == 0,
    {
        Ok(Vec::new())
    }

    /// Apply a change feed. The replication interface is present, but
    /// conflict application is not part of this engine: nothing changes.
    pub fn apply_changes(&self, _changes: &Vec<SyncChange>) -> (r: Result<(), RagError>)
        ensures
            r is Ok,
    {
        Ok(())
    }

    /// Score every chunk against the query and return the best matches.
    ///
    /// The in-memory lexical index scores a chunk by how often the
    /// lowercased query occurs in the chunk's lowercased text; only
    /// chunks with a positive score are returned, best first, at most
    /// `k` of them, filtered to a collection when one is named.
    #[verifier::loop_isolation(false)]
    #[verifier::rlimit(100)]
    pub fn keyword_search(&self, query: &str, k: u32, collection: Option<&str>) -> (r: Result<
        Vec<(Ulid, u64)>,
        RagError,
    >)
        requires
            self.wf(),
        ensures
            r is Ok,
            r matches Ok(v) ==> {
                &&& v@.len() <= k
                &&& forall|i: int, j: int|
                    0 <= i < j < v@.len() ==> (#[trigger] v@[i]).1 >= (#[trigger] v@[j]).1
                &&& forall|i: int, j: int|
                    0 <= i < j < v@.len() ==> (#[trigger] v@[i]).0 != (#[trigger] v@[j]).0
                &&& forall|i: int|
                    0 <= i < v@.len() ==> kw_hit_ok(
                        self@,
                        query@,
                        spec_opt_name(collection),
                        #[trigger] v@[i],
                    )
                &&& forall|c: int|
                    #[trigger] kw_candidate(self@, query@, spec_opt_name(collection), c) ==> ((
                    exists|i: int|
                        0 <= i < v@.len() && (#[trigger] v@[i]).0 == self@.chunks[c].id) || (
                    v@.len() == k && (k >= 1 ==> v@[k as int - 1].1 >= count_occurrences(
                        ascii_lower(self@.chunks[c].content@),
                        ascii_lower(query@),
                    ))))
            },
    {
        let needle = crate::types::lower_chars(query);
        let mut matched: Vec<(Ulid, u64)> = Vec::new();
        let mut i: usize = 0;
        while i < self.chunks.len()
            invariant
                i <= self.chunks@.len(),
                needle@ == ascii_lower(query@),
                forall|p: int, q: int|
                    0 <= p < q < matched@.len() ==> (#[trigger] matched@[p]).0 != (
                    #[trigger] matched@[q]).0,
                forall|p: int|
                    0 <= p < matched@.len() ==> kw_hit_ok(
                        self@,
                        query@,
                        spec_opt_name(collection),
                        #[trigger] matched@[p],
                    ),
                forall|c: int|
                    c < i && #[trigger] kw_candidate(self@, query@, spec_opt_name(collection), c)
                        ==> exists|p: int|
                        0 <= p < matched@.len() && (#[trigger] matched@[p]).0
                            == self@.chunks[c].id,
            decreases self.chunks@.len() - i,
        {
            let in_scope: bool = match collection {
                None => true,
                Some(name) => {
                    let mut hit = false;
                    let mut d: usize = 0;
                    #[verifier::loop_isolation(true)]
                    while d < self.documents.len()
                        invariant
                            d <= self.documents@.len(),
                            i < self.chunks@.len(),
                            hit ==> chunk_in_collection(self@, self@.chunks[i as int], name@),
                            !hit ==> forall|p: int|
                                0 <= p < d ==> !((#[trigger] self.documents@[p]).id
                                    == self.chunks@[i as int].doc_id
                                    && self.documents@[p].collection@ == name@),
                        ensures
                            hit ==> chunk_in_collection(self@, self@.chunks[i as int], name@),
                            !hit ==> forall|p: int|
                                0 <= p < self.documents@.len() ==> !((
                                #[trigger] self.documents@[p]).id
                                    == self.chunks@[i as int].doc_id
                                    && self.documents@[p].collection@ == name@),
                        decreases self.documents@.len() - d,
                    {
                        if self.documents[d].id == self.chunks[i].doc_id && str_eq(
                            self.documents[d].collection.as_str(),
                            name,
                        ) {
                            proof {
                                assert(chunk_in_collection(self@, self@.chunks[i as int], name@));
                            }
                            hit = true;
                            break;
                        }
                        d += 1;
                    }
                    hit
                },
            };
            proof {
                if !in_scope {
                    match collection {
                        Some(name) => {
                            if chunk_in_collection(self@, self@.chunks[i as int], name@) {
                                let dd = choose|dd: int|
                                    0 <= dd < self@.documents.len() && (
                                    #[trigger] self@.documents[dd]).id
                                        == self@.chunks[i as int].doc_id
                                        && self@.documents[dd].collection@ == name@;
                                assert(false);
                            }
                        },
                        None => {
                            assert(false);
                        },
                    }
                }
            }
            if in_scope {
                let hay = crate::types::lower_chars(self.chunks[i].content.as_str());
                let score = count_occ_chars(&hay, &needle);
                proof {
                    assert(score == count_occurrences(
                        ascii_lower(self@.chunks[i as int].content@),
                        ascii_lower(query@),
                    ));
                }
                if score > 0 {
                    let ghost prev = matched@;
                    // a chunk id enters the result at most once: ids are
                    // unique in the table, and each loop step looks at a
                    // new row
                    let mut dup = false;
                    let mut q: usize = 0;
                    #[verifier::loop_isolation(true)]
                    while q < matched.len()
                        invariant
                            q <= matched@.len(),
                            !dup ==> forall|p: int|
                                0 <= p < q ==> (#[trigger] matched@[p]).0
                                    != self@.chunks[i as int].id,
                            dup ==> exists|p: int|
                                0 <= p < matched@.len() && (#[trigger] matched@[p]).0
                                    == self@.chunks[i as int].id,
                            i < self.chunks@.len(),
                        ensures
                            !dup ==> forall|p: int|
                                0 <= p < matched@.len() ==> (#[trigger] matched@[p]).0
                                    != self@.chunks[i as int].id,
                            dup ==> exists|p: int|
                                0 <= p < matched@.len() && (#[trigger] matched@[p]).0
                                    == self@.chunks[i as int].id,
                        decreases matched@.len() - q,
                    {
                        if matched[q].0 == self.chunks[i].id {
                            dup = true;
                            break;
                        }
                        q += 1;
                    }
                    if !dup {
                        let ghost prev_m = matched@;
                        matched.push((self.chunks[i].id, score as u64));
                        proof {
                            let w = matched@.len() - 1;
                            assert(matched@[w].0 == self@.chunks[i as int].id);
                            assert(matched@[w].1 == count_occurrences(
                                ascii_lower(self@.chunks[i as int].content@),
                                ascii_lower(query@),
                            ));
                            assert(matched@[w].1 > 0);
                            assert(kw_hit_ok(
                                self@,
                                query@,
                                spec_opt_name(collection),
                                matched@[w],
                            ));
                            assert forall|c: int|
                                c < i + 1 && #[trigger] kw_candidate(
                                    self@,
                                    query@,
                                    spec_opt_name(collection),
                                    c,
                                ) implies exists|p: int|
                                0 <= p < matched@.len() && (#[trigger] matched@[p]).0
                                    == self@.chunks[c].id by {
                                if c < i {
                                    assert(kw_candidate(
                                        self@,
                                        query@,
                                        spec_opt_name(collection),
                                        c,
                                    ));
                                    let p = choose|p: int|
                                        0 <= p < prev_m.len() && (#[trigger] prev_m[p]).0
                                            == self@.chunks[c].id;
                                    assert(matched@[p].0 == self@.chunks[c].id);
                                } else {
                                    assert(matched@[w].0 == self@.chunks[c].id);
                                }
                            }
                        }
                    } else {
                        proof {
                            assert(exists|p: int|
                                0 <= p < matched@.len() && (#[trigger] matched@[p]).0
                                    == self@.chunks[i as int].id);
                        }
                    }
                }
            }
            i += 1;
        }
        // order best first
        let mut sorted: Vec<(Ulid, u64)> = Vec::new();
        while matched.len() > 0
            invariant
                forall|p: int, q: int|
                    0 <= p < q < sorted@.len() ==> (#[trigger] sorted@[p]).1 >= (
                    #[trigger] sorted@[q]).1,
                forall|p: int, q: int|
                    0 <= p < sorted@.len() && 0 <= q < matched@.len() ==> (
                    #[trigger] sorted@[p]).1 >= (#[trigger] matched@[q]).1,
                forall|p: int, q: int|
                    0 <= p < q < sorted@.len() ==> (#[trigger] sorted@[p]).0 != (
                    #[trigger] sorted@[q]).0,
                forall|p: int, q: int|
                    0 <= p < sorted@.len() && 0 <= q < matched@.len() ==> (
                    #[trigger] sorted@[p]).0 != (#[trigger] matched@[q]).0,
                forall|p: int, q: int|
                    0 <= p < q < matched@.len() ==> (#[trigger] matched@[p]).0 != (
                    #[trigger] matched@[q]).0,
                forall|p: int|
                    0 <= p < matched@.len() ==> kw_hit_ok(
                        self@,
                        query@,
                        spec_opt_name(collection),
                        #[trigger] matched@[p],
                    ),
                forall|p: int|
                    0 <= p < sorted@.len() ==> kw_hit_ok(
                        self@,
                        query@,
                        spec_opt_name(collection),
                        #[trigger] sorted@[p],
                    ),
                forall|c: int|
                    #[trigger] kw_candidate(self@, query@, spec_opt_name(collection), c) ==> ((
                    exists|p: int|
                        0 <= p < sorted@.len() && (#[trigger] sorted@[p]).0 == self@.chunks[c].id)
                        || exists|p: int|
                        0 <= p < matched@.len() && (#[trigger] matched@[p]).0
                            == self@.chunks[c].id),
            decreases matched@.len(),
        {
            let mut best: usize = 0;
            let mut bi: usize = 1;
            while bi < matched.len()
                invariant
                    best < bi <= matched@.len(),
                    matched@.len() > 0,
                    forall|p: int|
                        0 <= p < bi ==> matched@[best as int].1 >= (#[trigger] matched@[p]).1,
                decreases matched@.len() - bi,
            {
                if matched[bi].1 > matched[best].1 {
                    best = bi;
                }
                bi += 1;
            }
            let ghost prev_matched = matched@;
            let ghost prev_sorted = sorted@;
            let e = matched.remove(best);
            proof {
                assert(e == prev_matched[best as int]);
                assert forall|q: int| 0 <= q < matched@.len() implies ((#[trigger] matched@[q])
                    == prev_matched[q] || matched@[q] == prev_matched[q + 1]) by {}
            }
            sorted.push(e);
            proof {
                assert forall|c: int|
                    #[trigger] kw_candidate(self@, query@, spec_opt_name(collection), c) implies ((
                    exists|p: int|
                        0 <= p < sorted@.len() && (#[trigger] sorted@[p]).0 == self@.chunks[c].id)
                        || exists|p: int|
                        0 <= p < matched@.len() && (#[trigger] matched@[p]).0
                            == self@.chunks[c].id) by {
                    let id = self@.chunks[c].id;
                    if exists|p: int| 0 <= p < prev_sorted.len() && prev_sorted[p].0 == id {
                        let p = choose|p: int|
                            0 <= p < prev_sorted.len() && prev_sorted[p].0 == id;
                        assert(sorted@[p].0 == id);
                    } else {
                        let p = choose|p: int|
                            0 <= p < prev_matched.len() && prev_matched[p].0 == id;
                        if p == best as int {
                            assert(sorted@[sorted@.len() - 1].0 == id);
                        } else if p < best as int {
                            assert(matched@[p].0 == id);
                        } else {
                            assert(matched@[p - 1].0 == id);
                        }
                    }
                }
            }
        }
        // cut to the requested count
        let mut out: Vec<(Ulid, u64)> = Vec::new();
        let mut j: usize = 0;
        while j < sorted.len()
            invariant
                j <= sorted@.len(),
                out@.len() == if j < k as int {
                    j as int
                } else {
                    k as int
                },
                forall|p: int| 0 <= p < out@.len() ==> #[trigger] out@[p] == sorted@[p],
                forall|p: int, q: int|
                    0 <= p < q < sorted@.len() ==> (#[trigger] sorted@[p]).1 >= (
                    #[trigger] sorted@[q]).1,
                forall|p: int, q: int|
                    0 <= p < q < sorted@.len() ==> (#[trigger] sorted@[p]).0 != (
                    #[trigger] sorted@[q]).0,
                forall|p: int|
                    0 <= p < sorted@.len() ==> kw_hit_ok(
                        self@,
                        query@,
                        spec_opt_name(collection),
                        #[trigger] sorted@[p],
                    ),
            decreases sorted@.len() - j,
        {
            if out.len() >= k as usize {
                break;
            }
            out.push(sorted[j]);
            j += 1;
        }
        proof {
            assert forall|c: int|
                #[trigger] kw_candidate(self@, query@, spec_opt_name(collection), c) implies ((
                exists|i: int|
                    0 <= i < out@.len() && (#[trigger] out@[i]).0 == self@.chunks[c].id) || (
                out@.len() == k && (k >= 1 ==> out@[k as int - 1].1 >= count_occurrences(
                    ascii_lower(self@.chunks[c].content@),
                    ascii_lower(query@),
                )))) by {
                let id = self@.chunks[c].id;
                let cnt = count_occurrences(
                    ascii_lower(self@.chunks[c].content@),
                    ascii_lower(query@),
                );
                let p = choose|p: int| 0 <= p < sorted@.len() && (#[trigger] sorted@[p]).0 == id;
                if p < out@.len() {
                    assert(out@[p].0 == id);
                } else {
                    assert(out@.len() == k);
                    assert(kw_hit_ok(self@, query@, spec_opt_name(collection), sorted@[p]));
                    let c2 = choose|c2: int|
                        0 <= c2 < self@.chunks.len() && sorted@[p].0 == (
                        #[trigger] self@.chunks[c2]).id && sorted@[p].1 == count_occurrences(
                            ascii_lower(self@.chunks[c2].content@),
                            ascii_lower(query@),
                        ) && sorted@[p].1 > 0;
                    if c2 != c {
                        assert(self@.chunks[c2].id == self@.chunks[c].id);
                        assert(false);
                    }
                    assert(sorted@[p].1 == cnt);
                    if k >= 1 {
                        assert(out@[k as int - 1] == sorted@[k as int - 1]);
                        assert(sorted@[k as int - 1].1 >= sorted@[p].1);
                    }
                }
            }
        }
        Ok(out)
    }
}

/// FTS5-reserved characters inside a query term.
pub open spec fn is_fts_special(c: char) -> bool {
    c == '+' || c == '-' || c == '*' || c == '(' || c == ')' || c == '"'
}

/// Whether a term holds any reserved character.
pub open spec fn has_fts_special(t: Seq<char>) -> bool {
    exists|i: int| 0 <= i < t.len() && is_fts_special(#[trigger] t[i])
}

/// The term with every inner double quote doubled.
pub open spec fn double_quotes(t: Seq<char>) -> Seq<char>
    decreases t.len(),
{
    if t.len() == 0 {
        t
    } else {
        (if t[0] == '"' {
            seq!['"', '"']
        } else {
            seq![t[0]]
        }) + double_quotes(t.drop_first())
    }
}

/// A term as it goes to the full-text index: quoted with inner quotes
/// doubled when it holds a reserved character, untouched otherwise.
pub open spec fn escape_term(t: Seq<char>) -> Seq<char> {
    if has_fts_special(t) {
        seq!['"'] + double_quotes(t) + seq!['"']
    } else {
        t
    }
}

/// The separator before the next emitted term: a space, unless nothing
/// was emitted yet.
pub open spec fn term_sep(out: Seq<char>) -> Seq<char> {
    if out.len() > 0 {
        seq![' ']
    } else {
        Seq::empty()
    }
}

/// The escaping scan: walk the query, keeping the current term as the
/// range from `start` to `i`, and emit each completed term escaped,
/// space-joined.
pub open spec fn esc_scan(s: Seq<char>, i: int, start: int, out: Seq<char>) -> Seq<char>
    decreases s.len() - i when 0 <= start <= i <= s.len()
{
    if i >= s.len() {
        if start < i {
            out + term_sep(out) + escape_term(s.subrange(start, i))
        } else {
            out
        }
    } else if crate::chunker::is_space(s[i]) {
        if start < i {
            esc_scan(s, i + 1, i + 1, out + term_sep(out) + escape_term(s.subrange(start, i)))
        } else {
            esc_scan(s, i + 1, i + 1, out)
        }
    } else {
        esc_scan(s, i + 1, start, out)
    }
}

/// The escaped form of a whole query: its whitespace-separated terms,
/// each quoted when it holds an FTS5-reserved character, space-joined.
pub open spec fn spec_escape_fts5(s: Seq<char>) -> Seq<char> {
    esc_scan(s, 0, 0, Seq::empty())
}

proof fn lemma_double_quotes_push(t: Seq<char>, c: char)
    ensures
        double_quotes(t.push(c)) == double_quotes(t) + (if c == '"' {
            seq!['"', '"']
        } else {
            seq![c]
        }),
    decreases t.len(),
{
    if t.len() == 0 {
        assert(t.push(c).drop_first() =~= t);
        assert(double_quotes(t.push(c)) =~= double_quotes(t) + (if c == '"' {
            seq!['"', '"']
        } else {
            seq![c]
        }));
    } else {
        lemma_double_quotes_push(t.drop_first(), c);
        assert(t.push(c).drop_first() =~= t.drop_first().push(c));
        assert(double_quotes(t.push(c)) =~= double_quotes(t) + (if c == '"' {
            seq!['"', '"']
        } else {
            seq![c]
        }));
    }
}

/// Append one escaped term, preceded by a space when the output already
/// holds one.
#[verifier::loop_isolation(false)]
fn append_escaped_term(query: &str, a: usize, b: usize, out: &mut String)
    requires
        a < b <= query@.len(),
    ensures
        final(out)@ == old(out)@ + term_sep(old(out)@) + escape_term(
            query@.subrange(a as int, b as int),
        ),
{
    let ghost term = query@.subrange(a as int, b as int);
    if !out.as_str().is_empty() {
        out.append(" ");
        proof {
            reveal_strlit(" ");
            assert(out@ =~= old(out)@ + term_sep(old(out)@));
        }
    } else {
        proof {
            assert(out@ =~= old(out)@ + term_sep(old(out)@));
        }
    }
    let ghost based = out@;
    // does the term hold a reserved character?
    let mut special = false;
    let mut p: usize = a;
    while p < b
        invariant
            a <= p <= b,
            special <==> exists|k: int| a <= k < p && is_fts_special(#[trigger] query@[k]),
            out@ == based,
        decreases b - p,
    {
        let c = query.get_char(p);
        let hit = c == '+' || c == '-' || c == '*' || c == '(' || c == ')' || c == '"';
        proof {
            if hit {
                assert(is_fts_special(query@[p as int]));
            }
        }
        special = special || hit;
        p += 1;
    }
    proof {
        if special {
            assert(has_fts_special(term)) by {
                let k = choose|k: int| a <= k < b && is_fts_special(#[trigger] query@[k]);
                assert(term[k - a] == query@[k]);
            }
        } else {
            if has_fts_special(term) {
                let k = choose|k: int| 0 <= k < term.len() && is_fts_special(#[trigger] term[k]);
                assert(query@[a + k] == term[k]);
                assert(false);
            }
        }
    }
    if !special {
        out.append(query.substring_char(a, b));
        proof {
            assert(out@ =~= based + escape_term(term));
        }
        return ;
    }
    out.append("\"");
    proof {
        reveal_strlit("\"");
        assert(query@.subrange(a as int, a as int) =~= Seq::<char>::empty());
        assert(out@ =~= based + seq!['"'] + double_quotes(query@.subrange(a as int, a as int)));
    }
    let mut q: usize = a;
    while q < b
        invariant
            a <= q <= b,
            out@ == based + seq!['"'] + double_quotes(query@.subrange(a as int, q as int)),
        decreases b - q,
    {
        let ghost prefix = query@.subrange(a as int, q as int);
        let c = query.get_char(q);
        if c == '"' {
            out.append("\"\"");
            proof {
                reveal_strlit("\"\"");
            }
        } else {
            out.append(query.substring_char(q, q + 1));
        }
        proof {
            lemma_double_quotes_push(prefix, query@[q as int]);
            assert(query@.subrange(a as int, q + 1) =~= prefix.push(query@[q as int]));
            assert(query@.subrange(q as int, q + 1) =~= seq![query@[q as int]]);
            assert(out@ =~= based + seq!['"'] + double_quotes(query@.subrange(a as int, q + 1)));
        }
        q += 1;
    }
    out.append("\"");
    proof {
        assert(out@ =~= based + (seq!['"'] + double_quotes(term) + seq!['"']));
        assert(out@ =~= based + escape_term(term));
    }
}

/// Prepare a query for the full-text index: split on whitespace, quote
/// each term that holds an FTS5-reserved character with inner quotes
/// doubled, and join the terms with single spaces.
#[verifier::loop_isolation(false)]
pub fn escape_fts5_query(query: &str) -> (r: String)
    ensures
        r@ == spec_escape_fts5(query@),
{
    let len = query.unicode_len();
    let mut out = String::new();
    let mut start: usize = 0;
    let mut i: usize = 0;
    while i < len
        invariant
            0 <= start <= i <= len,
            spec_escape_fts5(query@) == esc_scan(query@, i as int, start as int, out@),
        decreases len - i,
    {
        let c = query.get_char(i);
        if c == ' ' || c == '\t' || c == '\n' || c == '\r' || c == '\u{0b}' || c == '\u{0c}' {
            if start < i {
                append_escaped_term(query, start, i, &mut out);
            }
            start = i + 1;
        }
        i += 1;
    }
    if start < len {
        append_escaped_term(query, start, len, &mut out);
    }
    out
}

} // verus!
