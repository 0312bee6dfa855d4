//! The tool-facing facade: collections, ingest, search, and stats over
//! the in-memory store.
//!
//! The ingest pipeline verifies the target collection, persists a
//! content-hashed document, chunks the content, and persists the chunks
//! in one transaction. Embedding payloads are attached by the host
//! through the store's embedding interface; this facade's store runs
//! without a vector index, so search serves the lexical path, the
//! documented degraded mode.

use crate::chunker::chunk_data_wf;
use crate::chunker::spec_count_tokens;
use crate::chunker::AdaptiveChunker;
use crate::chunker::ChunkConfig;
use crate::chunker::ChunkData;
use crate::chunker::Chunker;
use crate::chunker::TokenCounter;
use crate::engine::QueryEngine;
use crate::error::RagError;
use crate::store::chunk_of;
use crate::store::doc_chunks;
use crate::store::has_coll;
use crate::store::lemma_filter_all;
use crate::store::lemma_filter_none;
use crate::store::MemoryStore;
use crate::store::StoreView;
use crate::text::u64_to_string;
use crate::text::usize_to_string;
use crate::types::blake3_of;
use crate::types::Chunk;
use crate::types::Collection;
use crate::types::ContentType;
use crate::types::Document;
use crate::types::SearchResult;
use crate::types::Ulid;
use vstd::prelude::*;
use vstd::string::*;

verus! {

/// What the chunker's contract gives of its output for a text and
/// counter under the given token bounds.
pub open spec fn chunker_output_ok(
    cd: Seq<ChunkData>,
    content: Seq<char>,
    counter: TokenCounter,
    max_tokens: int,
    min_tokens: int,
) -> bool {
    &&& (content.len() == 0 ==> cd.len() == 0)
    &&& (content.len() > 0 && counter == TokenCounter::ApproxBytes ==> cd.len() >= 1)
    &&& forall|i: int| 0 <= i < cd.len() ==> chunk_data_wf(#[trigger] cd[i], counter)
    &&& (spec_count_tokens(counter, content) > max_tokens ==> forall|i: int|
        0 <= i < cd.len() ==> ((#[trigger] cd[i]).from_size_split || (min_tokens
            <= cd[i].token_count <= max_tokens)))
    &&& (content.len() > 0 && spec_count_tokens(counter, content) <= max_tokens ==> cd.len() == 1
        && cd[0].content@ == content && cd[0].start_line == 1)
}

/// What a successful ingest leaves in the store: a document row carrying
/// the request's collection, URI, content, and content digest, and one
/// chunk row per chunker output chunk, in output order under dense
/// zero-based indexes, with the chunker's text, token count (clamped to
/// the column width), and line range.
pub open spec fn ingest_outcome(
    v: StoreView,
    collection: Seq<char>,
    source_uri: Seq<char>,
    content: Seq<char>,
    ctype: ContentType,
    counter: TokenCounter,
    did: Ulid,
    cd: Seq<ChunkData>,
) -> bool {
    &&& exists|k: int|
        0 <= k < v.documents.len() && {
            let d = #[trigger] v.documents[k];
            &&& d.id == did
            &&& d.collection@ == collection
            &&& d.source_uri@ == source_uri
            &&& (d.raw_content matches Some(c) && c@ == content)
            &&& (d.content_hash matches Some(h) && h@ == blake3_of(content))
            &&& d.content_type == ctype
        }
    &&& chunker_output_ok(cd, content, counter, 512, 50)
    &&& doc_chunks(v.chunks, did).len() == cd.len()
    &&& forall|i: int|
        0 <= i < cd.len() ==> {
            let c = #[trigger] doc_chunks(v.chunks, did)[i];
            &&& c.content@ == cd[i].content@
            &&& c.chunk_index == i
            &&& c.token_count as int == vstd::math::min(cd[i].token_count as int, u32::MAX as int)
            &&& c.start_line == cd[i].start_line
            &&& c.end_line == cd[i].end_line
        }
}

/// The rendered statistics report for the given counts.
pub open spec fn spec_stats_message(
    filter: Option<Seq<char>>,
    collections: u64,
    documents: u64,
    chunks: u64,
    embeddings: u64,
    storage_bytes: u64,
) -> Seq<char> {
    (match filter {
        Some(n) => "Statistics for collection '"@ + n + "':\n\n"@,
        None => "Overall statistics:\n\n"@,
    }) + "- Collections: "@ + crate::text::dec_str(collections as nat) + "\n- Documents: "@
        + crate::text::dec_str(documents as nat) + "\n- Chunks: "@ + crate::text::dec_str(
        chunks as nat,
    ) + "\n- Embeddings: "@ + crate::text::dec_str(embeddings as nat) + "\n- Storage: "@
        + crate::text::dec_str(storage_bytes as nat) + " bytes\n"@
}

/// One report line per collection: its name and its description, or a
/// placeholder when it has none.
pub open spec fn spec_collection_lines(cs: Seq<Collection>) -> Seq<char>
    decreases cs.len(),
{
    if cs.len() == 0 {
        Seq::<char>::empty()
    } else {
        spec_collection_lines(cs.drop_last()) + "- "@ + cs.last().name@ + ": "@ + (
        match cs.last().description {
            Some(d) => d@,
            None => "(no description)"@,
        }) + "\n"@
    }
}

/// The collection listing a report carries: one entry per stored
/// collection in order, rendered to the message, or the empty-store
/// notice.
pub open spec fn collections_report_ok(
    v: Seq<Collection>,
    cs: Seq<Collection>,
    msg: Seq<char>,
) -> bool {
    &&& v.len() == cs.len()
    &&& (forall|i: int| 0 <= i < v.len() ==> crate::types::coll_eq(#[trigger] v[i], cs[i]))
    &&& msg == (if v.len() == 0 {
        "No collections found."@
    } else {
        "Found "@ + crate::text::dec_str(v.len() as nat) + " collections:\n\n"@
            + spec_collection_lines(v)
    })
}

/// The rendered block for one search hit: its rank, source, exact
/// rational score, line range, and text.
pub open spec fn spec_result_block(item: SearchResult) -> Seq<char> {
    "---\n["@ + crate::text::dec_str(item.rank as nat) + "] "@ + item.source_uri@
        + " (score: "@ + crate::text::dec_str(item.score.num as nat) + "/"@
        + crate::text::dec_str(item.score.den as nat) + ")\nLines "@ + crate::text::dec_str(
        item.chunk.start_line as nat,
    ) + "-"@ + crate::text::dec_str(item.chunk.end_line as nat) + ":\n```\n"@
        + item.chunk.content@ + "\n```\n\n"@
}

/// The rendered blocks of a hit list, in order.
pub open spec fn spec_result_blocks(rs: Seq<SearchResult>) -> Seq<char>
    decreases rs.len(),
{
    if rs.len() == 0 {
        Seq::<char>::empty()
    } else {
        spec_result_blocks(rs.drop_last()) + spec_result_block(rs.last())
    }
}

/// The rendered search answer: the hit count, the latency, and one
/// block per hit.
pub open spec fn spec_search_message(results: Seq<SearchResult>, latency: u64) -> Seq<char> {
    "Found "@ + crate::text::dec_str(results.len()) + " results in "@ + crate::text::dec_str(
        latency as nat,
    ) + "ms:\n\n"@ + spec_result_blocks(results)
}

/// What the search answer reports: a result list that is exactly the
/// store's keyword answer for the query, rendered with some latency.
pub open spec fn search_report_ok(
    v: StoreView,
    query: Seq<char>,
    cname: Option<Seq<char>>,
    top_k: u32,
    results: Seq<SearchResult>,
    hits: Seq<(Ulid, u64)>,
    latency: u64,
    msg: Seq<char>,
) -> bool {
    &&& crate::engine::keyword_results_match(v, query, cname, top_k, hits, results)
    &&& msg == spec_search_message(results, latency)
}

/// Render one search hit block.
fn render_result_block(item: &SearchResult) -> (r: String)
    ensures
        r@ == spec_result_block(*item),
{
    let mut out = String::from_str("---\n[");
    let rk = u64_to_string(item.rank as u64);
    out.append(rk.as_str());
    out.append("] ");
    out.append(item.source_uri.as_str());
    out.append(" (score: ");
    let sn = u64_to_string(item.score.num);
    out.append(sn.as_str());
    out.append("/");
    let sd = u64_to_string(item.score.den);
    out.append(sd.as_str());
    out.append(")\nLines ");
    let sl = u64_to_string(item.chunk.start_line as u64);
    out.append(sl.as_str());
    out.append("-");
    let el = u64_to_string(item.chunk.end_line as u64);
    out.append(el.as_str());
    out.append(":\n```\n");
    out.append(item.chunk.content.as_str());
    out.append("\n```\n\n");
    proof {
        assert(out@ =~= spec_result_block(*item));
    }
    out
}

/// Search request parameters.
#[derive(Debug, Clone)]
pub struct SearchParams {
    /// The search query.
    pub query: String,
    /// Largest number of results to return.
    pub top_k: u32,
    /// Collection to search; all collections when absent.
    pub collection: Option<String>,
}

/// Ingest request parameters.
#[derive(Debug, Clone)]
pub struct IngestParams {
    /// Collection to ingest into.
    pub collection: String,
    /// Source URI of the content.
    pub source_uri: String,
    /// The document content.
    pub content: String,
    /// Declared content type; detected from the URI when absent.
    pub content_type: Option<String>,
}

/// Collection request parameters.
#[derive(Debug, Clone)]
pub struct CollectionParams {
    /// Collection name.
    pub name: String,
    /// Optional description.
    pub description: Option<String>,
}

/// Stats request parameters.
#[derive(Debug, Clone)]
pub struct StatsParams {
    /// Collection to report on; everything when absent.
    pub collection: Option<String>,
}

/// The outcome of one tool call.
#[derive(Debug, Clone)]
pub struct ToolResult {
    /// Whether the call succeeded.
    pub success: bool,
    /// The rendered answer or error.
    pub message: String,
}

impl ToolResult {
    /// A successful outcome with a message.
    pub fn success(message: &str) -> (r: Self)
        ensures
            r.success == true,
            r.message@ == message@,
    {
        Self { success: true, message: String::from_str(message) }
    }

    /// A failed outcome with a message.
    pub fn error(message: &str) -> (r: Self)
        ensures
            r.success == false,
            r.message@ == message@,
    {
        Self { success: false, message: String::from_str(message) }
    }
}

/// What the server says about itself.
#[derive(Debug, Clone)]
pub struct ServerInfo {
    /// Server name.
    pub name: String,
    /// Server version.
    pub version: String,
    /// One-line description.
    pub description: String,
}

/// One tool the server offers.
#[derive(Debug, Clone)]
pub struct ToolInfo {
    /// Tool name.
    pub name: String,
    /// What the tool does.
    pub description: String,
}

/// The knowledge-base server.
pub struct RagMcpServer {
    /// The storage engine.
    pub store: MemoryStore,
    /// The chunker used at ingest.
    pub chunker: AdaptiveChunker,
    /// The query engine.
    pub engine: QueryEngine,
}

impl RagMcpServer {
    /// The server's well-formedness: its store keeps the relational
    /// invariant.
    pub open spec fn wf(&self) -> bool {
        self.store.wf()
    }

    /// Create a server over a fresh in-memory store.
    pub fn new_memory(node_id: u16) -> (r: Self)
        ensures
            r.wf(),
            r.store@.collections.len() == 0,
            r.store@.documents.len() == 0,
            r.store@.chunks.len() == 0,
    {
        Self {
            store: MemoryStore::open_memory(node_id),
            chunker: AdaptiveChunker::new(),
            engine: QueryEngine::new(),
        }
    }

    /// The server's name, version, and description.
    pub fn info() -> (r: ServerInfo)
        ensures
            r.name@ == "rag-mcp"@,
    {
        ServerInfo {
            name: String::from_str("rag-mcp"),
            version: String::from_str("0.1.0"),
            description: String::from_str("Local RAG server with vector and keyword search"),
        }
    }

    /// The six tools the server offers.
    pub fn tools() -> (r: Vec<ToolInfo>)
        ensures
            r@.len() == 6,
            r@[0].name@ == "rag_search"@,
    {
        let mut v: Vec<ToolInfo> = Vec::new();
        v.push(
            ToolInfo {
                name: String::from_str("rag_search"),
                description: String::from_str(
                    "Search the knowledge base for relevant documents",
                ),
            },
        );
        v.push(
            ToolInfo {
                name: String::from_str("rag_ingest"),
                description: String::from_str("Ingest a document into the knowledge base"),
            },
        );
        v.push(
            ToolInfo {
                name: String::from_str("rag_list_collections"),
                description: String::from_str("List all collections"),
            },
        );
        v.push(
            ToolInfo {
                name: String::from_str("rag_create_collection"),
                description: String::from_str("Create a new collection"),
            },
        );
        v.push(
            ToolInfo {
                name: String::from_str("rag_delete_collection"),
                description: String::from_str("Delete a collection"),
            },
        );
        v.push(
            ToolInfo {
                name: String::from_str("rag_stats"),
                description: String::from_str("Get statistics about the knowledge base"),
            },
        );
        v
    }

    /// Create a collection; fails exactly when the name is taken or the
    /// write clock is exhausted, leaving the store unchanged; success
    /// puts the named collection in the store.
    pub fn create_collection(&mut self, params: CollectionParams) -> (r: ToolResult)
        requires
            old(self).wf(),
        ensures
            final(self).wf(),
            r.success <==> !has_coll(old(self).store@.collections, params.name@)
                && old(self).store@.clock.logical < u32::MAX,
            r.success ==> has_coll(final(self).store@.collections, params.name@)
                && final(self).store@.collections.len() == old(self).store@.collections.len() + 1,
            !r.success ==> final(self).store == old(self).store,
    {
        let desc: Option<&str> = match &params.description {
            Some(d) => Some(d.as_str()),
            None => None,
        };
        let collection = Collection::new(params.name.as_str(), desc);
        match self.store.create_collection(collection) {
            Ok(()) => {
                let mut m = String::from_str("Collection '");
                m.append(params.name.as_str());
                m.append("' created.");
                ToolResult { success: true, message: m }
            },
            Err(RagError::CollectionExists { name }) => {
                let mut m = String::from_str("Collection '");
                m.append(name.as_str());
                m.append("' already exists.");
                ToolResult { success: false, message: m }
            },
            Err(e) => {
                let mut m = String::from_str("Failed to create collection: ");
                let em = e.message();
                m.append(em.as_str());
                ToolResult { success: false, message: m }
            },
        }
    }

    /// Delete a collection and everything it owns.
    pub fn delete_collection(&mut self, name: &str) -> (r: ToolResult)
        requires
            old(self).wf(),
        ensures
            final(self).wf(),
            r.success <==> has_coll(old(self).store@.collections, name@),
            r.success ==> !has_coll(final(self).store@.collections, name@),
    {
        match self.store.delete_collection(name) {
            Ok(()) => {
                proof {
                    self.store@.collections.filter_lemma(
                        crate::store::coll_not_named(name@),
                    );
                    if has_coll(self.store@.collections, name@) {
                        let q = choose|q: int|
                            0 <= q < self.store@.collections.len() && self.store@.collections[q].name@
                                == name@;
                        assert(false);
                    }
                }
                let mut m = String::from_str("Collection '");
                m.append(name);
                m.append("' deleted.");
                ToolResult { success: true, message: m }
            },
            Err(RagError::CollectionNotFound { name: n }) => {
                let mut m = String::from_str("Collection '");
                m.append(n.as_str());
                m.append("' not found.");
                ToolResult { success: false, message: m }
            },
            Err(e) => {
                let mut m = String::from_str("Failed to delete collection: ");
                let em = e.message();
                m.append(em.as_str());
                ToolResult { success: false, message: m }
            },
        }
    }

    /// List every collection with its description: the message is the
    /// rendered listing, one line per collection in name order.
    pub fn list_collections(&self) -> (r: ToolResult)
        requires
            self.wf(),
        ensures
            r.success == true,
            exists|v: Seq<Collection>| #[trigger] collections_report_ok(
                v,
                self.store@.collections,
                r.message@,
            ),
    {
        let collections = match self.store.list_collections() {
            Ok(v) => v,
            Err(e) => {
                let em = e.message();
                let mut m = String::from_str("Failed to list collections: ");
                m.append(em.as_str());
                return ToolResult { success: false, message: m };
            },
        };
        if collections.len() == 0 {
            let r = ToolResult::success("No collections found.");
            proof {
                assert(collections_report_ok(
                    collections@,
                    self.store@.collections,
                    r.message@,
                ));
            }
            return r;
        }
        let mut out = String::from_str("Found ");
        let n = usize_to_string(collections.len());
        out.append(n.as_str());
        out.append(" collections:\n\n");
        let ghost prefix = out@;
        proof {
            assert(collections@.take(0) =~= Seq::<Collection>::empty());
        }
        let mut i: usize = 0;
        while i < collections.len()
            invariant
                i <= collections@.len(),
                out@ == prefix + spec_collection_lines(collections@.take(i as int)),
            decreases collections@.len() - i,
        {
            proof {
                assert(collections@.take(i + 1).drop_last() =~= collections@.take(i as int));
                assert(collections@.take(i + 1).last() == collections@[i as int]);
            }
            out.append("- ");
            out.append(collections[i].name.as_str());
            out.append(": ");
            match &collections[i].description {
                Some(d) => out.append(d.as_str()),
                None => out.append("(no description)"),
            }
            out.append("\n");
            proof {
                assert(out@ =~= prefix + spec_collection_lines(collections@.take(i + 1)));
            }
            i += 1;
        }
        proof {
            assert(collections@.take(collections@.len() as int) =~= collections@);
        }
        let ghost msg = out@;
        let r = ToolResult { success: true, message: out };
        proof {
            assert(r.message@ == msg);
            assert(collections_report_ok(collections@, self.store@.collections, r.message@));
        }
        r
    }

    /// Ingest a document: verify the collection, persist the hashed
    /// document, chunk the content, and persist the chunks in one
    /// transaction.
    #[verifier::rlimit(100)]
    pub fn ingest(&mut self, params: IngestParams) -> (r: ToolResult)
        requires
            old(self).wf(),
        ensures
            final(self).wf(),
            r.success ==> has_coll(old(self).store@.collections, params.collection@),
            !has_coll(old(self).store@.collections, params.collection@) ==> !r.success
                && final(self).store == old(self).store && r.message@ == "Collection '"@
                + params.collection@ + "' does not exist. Create it first."@,
            final(self).store@.embeddings == old(self).store@.embeddings,
            final(self).store@.vector_store == old(self).store@.vector_store,
            r.success ==> exists|did: Ulid, cd: Seq<ChunkData>| #[trigger] ingest_outcome(
                final(self).store@,
                params.collection@,
                params.source_uri@,
                params.content@,
                crate::types::spec_resolved_type(
                    crate::types::spec_opt_string(params.content_type),
                    params.source_uri@,
                ),
                old(self).chunker.counter(),
                did,
                cd,
            ) && r.message@ == "Successfully ingested '"@ + params.source_uri@ + "' with "@
                + crate::text::dec_str(cd.len()) + " chunks."@,
    {
        match self.store.get_collection(params.collection.as_str()) {
            Ok(Some(_)) => {},
            Ok(None) => {
                let mut m = String::from_str("Collection '");
                m.append(params.collection.as_str());
                m.append("' does not exist. Create it first.");
                proof {
                    assert(m@ =~= "Collection '"@ + params.collection@
                        + "' does not exist. Create it first."@);
                }
                return ToolResult { success: false, message: m };
            },
            Err(e) => {
                let em = e.message();
                let mut m = String::from_str("Database error: ");
                m.append(em.as_str());
                return ToolResult { success: false, message: m };
            },
        }
        let content_type = match &params.content_type {
            // an explicit hint names the type; a hint that names none is
            // read as an extension
            Some(ct) => match ContentType::from_name(ct.as_str()) {
                Some(t) => t,
                None => ContentType::from_path(ct.as_str()),
            },
            None => ContentType::from_path(params.source_uri.as_str()),
        };
        proof {
            assert(content_type == crate::types::spec_resolved_type(
                crate::types::spec_opt_string(params.content_type),
                params.source_uri@,
            ));
        }
        let doc = Document::new(
            params.collection.as_str(),
            params.source_uri.as_str(),
            params.content.as_str(),
            content_type,
        );
        let doc_id = doc.id;
        let ghost doc_g = doc;
        let ghost v0 = self.store@;
        match self.store.insert_document(doc) {
            Ok(()) => {},
            Err(e) => {
                let em = e.message();
                let mut m = String::from_str("Failed to insert document: ");
                m.append(em.as_str());
                return ToolResult { success: false, message: m };
            },
        }
        let ghost v1 = self.store@;
        proof {
            // the document id was fresh, so no pre-existing chunk names it
            assert(!crate::store::has_doc_id(v0.documents, doc_id));
            assert forall|i: int| 0 <= i < v0.chunks.len() implies (
            #[trigger] v0.chunks[i]).doc_id != doc_id by {
                if v0.chunks[i].doc_id == doc_id {
                    assert(crate::store::has_doc_id(v0.documents, doc_id));
                }
            }
            assert(v1.documents[v1.documents.len() - 1].id == doc_id);
        }
        let chunk_config = ChunkConfig { max_tokens: 512, min_tokens: 50, overlap_tokens: 0 };
        let chunk_data = match self.chunker.chunk(
            params.content.as_str(),
            content_type,
            &chunk_config,
        ) {
            Ok(d) => d,
            Err(e) => {
                let em = e.message();
                let mut m = String::from_str("Chunking failed: ");
                m.append(em.as_str());
                return ToolResult { success: false, message: m };
            },
        };
        let mut chunks: Vec<Chunk> = Vec::new();
        let mut idx: usize = 0;
        while idx < chunk_data.len()
            invariant
                idx <= chunk_data@.len(),
                chunks@.len() == idx,
                forall|p: int|
                    0 <= p < idx ==> {
                        let c = #[trigger] chunks@[p];
                        &&& c.doc_id == doc_id
                        &&& c.content@ == chunk_data@[p].content@
                        &&& c.token_count as int == vstd::math::min(
                            chunk_data@[p].token_count as int,
                            u32::MAX as int,
                        )
                        &&& c.start_line == chunk_data@[p].start_line
                        &&& c.end_line == chunk_data@[p].end_line
                    },
            decreases chunk_data@.len() - idx,
        {
            let data = &chunk_data[idx];
            let index32: u32 = if idx > u32::MAX as usize {
                u32::MAX
            } else {
                idx as u32
            };
            let tokens32: u32 = if data.token_count > u32::MAX as usize {
                u32::MAX
            } else {
                data.token_count as u32
            };
            chunks.push(
                Chunk::new(
                    doc_id,
                    index32,
                    data.content.as_str(),
                    tokens32,
                    data.start_line,
                    data.end_line,
                ),
            );
            idx += 1;
        }
        let num_chunks = chunks.len();
        let ghost batch = chunks@;
        match self.store.insert_chunks(&chunks) {
            Ok(()) => {},
            Err(e) => {
                let em = e.message();
                let mut m = String::from_str("Failed to insert chunks: ");
                m.append(em.as_str());
                return ToolResult { success: false, message: m };
            },
        }
        proof {
            let v2 = self.store@;
            let n0: int = v1.chunks.len() as int;
            let pred = chunk_of(doc_id);
            let pref = v2.chunks.take(n0);
            let suff = v2.chunks.skip(n0);
            assert(v2.chunks =~= pref + suff);
            assert(pref == v1.chunks);
            Seq::filter_distributes_over_add(pref, suff, pred);
            assert(v1.chunks == v0.chunks);
            lemma_filter_none(pref, pred);
            assert(suff.len() == batch.len());
            assert forall|i: int| 0 <= i < suff.len() implies pred(#[trigger] suff[i]) by {
                assert(suff[i] == v2.chunks[n0 + i]);
                assert(crate::types::chunk_eq(
                    v2.chunks[n0 + i],
                    crate::store::chunk_with_stamp(batch[i], v2.clock),
                ));
            }
            lemma_filter_all(suff, pred);
            assert(doc_chunks(v2.chunks, doc_id) =~= suff);
            assert(crate::store::indexed_ok(doc_chunks(v2.chunks, doc_id)));
            assert forall|i: int|
                0 <= i < chunk_data@.len() implies {
                let c = #[trigger] doc_chunks(v2.chunks, doc_id)[i];
                &&& c.content@ == chunk_data@[i].content@
                &&& c.chunk_index == i
                &&& c.token_count as int == vstd::math::min(
                    chunk_data@[i].token_count as int,
                    u32::MAX as int,
                )
                &&& c.start_line == chunk_data@[i].start_line
                &&& c.end_line == chunk_data@[i].end_line
            } by {
                assert(doc_chunks(v2.chunks, doc_id)[i] == v2.chunks[n0 + i]);
                assert(crate::types::chunk_eq(
                    v2.chunks[n0 + i],
                    crate::store::chunk_with_stamp(batch[i], v2.clock),
                ));
            }
            let k = v1.documents.len() - 1;
            assert(v2.documents == v1.documents);
            assert(v1.documents[k] == crate::store::doc_with_stamp(doc_g, v1.clock));
            assert(v1.documents[k].content_type == content_type);
            assert(ingest_outcome(
                self.store@,
                params.collection@,
                params.source_uri@,
                params.content@,
                content_type,
                old(self).chunker.counter(),
                doc_id,
                chunk_data@,
            ));
        }
        let mut m = String::from_str("Successfully ingested '");
        m.append(params.source_uri.as_str());
        m.append("' with ");
        let n = usize_to_string(num_chunks);
        m.append(n.as_str());
        m.append(" chunks.");
        proof {
            assert(num_chunks == chunk_data@.len());
            assert(m@ =~= "Successfully ingested '"@ + params.source_uri@ + "' with "@
                + crate::text::dec_str(chunk_data@.len()) + " chunks."@);
        }
        let ghost msg = m@;
        let r = ToolResult { success: true, message: m };
        proof {
            assert(r.message@ == msg);
        }
        r
    }

    /// Answer a query. The in-memory store ranks no vectors, so the
    /// lexical path serves the answer, as when no vector index is
    /// available. The lexical path is total, so the call always
    /// succeeds, and the message is the rendering of a result list that
    /// is exactly the store's keyword answer for the query.
    pub fn search(&self, params: SearchParams) -> (r: ToolResult)
        requires
            self.wf(),
        ensures
            r.success == true,
            exists|results: Seq<SearchResult>, hits: Seq<(Ulid, u64)>, latency: u64|
                #[trigger] search_report_ok(
                    self.store@,
                    params.query@,
                    crate::types::spec_opt_string(params.collection),
                    params.top_k,
                    results,
                    hits,
                    latency,
                    r.message@,
                ),
    {
        let cfilter: Option<&str> = match &params.collection {
            Some(s) => Some(s.as_str()),
            None => None,
        };
        let ghost cname = crate::store::spec_opt_name(cfilter);
        proof {
            assert(cname == crate::types::spec_opt_string(params.collection));
        }
        let results = self.engine.keyword_only_search(
            &self.store,
            params.query.as_str(),
            params.top_k,
            cfilter,
        );
        match results {
            Ok(results) => {
                let ghost hits = choose|h: Seq<(Ulid, u64)>|
                    crate::engine::keyword_results_match(
                        self.store@,
                        params.query@,
                        cname,
                        params.top_k,
                        h,
                        results.results@,
                    );
                let mut out = String::from_str("Found ");
                let n = usize_to_string(results.total_results);
                out.append(n.as_str());
                out.append(" results in ");
                let lat = u64_to_string(results.latency_ms);
                out.append(lat.as_str());
                out.append("ms:\n\n");
                let ghost prefix = out@;
                proof {
                    assert(prefix == "Found "@ + crate::text::dec_str(results.results@.len())
                        + " results in "@ + crate::text::dec_str(results.latency_ms as nat)
                        + "ms:\n\n"@);
                    assert(results.results@.take(0) =~= Seq::<SearchResult>::empty());
                }
                let mut i: usize = 0;
                while i < results.results.len()
                    invariant
                        i <= results.results@.len(),
                        out@ == prefix + spec_result_blocks(results.results@.take(i as int)),
                    decreases results.results@.len() - i,
                {
                    proof {
                        assert(results.results@.take(i + 1).drop_last() =~= results.results@.take(
                            i as int,
                        ));
                        assert(results.results@.take(i + 1).last() == results.results@[i as int]);
                    }
                    let block = render_result_block(&results.results[i]);
                    out.append(block.as_str());
                    proof {
                        assert(out@ =~= prefix + spec_result_blocks(
                            results.results@.take(i + 1),
                        ));
                    }
                    i += 1;
                }
                proof {
                    assert(results.results@.take(results.results@.len() as int)
                        =~= results.results@);
                    assert(out@ == spec_search_message(results.results@, results.latency_ms));
                }
                let ghost msg = out@;
                let r = ToolResult { success: true, message: out };
                proof {
                    assert(r.message@ == msg);
                    assert(search_report_ok(
                        self.store@,
                        params.query@,
                        crate::types::spec_opt_string(params.collection),
                        params.top_k,
                        results.results@,
                        hits,
                        results.latency_ms,
                        r.message@,
                    ));
                }
                r
            },
            Err(e) => {
                let em = e.message();
                let mut m = String::from_str("Search failed: ");
                m.append(em.as_str());
                ToolResult { success: false, message: m }
            },
        }
    }

    /// Report counts, per collection or overall: the message is the
    /// rendered report over the store's true counts.
    pub fn stats(&self, collection: Option<&str>) -> (r: ToolResult)
        ensures
            r.success == true,
            exists|s: crate::types::Stats| {
                &&& s.collections == self.store@.collections.len()
                &&& s.embeddings == self.store@.embeddings.len()
                &&& (collection is None ==> s.documents == self.store@.documents.len() && s.chunks
                    == self.store@.chunks.len())
                &&& (collection matches Some(name) ==> s.documents
                    == self.store@.documents.filter(crate::store::doc_inside(name@)).len()
                    && s.chunks == self.store@.chunks.filter(
                    crate::store::chunk_alive(
                        self.store@.documents.filter(crate::store::doc_inside(name@)),
                    ),
                ).len())
                &&& r.message@ == spec_stats_message(
                    crate::store::spec_opt_name(collection),
                    s.collections,
                    s.documents,
                    s.chunks,
                    s.embeddings,
                    s.storage_bytes,
                )
            },
    {
        let stats = match self.store.get_stats(collection) {
            Ok(s) => s,
            Err(e) => {
                let em = e.message();
                let mut m = String::from_str("Failed to get stats: ");
                m.append(em.as_str());
                return ToolResult { success: false, message: m };
            },
        };
        let mut out = String::new();
        match collection {
            Some(coll) => {
                out.append("Statistics for collection '");
                out.append(coll);
                out.append("':\n\n");
            },
            None => {
                out.append("Overall statistics:\n\n");
            },
        }
        out.append("- Collections: ");
        let c = u64_to_string(stats.collections);
        out.append(c.as_str());
        out.append("\n- Documents: ");
        let d = u64_to_string(stats.documents);
        out.append(d.as_str());
        out.append("\n- Chunks: ");
        let ch = u64_to_string(stats.chunks);
        out.append(ch.as_str());
        out.append("\n- Embeddings: ");
        let e = u64_to_string(stats.embeddings);
        out.append(e.as_str());
        out.append("\n- Storage: ");
        let sb = u64_to_string(stats.storage_bytes);
        out.append(sb.as_str());
        out.append(" bytes\n");
        proof {
            assert(out@ =~= spec_stats_message(
                crate::store::spec_opt_name(collection),
                stats.collections,
                stats.documents,
                stats.chunks,
                stats.embeddings,
                stats.storage_bytes,
            ));
        }
        ToolResult { success: true, message: out }
    }
}

} // verus!
