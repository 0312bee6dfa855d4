//! The hybrid query engine.
//!
//! A query is answered from two rank lists: the keyword hits, computed
//! here from the store's lexical index, and the vector hits, handed in
//! by whoever ran the nearest-neighbour index. The lists are fused with
//! Reciprocal Rank Fusion, fused hits are hydrated with their chunks and
//! documents, and each hit may be expanded with neighboring chunks at
//! half its score before the list is ordered and ranked.

use crate::error::RagError;
use crate::fusion::lemma_score_lt_chain;
use crate::fusion::reciprocal_rank_fusion;
use crate::hlc::wall_clock_ms;
use crate::store::MemoryStore;
use crate::types::Score;
use crate::types::SearchResult;
use crate::types::SearchResults;
use crate::types::Ulid;
use vstd::prelude::*;
use vstd::string::*;

verus! {

/// Search parameters.
#[derive(Debug, Clone)]
pub struct QueryConfig {
    /// Largest number of fused results to return.
    pub top_k: u32,
    /// Whether to add neighboring chunks around each hit.
    pub expand_context: bool,
    /// How many neighbors to add on each side when expanding.
    pub context_chunks: u32,
    /// Collection to search; all collections when absent.
    pub collection: Option<String>,
}

impl Default for QueryConfig {
    /// Ten results, context expansion by one neighbor, all collections.
    fn default() -> (r: Self)
        ensures
            r.top_k == 10,
            r.expand_context == true,
            r.context_chunks == 1,
            r.collection is None,
    {
        QueryConfig { top_k: 10, expand_context: true, context_chunks: 1, collection: None }
    }
}

/// The results are exactly the store's keyword hits for the query, in
/// hit order: one result per hit, carrying a copy of the hit's stored
/// chunk, the hit's occurrence count as an integer score, a rank equal
/// to its position, and the owning document's URI and collection. The
/// hit list itself is sorted, duplicate-free, correct and complete for
/// the store, as the lexical index promises.
pub open spec fn keyword_results_match(
    v: crate::store::StoreView,
    q: Seq<char>,
    cname: Option<Seq<char>>,
    k: u32,
    hits: Seq<(Ulid, u64)>,
    results: Seq<SearchResult>,
) -> bool {
    &&& hits.len() <= k
    &&& forall|i: int, j: int|
        0 <= i < j < hits.len() ==> (#[trigger] hits[i]).1 >= (#[trigger] hits[j]).1
    &&& forall|i: int, j: int|
        0 <= i < j < hits.len() ==> (#[trigger] hits[i]).0 != (#[trigger] hits[j]).0
    &&& forall|i: int|
        0 <= i < hits.len() ==> crate::store::kw_hit_ok(v, q, cname, #[trigger] hits[i])
    &&& forall|c: int|
        #[trigger] crate::store::kw_candidate(v, q, cname, c) ==> ((exists|i: int|
            0 <= i < hits.len() && (#[trigger] hits[i]).0 == v.chunks[c].id) || (hits.len() == k
            && (k >= 1 ==> hits[k as int - 1].1 >= crate::store::count_occurrences(
            crate::types::ascii_lower(v.chunks[c].content@),
            crate::types::ascii_lower(q),
        ))))
    &&& results.len() == hits.len()
    &&& forall|i: int|
        0 <= i < results.len() ==> {
            let rr = #[trigger] results[i];
            &&& rr.chunk.id == hits[i].0
            &&& rr.score == (Score { num: hits[i].1, den: 1 })
            &&& rr.rank == i + 1
            &&& exists|c: int|
                0 <= c < v.chunks.len() && crate::types::chunk_eq(
                    rr.chunk,
                    #[trigger] v.chunks[c],
                )
            &&& exists|d: int|
                0 <= d < v.documents.len() && (#[trigger] v.documents[d]).id == rr.chunk.doc_id
                    && rr.source_uri@ == v.documents[d].source_uri@ && rr.collection@
                    == v.documents[d].collection@
        }
}

/// What a hybrid answer without context expansion holds, for some
/// keyword hit list `kw` of stored chunk ids: the results are the fused
/// identifiers whose chunk is stored, each hydrated with a copy of its
/// stored chunk and its owning document's provenance, carrying exactly
/// its fused score, with no identifier repeated; and every stored
/// identifier of either list is answered when together they number at
/// most `top_k`.
pub open spec fn hybrid_results_ok(
    v: crate::store::StoreView,
    vec_hits: Seq<Ulid>,
    kw: Seq<Ulid>,
    top_k: u32,
    results: Seq<SearchResult>,
) -> bool {
    &&& forall|i: int, j: int| 0 <= i < j < kw.len() ==> kw[i] != kw[j]
    &&& forall|i: int| 0 <= i < kw.len() ==> crate::store::has_chunk_id(v.chunks, #[trigger] kw[i])
    &&& results.len() <= top_k
    &&& forall|i: int, j: int|
        0 <= i < j < results.len() ==> (#[trigger] results[i]).chunk.id != (
        #[trigger] results[j]).chunk.id
    &&& forall|i: int|
        0 <= i < results.len() ==> {
            let rr = #[trigger] results[i];
            &&& (vec_hits.contains(rr.chunk.id) || kw.contains(rr.chunk.id))
            &&& rr.score == crate::fusion::rrf_score(vec_hits, kw, rr.chunk.id)
            &&& exists|c: int|
                0 <= c < v.chunks.len() && crate::types::chunk_eq(
                    rr.chunk,
                    #[trigger] v.chunks[c],
                )
            &&& exists|d: int|
                0 <= d < v.documents.len() && (#[trigger] v.documents[d]).id == rr.chunk.doc_id
                    && rr.source_uri@ == v.documents[d].source_uri@ && rr.collection@
                    == v.documents[d].collection@
        }
    &&& (crate::fusion::fused_count(vec_hits, kw) <= top_k ==> forall|id: Ulid| #![auto]
        (vec_hits.contains(id) || kw.contains(id)) && crate::store::has_chunk_id(v.chunks, id)
            ==> exists|i: int| 0 <= i < results.len() && results[i].chunk.id == id)
}

/// Carry the hydrated answer's properties through an order-preserving
/// rearrangement: the ordered list, elementwise equal to a permutation
/// of the hydrated list in every field but the rank, is a hybrid answer.
proof fn lemma_hybrid_transfer(
    v: crate::store::StoreView,
    vec_hits: Seq<Ulid>,
    kw: Seq<Ulid>,
    top_k: u32,
    fusedv: Seq<(Ulid, Score)>,
    hydrated: Seq<SearchResult>,
    sseq: Seq<SearchResult>,
    out: Seq<SearchResult>,
)
    requires
        forall|i: int, j: int| 0 <= i < j < kw.len() ==> kw[i] != kw[j],
        forall|i: int| 0 <= i < kw.len() ==> crate::store::has_chunk_id(v.chunks, #[trigger] kw[i]),
        out.len() <= top_k,
        crate::fusion::fused_count(vec_hits, kw) <= top_k ==> forall|id: Ulid| #![auto]
            (vec_hits.contains(id) || kw.contains(id)) ==> exists|g: int|
                0 <= g < fusedv.len() && fusedv[g].0 == id,
        forall|g: int|
            0 <= g < fusedv.len() && crate::store::has_chunk_id(
                v.chunks,
                (#[trigger] fusedv[g]).0,
            ) ==> exists|p: int| 0 <= p < hydrated.len() && hydrated[p].chunk.id == fusedv[g].0,
        forall|p: int, q: int|
            0 <= p < q < hydrated.len() ==> (#[trigger] hydrated[p]).chunk.id != (
            #[trigger] hydrated[q]).chunk.id,
        forall|p: int|
            0 <= p < hydrated.len() ==> (#[trigger] hydrated[p]).score == crate::fusion::rrf_score(
                vec_hits,
                kw,
                hydrated[p].chunk.id,
            ) && (vec_hits.contains(hydrated[p].chunk.id) || kw.contains(hydrated[p].chunk.id)),
        forall|p: int|
            0 <= p < hydrated.len() ==> exists|c: int|
                0 <= c < v.chunks.len() && crate::types::chunk_eq(
                    (#[trigger] hydrated[p]).chunk,
                    #[trigger] v.chunks[c],
                ),
        forall|p: int|
            0 <= p < hydrated.len() ==> exists|d: int|
                0 <= d < v.documents.len() && (#[trigger] v.documents[d]).id == (
                #[trigger] hydrated[p]).chunk.doc_id && hydrated[p].source_uri@
                    == v.documents[d].source_uri@ && hydrated[p].collection@
                    == v.documents[d].collection@,
        sseq.to_multiset() == hydrated.to_multiset(),
        sseq.len() == hydrated.len(),
        out.len() == sseq.len(),
        forall|p: int|
            0 <= p < out.len() ==> {
                let o = #[trigger] out[p];
                &&& o.chunk == sseq[p].chunk
                &&& o.score == sseq[p].score
                &&& o.source_uri == sseq[p].source_uri
                &&& o.collection == sseq[p].collection
            },
    ensures
        hybrid_results_ok(v, vec_hits, kw, top_k, out),
{
    broadcast use vstd::seq_lib::group_to_multiset_ensures;

    assert forall|p: int| 0 <= p < out.len() implies exists|x: int|
        0 <= x < hydrated.len() && hydrated[x].chunk == (#[trigger] out[p]).chunk
            && hydrated[x].score == out[p].score && hydrated[x].source_uri == out[p].source_uri
            && hydrated[x].collection == out[p].collection by {
        assert(sseq.to_multiset().count(sseq[p]) > 0);
        assert(hydrated.contains(sseq[p]));
        let x = choose|x: int| 0 <= x < hydrated.len() && hydrated[x] == sseq[p];
        assert(hydrated[x].chunk == out[p].chunk);
    }
    hydrated.lemma_multiset_has_no_duplicates();
    sseq.lemma_multiset_has_no_duplicates_conv();
    assert forall|p: int, q: int| 0 <= p < q < out.len() implies (#[trigger] out[p]).chunk.id != (
    #[trigger] out[q]).chunk.id by {
        if out[p].chunk.id == out[q].chunk.id {
            assert(sseq[p] != sseq[q]);
            assert(sseq.to_multiset().count(sseq[p]) > 0);
            assert(sseq.to_multiset().count(sseq[q]) > 0);
            assert(hydrated.contains(sseq[p]));
            assert(hydrated.contains(sseq[q]));
            let x = choose|x: int| 0 <= x < hydrated.len() && hydrated[x] == sseq[p];
            let y = choose|y: int| 0 <= y < hydrated.len() && hydrated[y] == sseq[q];
            assert(x != y);
            assert(hydrated[x].chunk.id == hydrated[y].chunk.id);
            assert(false);
        }
    }
    if crate::fusion::fused_count(vec_hits, kw) <= top_k as int {
        assert forall|id: Ulid| #![auto]
            (vec_hits.contains(id) || kw.contains(id)) && crate::store::has_chunk_id(
                v.chunks,
                id,
            ) implies exists|i: int| 0 <= i < out.len() && out[i].chunk.id == id by {
            let g = choose|g: int| 0 <= g < fusedv.len() && fusedv[g].0 == id;
            let p = choose|p: int| 0 <= p < hydrated.len() && hydrated[p].chunk.id == id;
            assert(hydrated.to_multiset().count(hydrated[p]) > 0);
            assert(sseq.contains(hydrated[p]));
            let i = choose|i: int| 0 <= i < sseq.len() && sseq[i] == hydrated[p];
            assert(out[i].chunk == sseq[i].chunk);
            assert(out[i].chunk.id == id);
        }
    }
}

/// The chunk identifiers of a result list, in order.
pub open spec fn result_ids(rs: Seq<SearchResult>) -> Seq<Ulid> {
    Seq::new(rs.len(), |i: int| rs[i].chunk.id)
}

/// The ordered list equals the other in every field but the rank.
pub open spec fn rank_reassigned(out: Seq<SearchResult>, m: Seq<SearchResult>) -> bool {
    &&& out.len() == m.len()
    &&& forall|i: int|
        0 <= i < out.len() ==> {
            let o = #[trigger] out[i];
            &&& o.chunk == m[i].chunk
            &&& o.score == m[i].score
            &&& o.source_uri == m[i].source_uri
            &&& o.collection == m[i].collection
        }
}

/// What expanding a hit list leaves: every hit of `base` stays; every
/// other entry is a stored chunk of some hit's document at half that
/// hit's score with its provenance; no chunk id repeats; every entry is
/// a stored chunk; and no stored chunk within `context_chunks` positions
/// of a hit in its document is left both uncollected and out of the
/// output.
pub open spec fn expansion_of(
    v: crate::store::StoreView,
    base: Seq<SearchResult>,
    context_chunks: u32,
    seen: Seq<Ulid>,
    out: Seq<SearchResult>,
) -> bool {
    &&& forall|p: int| 0 <= p < out.len() ==> (#[trigger] out[p]).score.wf()
    &&& forall|p: int| 0 <= p < base.len() ==> out.contains(#[trigger] base[p])
    &&& forall|q1: int, q2: int|
        0 <= q1 < q2 < out.len() ==> (#[trigger] out[q1]).chunk.id != (
        #[trigger] out[q2]).chunk.id
    &&& forall|q: int|
        0 <= q < out.len() ==> (base.contains(#[trigger] out[q]) || exists|p: int|
            0 <= p < base.len() && out[q].score == Score::spec_halved(
                (#[trigger] base[p]).score,
            ) && out[q].source_uri@ == base[p].source_uri@ && out[q].collection@
                == base[p].collection@ && out[q].chunk.doc_id == base[p].chunk.doc_id)
    &&& forall|q: int|
        0 <= q < out.len() ==> exists|c: int|
            0 <= c < v.chunks.len() && crate::types::chunk_eq(
                (#[trigger] out[q]).chunk,
                #[trigger] v.chunks[c],
            )
    &&& forall|p: int, c: int|
        0 <= p < base.len() && 0 <= c < v.chunks.len() && (#[trigger] v.chunks[c]).doc_id == (
        #[trigger] base[p]).chunk.doc_id && base[p].chunk.chunk_index - context_chunks
            <= v.chunks[c].chunk_index <= base[p].chunk.chunk_index + context_chunks ==> (
        seen.contains(v.chunks[c].id) || exists|q: int|
            0 <= q < out.len() && out[q].chunk.id == v.chunks[c].id)
}

/// What a hybrid answer with context expansion reports: some hybrid
/// answer `hyb` was expanded to `exp`, and the results are `exp`
/// reordered best first (`m`, a rearrangement of `exp`) with ranks
/// reassigned, no chunk id repeated.
pub open spec fn expanded_report_ok(
    v: crate::store::StoreView,
    vec_hits: Seq<Ulid>,
    kw: Seq<Ulid>,
    top_k: u32,
    context_chunks: u32,
    hyb: Seq<SearchResult>,
    exp: Seq<SearchResult>,
    m: Seq<SearchResult>,
    results: Seq<SearchResult>,
) -> bool {
    &&& hybrid_results_ok(v, vec_hits, kw, top_k, hyb)
    &&& expansion_of(v, hyb, context_chunks, result_ids(hyb), exp)
    &&& m.to_multiset() == exp.to_multiset()
    &&& results_sorted(m)
    &&& rank_reassigned(results, m)
    &&& forall|i: int, j: int|
        0 <= i < j < results.len() ==> (#[trigger] results[i]).chunk.id != (
        #[trigger] results[j]).chunk.id
}

/// Reordering a list with pairwise-distinct chunk ids and reassigning
/// ranks keeps the ids pairwise distinct.
proof fn lemma_distinct_ids_preserved(
    src: Seq<SearchResult>,
    m: Seq<SearchResult>,
    out: Seq<SearchResult>,
)
    requires
        forall|p: int, q: int|
            0 <= p < q < src.len() ==> (#[trigger] src[p]).chunk.id != (
            #[trigger] src[q]).chunk.id,
        m.to_multiset() == src.to_multiset(),
        m.len() == src.len(),
        rank_reassigned(out, m),
    ensures
        forall|i: int, j: int|
            0 <= i < j < out.len() ==> (#[trigger] out[i]).chunk.id != (
            #[trigger] out[j]).chunk.id,
{
    broadcast use vstd::seq_lib::group_to_multiset_ensures;

    src.lemma_multiset_has_no_duplicates();
    m.lemma_multiset_has_no_duplicates_conv();
    assert forall|i: int, j: int| 0 <= i < j < out.len() implies (#[trigger] out[i]).chunk.id != (
    #[trigger] out[j]).chunk.id by {
        if out[i].chunk.id == out[j].chunk.id {
            assert(m[i] != m[j]);
            assert(m.to_multiset().count(m[i]) > 0);
            assert(m.to_multiset().count(m[j]) > 0);
            assert(src.contains(m[i]));
            assert(src.contains(m[j]));
            let x = choose|x: int| 0 <= x < src.len() && src[x] == m[i];
            let y = choose|y: int| 0 <= y < src.len() && src[y] == m[j];
            assert(x != y);
            assert(src[x].chunk.id == src[y].chunk.id);
            assert(false);
        }
    }
}

/// One collection step of context expansion: pushing a chunk whose id
/// was not yet collected onto the collected set and the output keeps
/// the expansion bookkeeping — everything collected stays collected,
/// output ids stay pairwise distinct and collected, every output id is
/// an already-processed hit's id or was uncollected at entry, and every
/// collected id is original or in the output.
proof fn lemma_expand_push(
    all: Seq<SearchResult>,
    seen0: Seq<Ulid>,
    prev_seen: Seq<Ulid>,
    prev_exp: Seq<SearchResult>,
    new_seen: Seq<Ulid>,
    new_exp: Seq<SearchResult>,
    bound: int,
    nid: Ulid,
)
    requires
        new_seen == prev_seen.push(nid),
        new_exp.len() == prev_exp.len() + 1,
        forall|q: int| 0 <= q < prev_exp.len() ==> #[trigger] new_exp[q] == prev_exp[q],
        new_exp[new_exp.len() - 1].chunk.id == nid,
        !prev_seen.contains(nid),
        forall|id: Ulid| #[trigger] seen0.contains(id) ==> prev_seen.contains(id),
        forall|q: int|
            0 <= q < prev_exp.len() ==> prev_seen.contains((#[trigger] prev_exp[q]).chunk.id),
        forall|q1: int, q2: int|
            0 <= q1 < q2 < prev_exp.len() ==> (#[trigger] prev_exp[q1]).chunk.id != (
            #[trigger] prev_exp[q2]).chunk.id,
        forall|q: int|
            0 <= q < prev_exp.len() ==> ((exists|p: int|
                0 <= p < bound && prev_exp[q].chunk.id == (#[trigger] all[p]).chunk.id)
                || !seen0.contains((#[trigger] prev_exp[q]).chunk.id)),
        forall|id: Ulid| #[trigger]
            prev_seen.contains(id) ==> seen0.contains(id) || exists|q: int|
                0 <= q < prev_exp.len() && prev_exp[q].chunk.id == id,
    ensures
        forall|id: Ulid| #[trigger] prev_seen.contains(id) ==> new_seen.contains(id),
        new_seen.contains(nid),
        forall|id: Ulid| #[trigger] seen0.contains(id) ==> new_seen.contains(id),
        forall|q: int|
            0 <= q < new_exp.len() ==> new_seen.contains((#[trigger] new_exp[q]).chunk.id),
        forall|q1: int, q2: int|
            0 <= q1 < q2 < new_exp.len() ==> (#[trigger] new_exp[q1]).chunk.id != (
            #[trigger] new_exp[q2]).chunk.id,
        forall|q: int|
            0 <= q < new_exp.len() ==> ((exists|p: int|
                0 <= p < bound && new_exp[q].chunk.id == (#[trigger] all[p]).chunk.id)
                || !seen0.contains((#[trigger] new_exp[q]).chunk.id)),
        forall|id: Ulid| #[trigger]
            new_seen.contains(id) ==> seen0.contains(id) || exists|q: int|
                0 <= q < new_exp.len() && new_exp[q].chunk.id == id,
{
    assert forall|id: Ulid| prev_seen.contains(id) implies #[trigger] new_seen.contains(id) by {
        let w = choose|w: int| 0 <= w < prev_seen.len() && prev_seen[w] == id;
        assert(new_seen[w] == id);
    }
    assert(new_seen[new_seen.len() - 1] == nid);
    assert(new_seen.contains(nid));
    let wn = new_exp.len() - 1;
    assert forall|q: int| 0 <= q < new_exp.len() implies new_seen.contains(
        (#[trigger] new_exp[q]).chunk.id,
    ) by {
        if q < wn {
            assert(prev_seen.contains(prev_exp[q].chunk.id));
        }
    }
    assert forall|q1: int, q2: int| 0 <= q1 < q2 < new_exp.len() implies (
    #[trigger] new_exp[q1]).chunk.id != (#[trigger] new_exp[q2]).chunk.id by {
        if q2 == wn {
            assert(prev_seen.contains(prev_exp[q1].chunk.id));
        }
    }
    assert forall|q: int| 0 <= q < new_exp.len() implies ((exists|p: int|
        0 <= p < bound && new_exp[q].chunk.id == (#[trigger] all[p]).chunk.id)
        || !seen0.contains((#[trigger] new_exp[q]).chunk.id)) by {
        if q < wn {
            if seen0.contains(prev_exp[q].chunk.id) {
                let p0 = choose|p0: int|
                    0 <= p0 < bound && prev_exp[q].chunk.id == (#[trigger] all[p0]).chunk.id;
                assert(new_exp[q].chunk.id == all[p0].chunk.id);
            }
        } else {
            if seen0.contains(nid) {
                assert(prev_seen.contains(nid));
                assert(false);
            }
        }
    }
    assert forall|id: Ulid| #[trigger] new_seen.contains(id) implies seen0.contains(id) || exists|
        q: int,
    | 0 <= q < new_exp.len() && new_exp[q].chunk.id == id by {
        let w2 = choose|w2: int| 0 <= w2 < new_seen.len() && new_seen[w2] == id;
        if w2 < prev_seen.len() {
            assert(prev_seen.contains(id));
            if !seen0.contains(id) {
                let q0 = choose|q0: int|
                    0 <= q0 < prev_exp.len() && prev_exp[q0].chunk.id == id;
                assert(new_exp[q0].chunk.id == id);
            }
        } else {
            assert(new_exp[wn].chunk.id == id);
        }
    }
}

/// Results ordered best first.
pub open spec fn results_sorted(s: Seq<SearchResult>) -> bool {
    forall|i: int, j: int|
        0 <= i < j < s.len() ==> !Score::spec_lt((#[trigger] s[i]).score, (#[trigger] s[j]).score)
}

/// The hybrid search engine over the in-memory store.
pub struct QueryEngine {}

impl QueryEngine {
    /// Create an engine.
    pub fn new() -> Self {
        QueryEngine {  }
    }

    /// Answer a query from the lexical index alone: no embedding, no
    /// fusion, no context expansion.
    pub fn keyword_only_search(
        &self,
        store: &MemoryStore,
        query: &str,
        top_k: u32,
        collection: Option<&str>,
    ) -> (r: Result<SearchResults, RagError>)
        requires
            store.wf(),
        ensures
            r matches Ok(sr) ==> {
                &&& sr.query@ == query@
                &&& sr.total_results == sr.results@.len()
                &&& sr.results@.len() <= top_k
                &&& results_sorted(sr.results@)
                &&& forall|i: int|
                    0 <= i < sr.results@.len() ==> 1 <= (#[trigger] sr.results@[i]).rank <= top_k
                &&& forall|i: int, j: int|
                    0 <= i < j < sr.results@.len() ==> (#[trigger] sr.results@[i]).rank < (
                    #[trigger] sr.results@[j]).rank
                &&& exists|hits: Seq<(Ulid, u64)>| keyword_results_match(
                    store@,
                    query@,
                    crate::store::spec_opt_name(collection),
                    top_k,
                    hits,
                    sr.results@,
                )
            },
            r is Ok,
    {
        let start = wall_clock_ms();
        let hits = match store.keyword_search(query, top_k, collection) {
            Ok(h) => h,
            Err(e) => {
                return Err(e);
            },
        };
        let mut results: Vec<SearchResult> = Vec::new();
        let mut i: usize = 0;
        while i < hits.len()
            invariant
                store.wf(),
                i <= hits@.len(),
                hits@.len() <= top_k,
                results@.len() == i,
                forall|p: int, q: int|
                    0 <= p < q < hits@.len() ==> (#[trigger] hits@[p]).1 >= (#[trigger] hits@[q]).1,
                forall|p: int|
                    0 <= p < hits@.len() ==> crate::store::kw_hit_ok(
                        store@,
                        query@,
                        crate::store::spec_opt_name(collection),
                        #[trigger] hits@[p],
                    ),
                forall|p: int|
                    0 <= p < results@.len() ==> 1 <= (#[trigger] results@[p]).rank <= i,
                forall|p: int, q: int|
                    0 <= p < q < results@.len() ==> (#[trigger] results@[p]).rank < (
                    #[trigger] results@[q]).rank,
                results_sorted(results@),
                forall|p: int, g: int|
                    0 <= p < results@.len() && i <= g < hits@.len() ==> (
                    #[trigger] results@[p]).score.den == 1 && results@[p].score.num >= (
                    #[trigger] hits@[g]).1,
                forall|p: int|
                    0 <= p < results@.len() ==> (#[trigger] results@[p]).score.den == 1,
                forall|p: int|
                    0 <= p < results@.len() ==> {
                        let rr = #[trigger] results@[p];
                        &&& rr.chunk.id == hits@[p].0
                        &&& rr.score == (Score { num: hits@[p].1, den: 1 })
                        &&& rr.rank == p + 1
                        &&& exists|c: int|
                            0 <= c < store@.chunks.len() && crate::types::chunk_eq(
                                rr.chunk,
                                #[trigger] store@.chunks[c],
                            )
                        &&& exists|d: int|
                            0 <= d < store@.documents.len() && (#[trigger] store@.documents[d]).id
                                == rr.chunk.doc_id && rr.source_uri@
                                == store@.documents[d].source_uri@ && rr.collection@
                                == store@.documents[d].collection@
                    },
            decreases hits@.len() - i,
        {
            let (chunk_id, score) = hits[i];
            proof {
                let cc = choose|cc: int|
                    0 <= cc < store@.chunks.len() && hits@[i as int].0 == (
                    #[trigger] store@.chunks[cc]).id && hits@[i as int].1
                        == crate::store::count_occurrences(
                        crate::types::ascii_lower(store@.chunks[cc].content@),
                        crate::types::ascii_lower(query@),
                    ) && hits@[i as int].1 > 0 && (crate::store::spec_opt_name(collection) matches
                    Some(n) ==> crate::store::chunk_in_collection(store@, store@.chunks[cc], n));
                assert(crate::store::has_chunk_id(store@.chunks, chunk_id));
            }
            let chunk = match store.get_chunk(chunk_id) {
                Ok(Some(c)) => c,
                Ok(None) => {
                    proof {
                        assert(false);
                    }
                    i += 1;
                    continue ;
                },
                Err(e) => {
                    return Err(e);
                },
            };
            proof {
                let c2 = choose|c2: int|
                    0 <= c2 < store@.chunks.len() && crate::types::chunk_eq(
                        chunk,
                        #[trigger] store@.chunks[c2],
                    );
                assert(crate::store::has_doc_id(store@.documents, store@.chunks[c2].doc_id));
                assert(chunk.doc_id == store@.chunks[c2].doc_id);
            }
            let doc = match store.get_document(chunk.doc_id) {
                Ok(Some(d)) => d,
                Ok(None) => {
                    proof {
                        assert(false);
                    }
                    i += 1;
                    continue ;
                },
                Err(e) => {
                    return Err(e);
                },
            };
            proof {
                let dd = choose|dd: int|
                    0 <= dd < store@.documents.len() && crate::types::doc_eq(
                        doc,
                        #[trigger] store@.documents[dd],
                    );
                assert(store@.documents[dd].id == chunk.doc_id);
                assert(doc.source_uri@ == store@.documents[dd].source_uri@);
                assert(doc.collection@ == store@.documents[dd].collection@);
            }
            results.push(
                SearchResult {
                    rank: (i as u32) + 1,
                    score: Score::from_count(score),
                    chunk,
                    source_uri: doc.source_uri,
                    collection: doc.collection,
                },
            );
            proof {
                assert forall|p: int, q2: int| 0 <= p < q2 < results@.len() implies !Score::spec_lt(
                    (#[trigger] results@[p]).score,
                    (#[trigger] results@[q2]).score,
                ) by {
                    assert(results@[p].score == (Score { num: hits@[p].1, den: 1 }));
                    assert(results@[q2].score == (Score { num: hits@[q2].1, den: 1 }));
                    assert(hits@[p].1 >= hits@[q2].1);
                }
            }
            i += 1;
        }
        proof {
            assert(keyword_results_match(
                store@,
                query@,
                crate::store::spec_opt_name(collection),
                top_k,
                hits@,
                results@,
            ));
        }
        let now = wall_clock_ms();
        let latency_ms: u64 = if now >= start {
            now - start
        } else {
            0
        };
        let total = results.len();
        Ok(
            SearchResults {
                query: String::from_str(query),
                total_results: total,
                latency_ms,
                results,
            },
        )
    }

    /// Answer a hybrid query: fuse the given vector hits with this
    /// store's keyword hits, hydrate the fused list, optionally expand
    /// each hit with neighbors at half score, and return the list
    /// ordered best first with ranks reassigned from one.
    pub fn search(
        &self,
        store: &MemoryStore,
        query: &str,
        vector_hits: &Vec<Ulid>,
        config: &QueryConfig,
    ) -> (r: Result<SearchResults, RagError>)
        requires
            store.wf(),
            config.top_k <= 0x3FFF_FFFF,
            vector_hits@.len() <= 0x8000_0000,
            forall|i: int, j: int|
                0 <= i < j < vector_hits@.len() ==> vector_hits@[i] != vector_hits@[j],
        ensures
            r matches Ok(sr) ==> {
                &&& sr.query@ == query@
                &&& sr.total_results == sr.results@.len()
                &&& results_sorted(sr.results@)
                &&& forall|i: int|
                    0 <= i < sr.results@.len() ==> (#[trigger] sr.results@[i]).rank as int
                        == vstd::math::min(i + 1, u32::MAX as int)
                &&& (!config.expand_context || config.context_chunks == 0)
                    ==> sr.results@.len() <= config.top_k
                &&& (!config.expand_context || config.context_chunks == 0) ==> exists|
                    kw: Seq<Ulid>,
                | #[trigger] hybrid_results_ok(store@, vector_hits@, kw, config.top_k, sr.results@)
                &&& (config.expand_context && config.context_chunks > 0) ==> exists|
                    kw: Seq<Ulid>,
                    hyb: Seq<SearchResult>,
                    exp: Seq<SearchResult>,
                    m: Seq<SearchResult>,
                | #[trigger] expanded_report_ok(
                    store@,
                    vector_hits@,
                    kw,
                    config.top_k,
                    config.context_chunks,
                    hyb,
                    exp,
                    m,
                    sr.results@,
                )
            },
            r is Ok,
    {
        let start = wall_clock_ms();
        let t2 = config.top_k * 2;
        let fetch_k: u32 = if t2 < 20 {
            20
        } else {
            t2
        };
        let cfilter: Option<&str> = match &config.collection {
            Some(s) => Some(s.as_str()),
            None => None,
        };
        let hits = match store.keyword_search(query, fetch_k, cfilter) {
            Ok(h) => h,
            Err(e) => {
                return Err(e);
            },
        };
        let mut keyword_ids: Vec<Ulid> = Vec::new();
        let mut i: usize = 0;
        while i < hits.len()
            invariant
                store.wf(),
                i <= hits@.len(),
                keyword_ids@.len() == i,
                forall|p: int| 0 <= p < i ==> (#[trigger] keyword_ids@[p]) == hits@[p].0,
                forall|p: int, q: int|
                    0 <= p < q < hits@.len() ==> (#[trigger] hits@[p]).0 != (#[trigger] hits@[q]).0,
                forall|p: int|
                    0 <= p < hits@.len() ==> crate::store::kw_hit_ok(
                        store@,
                        query@,
                        crate::store::spec_opt_name(cfilter),
                        #[trigger] hits@[p],
                    ),
                forall|p: int|
                    0 <= p < i ==> crate::store::has_chunk_id(
                        store@.chunks,
                        #[trigger] keyword_ids@[p],
                    ),
            decreases hits@.len() - i,
        {
            proof {
                let cc = choose|cc: int|
                    0 <= cc < store@.chunks.len() && hits@[i as int].0 == (
                    #[trigger] store@.chunks[cc]).id && hits@[i as int].1
                        == crate::store::count_occurrences(
                        crate::types::ascii_lower(store@.chunks[cc].content@),
                        crate::types::ascii_lower(query@),
                    ) && hits@[i as int].1 > 0 && (crate::store::spec_opt_name(cfilter) matches
                    Some(n) ==> crate::store::chunk_in_collection(store@, store@.chunks[cc], n));
                assert(crate::store::has_chunk_id(store@.chunks, hits@[i as int].0));
            }
            keyword_ids.push(hits[i].0);
            i += 1;
        }
        proof {
            assert(hits@.len() <= fetch_k);
        }
        let fused = reciprocal_rank_fusion(vector_hits, &keyword_ids, config.top_k as usize);
        // hydrate
        let mut results: Vec<SearchResult> = Vec::new();
        let mut seen: Vec<Ulid> = Vec::new();
        let mut f: usize = 0;
        while f < fused.len()
            invariant
                f <= fused@.len(),
                results@.len() <= f,
                fused@.len() <= config.top_k,
                seen@.len() == results@.len(),
                forall|p: int|
                    0 <= p < results@.len() ==> (#[trigger] seen@[p]) == results@[p].chunk.id,
                forall|p: int|
                    0 <= p < results@.len() ==> exists|c: int|
                        0 <= c < store@.chunks.len() && crate::types::chunk_eq(
                            (#[trigger] results@[p]).chunk,
                            #[trigger] store@.chunks[c],
                        ),
                forall|p: int|
                    0 <= p < fused@.len() ==> (#[trigger] fused@[p]).1.den >= 1,
                forall|p: int, q: int|
                    0 <= p < q < fused@.len() ==> !Score::spec_lt(
                        (#[trigger] fused@[p]).1,
                        (#[trigger] fused@[q]).1,
                    ),
                forall|p: int|
                    0 <= p < results@.len() ==> (#[trigger] results@[p]).score.wf(),
                results_sorted(results@),
                forall|p: int, g: int|
                    0 <= p < results@.len() && f <= g < fused@.len() ==> !Score::spec_lt(
                        (#[trigger] results@[p]).score,
                        (#[trigger] fused@[g]).1,
                    ),
                store.wf(),
                forall|g: int, h: int|
                    0 <= g < h < fused@.len() ==> (#[trigger] fused@[g]).0 != (
                    #[trigger] fused@[h]).0,
                forall|g: int|
                    0 <= g < fused@.len() ==> (#[trigger] fused@[g]).1 == crate::fusion::rrf_score(
                        vector_hits@,
                        keyword_ids@,
                        fused@[g].0,
                    ) && (vector_hits@.contains(fused@[g].0) || keyword_ids@.contains(
                        fused@[g].0,
                    )),
                forall|p: int|
                    0 <= p < results@.len() ==> exists|g: int|
                        0 <= g < f && (#[trigger] results@[p]).chunk.id == fused@[g].0,
                forall|p: int, q: int|
                    0 <= p < q < results@.len() ==> (#[trigger] results@[p]).chunk.id != (
                    #[trigger] results@[q]).chunk.id,
                forall|p: int|
                    0 <= p < results@.len() ==> (#[trigger] results@[p]).score
                        == crate::fusion::rrf_score(
                        vector_hits@,
                        keyword_ids@,
                        results@[p].chunk.id,
                    ) && (vector_hits@.contains(results@[p].chunk.id) || keyword_ids@.contains(
                        results@[p].chunk.id,
                    )),
                forall|p: int|
                    0 <= p < results@.len() ==> exists|d: int|
                        0 <= d < store@.documents.len() && (#[trigger] store@.documents[d]).id == (
                        #[trigger] results@[p]).chunk.doc_id && results@[p].source_uri@
                            == store@.documents[d].source_uri@ && results@[p].collection@
                            == store@.documents[d].collection@,
                forall|g: int|
                    0 <= g < f && crate::store::has_chunk_id(
                        store@.chunks,
                        (#[trigger] fused@[g]).0,
                    ) ==> exists|p: int|
                        0 <= p < results@.len() && results@[p].chunk.id == fused@[g].0,
            decreases fused@.len() - f,
        {
            let (chunk_id, score) = fused[f];
            let chunk = match store.get_chunk(chunk_id) {
                Ok(Some(c)) => c,
                Ok(None) => {
                    f += 1;
                    continue ;
                },
                Err(e) => {
                    return Err(e);
                },
            };
            proof {
                let c2 = choose|c2: int|
                    0 <= c2 < store@.chunks.len() && crate::types::chunk_eq(
                        chunk,
                        #[trigger] store@.chunks[c2],
                    );
                assert(crate::store::has_doc_id(store@.documents, store@.chunks[c2].doc_id));
                assert(chunk.doc_id == store@.chunks[c2].doc_id);
            }
            let doc = match store.get_document(chunk.doc_id) {
                Ok(Some(d)) => d,
                Ok(None) => {
                    proof {
                        assert(false);
                    }
                    f += 1;
                    continue ;
                },
                Err(e) => {
                    return Err(e);
                },
            };
            proof {
                let dd = choose|dd: int|
                    0 <= dd < store@.documents.len() && crate::types::doc_eq(
                        doc,
                        #[trigger] store@.documents[dd],
                    );
                assert(store@.documents[dd].id == chunk.doc_id);
            }
            seen.push(chunk_id);
            let ghost prev_results = results@;
            results.push(
                SearchResult {
                    rank: 0,
                    score,
                    chunk,
                    source_uri: doc.source_uri,
                    collection: doc.collection,
                },
            );
            proof {
                let w = results@.len() - 1;
                assert(results@[w].chunk.id == fused@[f as int].0);
                assert forall|p: int, q: int|
                    0 <= p < q < results@.len() implies (#[trigger] results@[p]).chunk.id != (
                #[trigger] results@[q]).chunk.id by {
                    if q == w && p < w {
                        let g = choose|g: int|
                            0 <= g < f && (#[trigger] results@[p]).chunk.id == fused@[g].0;
                        assert(fused@[g].0 != fused@[f as int].0);
                    }
                }
                assert forall|g: int|
                    0 <= g < f + 1 && crate::store::has_chunk_id(
                        store@.chunks,
                        (#[trigger] fused@[g]).0,
                    ) implies exists|p: int|
                    0 <= p < results@.len() && results@[p].chunk.id == fused@[g].0 by {
                    if g < f {
                        let p = choose|p: int|
                            0 <= p < prev_results.len() && prev_results[p].chunk.id == fused@[g].0;
                        assert(results@[p].chunk.id == fused@[g].0);
                    } else {
                        assert(results@[w].chunk.id == fused@[g].0);
                    }
                }
            }
            f += 1;
        }
        let ghost hydrated = results@;
        let mut combined = results;
        let ghost seen_pre = seen@;
        if config.expand_context && config.context_chunks > 0 {
            proof {
                assert forall|p: int| 0 <= p < combined@.len() implies seen@.contains(
                    (#[trigger] combined@[p]).chunk.id,
                ) by {
                    assert(seen@[p] == combined@[p].chunk.id);
                }
                assert(seen_pre =~= result_ids(hydrated));
            }
            combined = self.expand_context(store, combined, config.context_chunks, seen)?;
        }
        // order best first and assign ranks from one
        let ghost combined_len = combined@.len();
        let ghost combined_seq = combined@;
        let sorted = sort_results_desc(combined);
        let mut rest = sorted;
        let ghost sseq = rest@;
        let mut out: Vec<SearchResult> = Vec::new();
        while rest.len() > 0
            invariant
                out@.len() + rest@.len() == combined_len,
                sseq.len() == combined_len,
                rest@ == sseq.skip(out@.len() as int),
                forall|p: int|
                    0 <= p < out@.len() ==> {
                        let o = #[trigger] out@[p];
                        &&& o.chunk == sseq[p].chunk
                        &&& o.score == sseq[p].score
                        &&& o.source_uri == sseq[p].source_uri
                        &&& o.collection == sseq[p].collection
                    },
                forall|p: int, q: int|
                    0 <= p < q < out@.len() ==> !Score::spec_lt(
                        (#[trigger] out@[p]).score,
                        (#[trigger] out@[q]).score,
                    ),
                forall|p: int, q: int|
                    0 <= p < out@.len() && 0 <= q < rest@.len() ==> !Score::spec_lt(
                        (#[trigger] out@[p]).score,
                        (#[trigger] rest@[q]).score,
                    ),
                forall|p: int, q: int|
                    0 <= p < q < rest@.len() ==> !Score::spec_lt(
                        (#[trigger] rest@[p]).score,
                        (#[trigger] rest@[q]).score,
                    ),
                forall|p: int|
                    0 <= p < out@.len() ==> (#[trigger] out@[p]).rank as int == vstd::math::min(
                        p + 1,
                        u32::MAX as int,
                    ),
            decreases rest@.len(),
        {
            let ghost n0 = out@.len() as int;
            let mut e = rest.remove(0);
            proof {
                assert(e == sseq.skip(n0)[0]);
                assert(e == sseq[n0]);
                assert(rest@ =~= sseq.skip(n0 + 1));
            }
            e.rank = if out.len() >= (u32::MAX - 1) as usize {
                u32::MAX
            } else {
                (out.len() as u32) + 1
            };
            out.push(e);
        }
        let now = wall_clock_ms();
        let latency_ms: u64 = if now >= start {
            now - start
        } else {
            0
        };
        let total = out.len();
        proof {
            if !config.expand_context || config.context_chunks == 0 {
                assert(out@.len() == combined_len);
                assert(out@.len() <= config.top_k);
                assert(combined_seq == hydrated);
                lemma_hybrid_transfer(
                    store@,
                    vector_hits@,
                    keyword_ids@,
                    config.top_k,
                    fused@,
                    hydrated,
                    sseq,
                    out@,
                );
            } else {
                // the answer is an expansion of a hybrid answer,
                // reordered best first with ranks reassigned
                lemma_hybrid_transfer(
                    store@,
                    vector_hits@,
                    keyword_ids@,
                    config.top_k,
                    fused@,
                    hydrated,
                    hydrated,
                    hydrated,
                );
                assert(expansion_of(
                    store@,
                    hydrated,
                    config.context_chunks,
                    result_ids(hydrated),
                    combined_seq,
                ));
                assert(sseq.to_multiset() == combined_seq.to_multiset());
                assert(results_sorted(sseq));
                assert(rank_reassigned(out@, sseq));
                lemma_distinct_ids_preserved(combined_seq, sseq, out@);
                assert(expanded_report_ok(
                    store@,
                    vector_hits@,
                    keyword_ids@,
                    config.top_k,
                    config.context_chunks,
                    hydrated,
                    combined_seq,
                    sseq,
                    out@,
                ));
            }
        }
        Ok(
            SearchResults {
                query: String::from_str(query),
                total_results: total,
                latency_ms,
                results: out,
            },
        )
    }

    /// Add up to `context_chunks` neighbors on each side of every hit,
    /// at half the hit's score, skipping chunks already collected.
    ///
    /// Every input hit stays in the output. Every other output entry is
    /// a stored chunk of some hit's document at half that hit's score,
    /// with that hit's provenance. No stored chunk within
    /// `context_chunks` positions of a hit in its document is left both
    /// uncollected and out of the output.
    #[verifier::rlimit(100)]
    fn expand_context(
        &self,
        store: &MemoryStore,
        results: Vec<SearchResult>,
        context_chunks: u32,
        seen: Vec<Ulid>,
    ) -> (r: Result<Vec<SearchResult>, RagError>)
        requires
            store.wf(),
            forall|p: int| 0 <= p < results@.len() ==> (#[trigger] results@[p]).score.wf(),
            forall|p: int|
                0 <= p < results@.len() ==> seen@.contains((#[trigger] results@[p]).chunk.id),
            forall|p: int|
                0 <= p < results@.len() ==> exists|c: int|
                    0 <= c < store@.chunks.len() && crate::types::chunk_eq(
                        (#[trigger] results@[p]).chunk,
                        #[trigger] store@.chunks[c],
                    ),
            forall|p: int, q: int|
                0 <= p < q < results@.len() ==> (#[trigger] results@[p]).chunk.id != (
                #[trigger] results@[q]).chunk.id,
        ensures
            r is Ok,
            r matches Ok(v) ==> expansion_of(store@, results@, context_chunks, seen@, v@),
    {
        let ghost seen0 = seen@;
        let ghost all = results@;
        let mut seen = seen;
        let mut rest = results;
        let mut expanded: Vec<SearchResult> = Vec::new();
        while rest.len() > 0
            invariant
                store.wf(),
                rest@.len() <= all.len(),
                forall|p: int| 0 <= p < rest@.len() ==> rest@[p] == all[all.len() - rest@.len() + p],
                forall|p: int| 0 <= p < all.len() ==> (#[trigger] all[p]).score.wf(),
                forall|p: int| 0 <= p < all.len() ==> seen@.contains((#[trigger] all[p]).chunk.id),
                forall|p: int|
                    0 <= p < all.len() ==> exists|c: int|
                        0 <= c < store@.chunks.len() && crate::types::chunk_eq(
                            (#[trigger] all[p]).chunk,
                            #[trigger] store@.chunks[c],
                        ),
                forall|p: int| 0 <= p < expanded@.len() ==> (#[trigger] expanded@[p]).score.wf(),
                forall|p: int|
                    0 <= p < all.len() - rest@.len() ==> expanded@.contains(#[trigger] all[p]),
                forall|q: int|
                    0 <= q < expanded@.len() ==> (all.contains(#[trigger] expanded@[q]) || exists|
                        p: int,
                    |
                        0 <= p < all.len() && expanded@[q].score == Score::spec_halved(
                        (#[trigger] all[p]).score) && expanded@[q].source_uri@
                            == all[p].source_uri@ && expanded@[q].collection@ == all[p].collection@
                            && expanded@[q].chunk.doc_id == all[p].chunk.doc_id),
                forall|q: int|
                    0 <= q < expanded@.len() ==> exists|c: int|
                        0 <= c < store@.chunks.len() && crate::types::chunk_eq(
                            (#[trigger] expanded@[q]).chunk,
                            #[trigger] store@.chunks[c],
                        ),
                forall|id: Ulid| #[trigger]
                    seen@.contains(id) ==> seen0.contains(id) || exists|q: int|
                        0 <= q < expanded@.len() && expanded@[q].chunk.id == id,
                forall|p: int, c: int|
                    0 <= p < all.len() - rest@.len() && 0 <= c < store@.chunks.len() && (
                    #[trigger] store@.chunks[c]).doc_id == (#[trigger] all[p]).chunk.doc_id
                        && all[p].chunk.chunk_index - context_chunks
                        <= store@.chunks[c].chunk_index <= all[p].chunk.chunk_index
                        + context_chunks ==> seen@.contains(store@.chunks[c].id),
                forall|q: int|
                    0 <= q < expanded@.len() ==> seen@.contains((#[trigger] expanded@[q]).chunk.id),
                forall|q1: int, q2: int|
                    0 <= q1 < q2 < expanded@.len() ==> (#[trigger] expanded@[q1]).chunk.id != (
                #[trigger] expanded@[q2]).chunk.id,
                forall|q: int|
                    0 <= q < expanded@.len() ==> ((exists|p: int|
                        0 <= p < all.len() - rest@.len() && expanded@[q].chunk.id == (#[trigger] all[p]).chunk.id)
                        || !seen0.contains((#[trigger] expanded@[q]).chunk.id)),
                forall|id: Ulid| #[trigger] seen0.contains(id) ==> seen@.contains(id),
                forall|p: int, q: int|
                    0 <= p < q < all.len() ==> (#[trigger] all[p]).chunk.id != (
                #[trigger] all[q]).chunk.id,
                forall|p: int|
                    0 <= p < all.len() ==> seen0.contains((#[trigger] all[p]).chunk.id),
            decreases rest@.len(),
        {
            let ghost prev_done = all.len() - rest@.len();
            let result = rest.remove(0);
            proof {
                assert(result == all[prev_done]);
            }
            let doc_chunks = match store.get_chunks_for_document(result.chunk.doc_id) {
                Ok(v) => v,
                Err(e) => {
                    return Err(e);
                },
            };
            let ghost did = result.chunk.doc_id;
            let ghost dseq = crate::store::doc_chunks(store@.chunks, did);
            // position of the hit within its document
            let mut current_idx: usize = 0;
            let mut found = false;
            let mut ci: usize = 0;
            while ci < doc_chunks.len()
                invariant
                    ci <= doc_chunks@.len(),
                    !found ==> forall|k: int|
                        0 <= k < ci ==> (#[trigger] doc_chunks@[k]).id != result.chunk.id,
                    found ==> current_idx < doc_chunks@.len()
                        && doc_chunks@[current_idx as int].id == result.chunk.id,
                ensures
                    found ==> current_idx < doc_chunks@.len()
                        && doc_chunks@[current_idx as int].id == result.chunk.id,
                    !found ==> forall|k: int|
                        0 <= k < doc_chunks@.len() ==> (#[trigger] doc_chunks@[k]).id
                            != result.chunk.id,
                decreases doc_chunks@.len() - ci,
            {
                if doc_chunks[ci].id == result.chunk.id {
                    current_idx = ci;
                    found = true;
                    break ;
                }
                ci += 1;
            }
            proof {
                // the hit is a stored chunk of this document, so the
                // lookup found it, at its own chunk index
                let c = choose|c: int|
                    0 <= c < store@.chunks.len() && crate::types::chunk_eq(
                        all[prev_done].chunk,
                        store@.chunks[c],
                    );
                store@.chunks.filter_lemma(crate::store::chunk_of(did));
                assert(dseq.contains(store@.chunks[c]));
                let q = choose|q: int| 0 <= q < dseq.len() && dseq[q] == store@.chunks[c];
                assert(crate::store::indexed_ok(dseq));
                assert(dseq[q].chunk_index == q);
                assert(doc_chunks@[q].id == result.chunk.id);
                assert(found);
                let cur = current_idx as int;
                assert(dseq[cur].id == result.chunk.id);
                if cur != q {
                    crate::store::lemma_doc_chunks_member(store@.chunks, did, cur);
                    crate::store::lemma_doc_chunks_member(store@.chunks, did, q);
                    assert(store@.chunks.contains(dseq[cur]));
                    assert(store@.chunks.contains(dseq[q]));
                    let i1 = choose|i: int|
                        0 <= i < store@.chunks.len() && store@.chunks[i] == dseq[cur];
                    let i2 = choose|i: int|
                        0 <= i < store@.chunks.len() && store@.chunks[i] == dseq[q];
                    assert(store@.chunks[i1].id == store@.chunks[i2].id);
                    if i1 != i2 {
                        assert(false);
                    }
                    assert(dseq[cur].chunk_index == cur && dseq[q].chunk_index == q);
                    assert(false);
                }
                assert(current_idx as int == result.chunk.chunk_index as int);
            }
            let ghost idx = result.chunk.chunk_index as int;
            // earlier neighbors
            let mut o: usize = 0;
            while o < context_chunks as usize
                invariant
                    store.wf(),
                    o <= context_chunks as usize,
                    0 <= prev_done < all.len(),
                    result == all[prev_done],
                    did == result.chunk.doc_id,
                    idx == result.chunk.chunk_index as int,
                    current_idx as int == idx,
                    current_idx < doc_chunks@.len(),
                    dseq == crate::store::doc_chunks(store@.chunks, did),
                    doc_chunks@.len() == dseq.len(),
                    forall|k: int|
                        0 <= k < doc_chunks@.len() ==> crate::types::chunk_eq(
                            #[trigger] doc_chunks@[k],
                            dseq[k],
                        ),
                    forall|k: int| 0 <= k < dseq.len() ==> (#[trigger] dseq[k]).chunk_index == k,
                    forall|p: int|
                        0 <= p < all.len() ==> seen@.contains((#[trigger] all[p]).chunk.id),
                    forall|p: int|
                        0 <= p < expanded@.len() ==> (#[trigger] expanded@[p]).score.wf(),
                    forall|p: int| 0 <= p < all.len() ==> (#[trigger] all[p]).score.wf(),
                    forall|p: int| 0 <= p < prev_done ==> expanded@.contains(#[trigger] all[p]),
                    forall|q: int|
                        0 <= q < expanded@.len() ==> (all.contains(#[trigger] expanded@[q])
                            || exists|p: int|
                            0 <= p < all.len() && expanded@[q].score == Score::spec_halved(
                            (#[trigger] all[p]).score) && expanded@[q].source_uri@
                                == all[p].source_uri@ && expanded@[q].collection@
                                == all[p].collection@ && expanded@[q].chunk.doc_id
                                == all[p].chunk.doc_id),
                    forall|q: int|
                        0 <= q < expanded@.len() ==> exists|c: int|
                            0 <= c < store@.chunks.len() && crate::types::chunk_eq(
                                (#[trigger] expanded@[q]).chunk,
                                #[trigger] store@.chunks[c],
                            ),
                    forall|id: Ulid| #[trigger]
                        seen@.contains(id) ==> seen0.contains(id) || exists|q: int|
                            0 <= q < expanded@.len() && expanded@[q].chunk.id == id,
                    forall|p: int, c: int|
                        0 <= p < prev_done && 0 <= c < store@.chunks.len() && (
                        #[trigger] store@.chunks[c]).doc_id == (#[trigger] all[p]).chunk.doc_id
                            && all[p].chunk.chunk_index - context_chunks
                            <= store@.chunks[c].chunk_index <= all[p].chunk.chunk_index
                            + context_chunks ==> seen@.contains(store@.chunks[c].id),
                    forall|c: int|
                        0 <= c < store@.chunks.len() && (#[trigger] store@.chunks[c]).doc_id == did
                            && idx - o <= store@.chunks[c].chunk_index < idx ==> seen@.contains(
                            store@.chunks[c].id,
                        ),
                    forall|q: int|
                        0 <= q < expanded@.len() ==> seen@.contains((#[trigger] expanded@[q]).chunk.id),
                    forall|q1: int, q2: int|
                        0 <= q1 < q2 < expanded@.len() ==> (#[trigger] expanded@[q1]).chunk.id != (
                    #[trigger] expanded@[q2]).chunk.id,
                    forall|q: int|
                        0 <= q < expanded@.len() ==> ((exists|p: int|
                            0 <= p < prev_done && expanded@[q].chunk.id == (#[trigger] all[p]).chunk.id)
                            || !seen0.contains((#[trigger] expanded@[q]).chunk.id)),
                    forall|id: Ulid| #[trigger] seen0.contains(id) ==> seen@.contains(id),
                    forall|p: int, q: int|
                        0 <= p < q < all.len() ==> (#[trigger] all[p]).chunk.id != (
                    #[trigger] all[q]).chunk.id,
                    forall|p: int|
                        0 <= p < all.len() ==> seen0.contains((#[trigger] all[p]).chunk.id),
                decreases context_chunks as int - o,
            {
                let off = o + 1;
                if current_idx >= off {
                    let neighbor = &doc_chunks[current_idx - off];
                    if !vec_has_id(&seen, neighbor.id) {
                        let ghost prev_seen = seen@;
                        let ghost prev_exp = expanded@;
                        seen.push(neighbor.id);
                        expanded.push(
                            SearchResult {
                                rank: 0,
                                score: result.score.halved(),
                                chunk: neighbor.duplicate(),
                                source_uri: result.source_uri.clone(),
                                collection: result.collection.clone(),
                            },
                        );
                        proof {
                            let w = expanded@.len() - 1;
                            assert(expanded@[w].chunk.id == neighbor.id);
                            assert(crate::types::chunk_eq(
                                expanded@[w].chunk,
                                dseq[idx - off],
                            ));
                            crate::store::lemma_doc_chunks_member(store@.chunks, did, idx - off);
                            assert(crate::store::chunk_of(did)(dseq[idx - off]));
                            assert(store@.chunks.contains(dseq[idx - off]));
                            assert(expanded@[w].score == Score::spec_halved(all[prev_done].score));
                            assert(seen@ == prev_seen.push(neighbor.id));
                            lemma_expand_push(
                                all,
                                seen0,
                                prev_seen,
                                prev_exp,
                                seen@,
                                expanded@,
                                prev_done,
                                neighbor.id,
                            );
                            assert forall|p: int| 0 <= p < prev_done implies expanded@.contains(
                                #[trigger] all[p],
                            ) by {
                                let q0 = choose|q0: int|
                                    0 <= q0 < prev_exp.len() && prev_exp[q0] == all[p];
                                assert(expanded@[q0] == all[p]);
                            }
                        }
                    }
                    proof {
                        assert(seen@.contains(doc_chunks@[idx - off].id));
                    }
                }
                proof {
                    // any stored chunk of this document at the offset
                    // just handled carries the handled neighbor's id
                    assert forall|c: int|
                        0 <= c < store@.chunks.len() && (#[trigger] store@.chunks[c]).doc_id == did
                            && idx - off <= store@.chunks[c].chunk_index < idx implies seen@.contains(
                        store@.chunks[c].id,
                    ) by {
                        if store@.chunks[c].chunk_index == idx - off {
                            store@.chunks.filter_lemma(crate::store::chunk_of(did));
                            assert(dseq.contains(store@.chunks[c]));
                            let w = choose|w: int|
                                0 <= w < dseq.len() && dseq[w] == store@.chunks[c];
                            assert(w == store@.chunks[c].chunk_index);
                            assert(idx - off >= 0);
                            assert(doc_chunks@[idx - off].id == store@.chunks[c].id);
                        }
                    }
                }
                o = off;
            }
            // the hit itself, then later neighbors
            let score = result.score;
            let source_uri = result.source_uri.clone();
            let collection = result.collection.clone();
            let ghost prev_exp_hit = expanded@;
            expanded.push(result);
            proof {
                assert(expanded@[expanded@.len() - 1] == all[prev_done]);
                assert(expanded@.contains(all[prev_done]));
                assert(all.contains(all[prev_done]));
                assert forall|p: int| 0 <= p < prev_done + 1 implies expanded@.contains(
                    #[trigger] all[p],
                ) by {
                    if p < prev_done {
                        let q0 = choose|q0: int|
                            0 <= q0 < prev_exp_hit.len() && prev_exp_hit[q0] == all[p];
                        assert(expanded@[q0] == all[p]);
                    }
                }
                assert forall|id: Ulid| #[trigger] seen@.contains(id) implies seen0.contains(id)
                    || exists|q2: int| 0 <= q2 < expanded@.len() && expanded@[q2].chunk.id == id by {
                    if !seen0.contains(id) {
                        let q0 = choose|q0: int|
                            0 <= q0 < prev_exp_hit.len() && prev_exp_hit[q0].chunk.id == id;
                        assert(expanded@[q0].chunk.id == id);
                    }
                }
                let wh = expanded@.len() - 1;
                assert(expanded@[wh].chunk.id == all[prev_done].chunk.id);
                assert(seen0.contains(all[prev_done].chunk.id));
                assert(seen@.contains(all[prev_done].chunk.id));
                assert forall|q1: int, q2: int|
                    0 <= q1 < q2 < expanded@.len() implies (#[trigger] expanded@[q1]).chunk.id
                    != (#[trigger] expanded@[q2]).chunk.id by {
                    if q2 == wh {
                        if seen0.contains(prev_exp_hit[q1].chunk.id) {
                            let p0 = choose|p0: int|
                                0 <= p0 < prev_done && prev_exp_hit[q1].chunk.id == (
                                #[trigger] all[p0]).chunk.id;
                            assert(all[p0].chunk.id != all[prev_done].chunk.id);
                        }
                    }
                }
                assert forall|q: int|
                    0 <= q < expanded@.len() implies ((exists|p: int|
                    0 <= p < prev_done + 1 && expanded@[q].chunk.id == (
                    #[trigger] all[p]).chunk.id) || !seen0.contains(
                    (#[trigger] expanded@[q]).chunk.id,
                )) by {
                    if q == wh {
                        assert(expanded@[q].chunk.id == all[prev_done].chunk.id);
                    } else {
                        if seen0.contains(prev_exp_hit[q].chunk.id) {
                            let p0 = choose|p0: int|
                                0 <= p0 < prev_done && prev_exp_hit[q].chunk.id == (
                                #[trigger] all[p0]).chunk.id;
                            assert(expanded@[q].chunk.id == all[p0].chunk.id);
                        }
                    }
                }
            }
            let mut o2: usize = 0;
            while o2 < context_chunks as usize
                invariant
                    store.wf(),
                    o2 <= context_chunks as usize,
                    0 <= prev_done < all.len(),
                    did == all[prev_done].chunk.doc_id,
                    idx == all[prev_done].chunk.chunk_index as int,
                    current_idx as int == idx,
                    current_idx < doc_chunks@.len(),
                    score == all[prev_done].score,
                    source_uri@ == all[prev_done].source_uri@,
                    collection@ == all[prev_done].collection@,
                    dseq == crate::store::doc_chunks(store@.chunks, did),
                    doc_chunks@.len() == dseq.len(),
                    forall|k: int|
                        0 <= k < doc_chunks@.len() ==> crate::types::chunk_eq(
                            #[trigger] doc_chunks@[k],
                            dseq[k],
                        ),
                    forall|k: int| 0 <= k < dseq.len() ==> (#[trigger] dseq[k]).chunk_index == k,
                    forall|p: int|
                        0 <= p < all.len() ==> seen@.contains((#[trigger] all[p]).chunk.id),
                    forall|p: int|
                        0 <= p < expanded@.len() ==> (#[trigger] expanded@[p]).score.wf(),
                    forall|p: int| 0 <= p < all.len() ==> (#[trigger] all[p]).score.wf(),
                    forall|p: int| 0 <= p < prev_done + 1 ==> expanded@.contains(#[trigger] all[p]),
                    forall|q: int|
                        0 <= q < expanded@.len() ==> (all.contains(#[trigger] expanded@[q])
                            || exists|p: int|
                            0 <= p < all.len() && expanded@[q].score == Score::spec_halved(
                            (#[trigger] all[p]).score) && expanded@[q].source_uri@
                                == all[p].source_uri@ && expanded@[q].collection@
                                == all[p].collection@ && expanded@[q].chunk.doc_id
                                == all[p].chunk.doc_id),
                    forall|q: int|
                        0 <= q < expanded@.len() ==> exists|c: int|
                            0 <= c < store@.chunks.len() && crate::types::chunk_eq(
                                (#[trigger] expanded@[q]).chunk,
                                #[trigger] store@.chunks[c],
                            ),
                    forall|id: Ulid| #[trigger]
                        seen@.contains(id) ==> seen0.contains(id) || exists|q: int|
                            0 <= q < expanded@.len() && expanded@[q].chunk.id == id,
                    forall|p: int, c: int|
                        0 <= p < prev_done && 0 <= c < store@.chunks.len() && (
                        #[trigger] store@.chunks[c]).doc_id == (#[trigger] all[p]).chunk.doc_id
                            && all[p].chunk.chunk_index - context_chunks
                            <= store@.chunks[c].chunk_index <= all[p].chunk.chunk_index
                            + context_chunks ==> seen@.contains(store@.chunks[c].id),
                    forall|c: int|
                        0 <= c < store@.chunks.len() && (#[trigger] store@.chunks[c]).doc_id == did
                            && idx - context_chunks <= store@.chunks[c].chunk_index < idx
                            ==> seen@.contains(store@.chunks[c].id),
                    forall|c: int|
                        0 <= c < store@.chunks.len() && (#[trigger] store@.chunks[c]).doc_id == did
                            && idx < store@.chunks[c].chunk_index <= idx + o2 ==> seen@.contains(
                            store@.chunks[c].id,
                        ),
                    forall|q: int|
                        0 <= q < expanded@.len() ==> seen@.contains((#[trigger] expanded@[q]).chunk.id),
                    forall|q1: int, q2: int|
                        0 <= q1 < q2 < expanded@.len() ==> (#[trigger] expanded@[q1]).chunk.id != (
                    #[trigger] expanded@[q2]).chunk.id,
                    forall|q: int|
                        0 <= q < expanded@.len() ==> ((exists|p: int|
                            0 <= p < prev_done + 1 && expanded@[q].chunk.id == (#[trigger] all[p]).chunk.id)
                            || !seen0.contains((#[trigger] expanded@[q]).chunk.id)),
                    forall|id: Ulid| #[trigger] seen0.contains(id) ==> seen@.contains(id),
                    forall|p: int, q: int|
                        0 <= p < q < all.len() ==> (#[trigger] all[p]).chunk.id != (
                    #[trigger] all[q]).chunk.id,
                    forall|p: int|
                        0 <= p < all.len() ==> seen0.contains((#[trigger] all[p]).chunk.id),
                decreases context_chunks as int - o2,
            {
                let off2 = o2 + 1;
                if off2 <= doc_chunks.len() && current_idx < doc_chunks.len() - off2 {
                    let neighbor = &doc_chunks[current_idx + off2];
                    if !vec_has_id(&seen, neighbor.id) {
                        let ghost prev_seen = seen@;
                        let ghost prev_exp = expanded@;
                        seen.push(neighbor.id);
                        expanded.push(
                            SearchResult {
                                rank: 0,
                                score: score.halved(),
                                chunk: neighbor.duplicate(),
                                source_uri: source_uri.clone(),
                                collection: collection.clone(),
                            },
                        );
                        proof {
                            let w = expanded@.len() - 1;
                            assert(expanded@[w].chunk.id == neighbor.id);
                            assert(crate::types::chunk_eq(
                                expanded@[w].chunk,
                                dseq[idx + off2],
                            ));
                            crate::store::lemma_doc_chunks_member(store@.chunks, did, idx + off2);
                            assert(crate::store::chunk_of(did)(dseq[idx + off2]));
                            assert(store@.chunks.contains(dseq[idx + off2]));
                            assert(expanded@[w].score == Score::spec_halved(all[prev_done].score));
                            assert(seen@ == prev_seen.push(neighbor.id));
                            lemma_expand_push(
                                all,
                                seen0,
                                prev_seen,
                                prev_exp,
                                seen@,
                                expanded@,
                                prev_done + 1,
                                neighbor.id,
                            );
                            assert forall|p: int| 0 <= p < prev_done + 1 implies expanded@.contains(
                                #[trigger] all[p],
                            ) by {
                                let q0 = choose|q0: int|
                                    0 <= q0 < prev_exp.len() && prev_exp[q0] == all[p];
                                assert(expanded@[q0] == all[p]);
                            }
                        }
                    }
                    proof {
                        assert(seen@.contains(doc_chunks@[idx + off2].id));
                    }
                }
                proof {
                    assert forall|c: int|
                        0 <= c < store@.chunks.len() && (#[trigger] store@.chunks[c]).doc_id == did
                            && idx < store@.chunks[c].chunk_index <= idx + off2 implies seen@.contains(
                        store@.chunks[c].id,
                    ) by {
                        if store@.chunks[c].chunk_index == idx + off2 {
                            store@.chunks.filter_lemma(crate::store::chunk_of(did));
                            assert(dseq.contains(store@.chunks[c]));
                            let w = choose|w: int|
                                0 <= w < dseq.len() && dseq[w] == store@.chunks[c];
                            assert(w == store@.chunks[c].chunk_index);
                            assert(w < dseq.len());
                            assert(doc_chunks@[idx + off2].id == store@.chunks[c].id);
                        }
                    }
                }
                o2 = off2;
            }
            proof {
                // the band around this hit is fully collected
                assert forall|c: int|
                    0 <= c < store@.chunks.len() && (#[trigger] store@.chunks[c]).doc_id == did
                        && idx - context_chunks <= store@.chunks[c].chunk_index <= idx
                        + context_chunks implies seen@.contains(store@.chunks[c].id) by {
                    if store@.chunks[c].chunk_index == idx {
                        store@.chunks.filter_lemma(crate::store::chunk_of(did));
                        assert(dseq.contains(store@.chunks[c]));
                        let w = choose|w: int| 0 <= w < dseq.len() && dseq[w] == store@.chunks[c];
                        assert(w == idx);
                        assert(store@.chunks[c].id == all[prev_done].chunk.id);
                        assert(seen@.contains(all[prev_done].chunk.id));
                    }
                }
            }
        }
        Ok(expanded)
    }
}

/// Whether an id list holds this id.
fn vec_has_id(v: &Vec<Ulid>, id: Ulid) -> (r: bool)
    ensures
        r == v@.contains(id),
{
    let mut i: usize = 0;
    while i < v.len()
        invariant
            i <= v@.len(),
            forall|k: int| 0 <= k < i ==> v@[k] != id,
        decreases v@.len() - i,
    {
        if v[i] == id {
            return true;
        }
        i += 1;
    }
    proof {
        assert(!v@.contains(id));
    }
    false
}

/// Sort results by descending score. The result is a rearrangement: it
/// holds exactly the entries of the input.
#[verifier::loop_isolation(false)]
fn sort_results_desc(v: Vec<SearchResult>) -> (r: Vec<SearchResult>)
    requires
        forall|i: int| 0 <= i < v@.len() ==> (#[trigger] v@[i]).score.wf(),
    ensures
        forall|i: int, j: int|
            0 <= i < j < r@.len() ==> !Score::spec_lt(
                (#[trigger] r@[i]).score,
                (#[trigger] r@[j]).score,
            ),
        forall|i: int| 0 <= i < r@.len() ==> (#[trigger] r@[i]).score.wf(),
        r@.len() == v@.len(),
        r@.to_multiset() == v@.to_multiset(),
{
    broadcast use vstd::seq_lib::group_to_multiset_ensures;
    broadcast use vstd::multiset::group_multiset_axioms;

    let mut rest = v;
    let mut out: Vec<SearchResult> = Vec::new();
    while rest.len() > 0
        invariant
            out@.len() + rest@.len() == v@.len(),
            out@.to_multiset().add(rest@.to_multiset()) == v@.to_multiset(),
            forall|i: int, j: int|
                0 <= i < j < out@.len() ==> !Score::spec_lt(
                    (#[trigger] out@[i]).score,
                    (#[trigger] out@[j]).score,
                ),
            forall|i: int, j: int|
                0 <= i < out@.len() && 0 <= j < rest@.len() ==> !Score::spec_lt(
                    (#[trigger] out@[i]).score,
                    (#[trigger] rest@[j]).score,
                ),
            forall|i: int| 0 <= i < rest@.len() ==> (#[trigger] rest@[i]).score.wf(),
            forall|i: int| 0 <= i < out@.len() ==> (#[trigger] out@[i]).score.wf(),
        decreases rest@.len(),
    {
        let mut best: usize = 0;
        let mut bi: usize = 1;
        while bi < rest.len()
            invariant
                best < bi <= rest@.len(),
                rest@.len() > 0,
                forall|k: int|
                    0 <= k < bi ==> !Score::spec_lt(
                        rest@[best as int].score,
                        (#[trigger] rest@[k]).score,
                    ),
            decreases rest@.len() - bi,
        {
            if rest[best].score.lt(&rest[bi].score) {
                proof {
                    assert forall|k: int| 0 <= k < bi + 1 implies !Score::spec_lt(
                        rest@[bi as int].score,
                        (#[trigger] rest@[k]).score,
                    ) by {
                        if k < bi {
                            lemma_score_lt_chain(
                                rest@[k].score,
                                rest@[best as int].score,
                                rest@[bi as int].score,
                            );
                        }
                    }
                }
                best = bi;
            }
            bi += 1;
        }
        let ghost prev_out = out@;
        let ghost prev_rest = rest@;
        let e = rest.remove(best);
        out.push(e);
        proof {
            assert(out@ == prev_out.push(e));
            assert(prev_out.push(e).to_multiset() =~= prev_out.to_multiset().insert(e));
            assert(prev_rest.remove(best as int).to_multiset() =~= prev_rest.to_multiset().remove(
                prev_rest[best as int],
            ));
            assert(out@.to_multiset() =~= prev_out.to_multiset().insert(e));
            assert(rest@.to_multiset() =~= prev_rest.to_multiset().remove(e));
            assert(out@.to_multiset().add(rest@.to_multiset()) =~= prev_out.to_multiset().add(
                prev_rest.to_multiset(),
            ));
        }
    }
    out
}

} // verus!
