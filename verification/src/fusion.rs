//! Reciprocal Rank Fusion: combining two rank lists into one.
//!
//! Each list contributes `1 / (60 + rank + 1)` to the fused score of the
//! identifier at zero-based `rank`; the fused list is sorted by score,
//! holds each identifier once, and is cut to the requested length.
//! Scores are exact rationals, so the ordering never rounds.

use crate::types::Score;
use crate::types::Ulid;
use vstd::prelude::*;

verus! {

/// The reciprocal-rank-fusion constant.
pub const RRF_K: u64 = 60;

/// The fused score of an identifier given the two rank lists it may
/// occur in: the exact rational sum of `1 / (61 + rank)` over the lists
/// that hold it, and zero if neither does.
pub open spec fn rrf_score(a: Seq<Ulid>, b: Seq<Ulid>, id: Ulid) -> Score {
    let ia = a.index_of(id);
    let ib = b.index_of(id);
    if a.contains(id) && b.contains(id) {
        Score {
            num: ((61 + ia) + (61 + ib)) as u64,
            den: ((61 + ia) * (61 + ib)) as u64,
        }
    } else if a.contains(id) {
        Score { num: 1, den: (61 + ia) as u64 }
    } else if b.contains(id) {
        Score { num: 1, den: (61 + ib) as u64 }
    } else {
        Score { num: 0, den: 1 }
    }
}

/// How many identifiers of `b` occur nowhere in `a`.
pub open spec fn count_new(b: Seq<Ulid>, a: Seq<Ulid>) -> int
    decreases b.len(),
{
    if b.len() == 0 {
        0
    } else {
        count_new(b.drop_last(), a) + if a.contains(b.last()) {
            0int
        } else {
            1int
        }
    }
}

/// The number of distinct identifiers the two rank lists hold together,
/// when each list is duplicate-free.
pub open spec fn fused_count(a: Seq<Ulid>, b: Seq<Ulid>) -> int {
    a.len() + count_new(b, a)
}

/// Position of the first occurrence of `id` in `v`.
fn find_index(v: &Vec<Ulid>, id: Ulid) -> (r: Option<usize>)
    ensures
        r matches Some(i) ==> i < v@.len() && v@[i as int] == id,
        r is None <==> !v@.contains(id),
{
    let mut i: usize = 0;
    while i < v.len()
        invariant
            i <= v@.len(),
            forall|j: int| 0 <= j < i ==> v@[j] != id,
        decreases v@.len() - i,
    {
        if v[i] == id {
            return Some(i);
        }
        i += 1;
    }
    proof {
        assert(!v@.contains(id));
    }
    None
}

/// Descending order by score.
pub open spec fn sorted_by_score_desc(s: Seq<(Ulid, Score)>) -> bool {
    forall|i: int, j: int| 0 <= i < j < s.len() ==> !Score::spec_lt(#[trigger] s[i].1, #[trigger] s[j].1)
}

pub(crate) proof fn lemma_score_lt_chain(k: Score, best: Score, cand: Score)
    requires
        k.den >= 1,
        best.den >= 1,
        cand.den >= 1,
        !Score::spec_lt(best, k),
        Score::spec_lt(best, cand),
    ensures
        !Score::spec_lt(cand, k),
{
    assert(!((cand.num as int) * (k.den as int) < (k.num as int) * (cand.den as int)))
        by (nonlinear_arith)
        requires
            k.den >= 1,
            best.den >= 1,
            cand.den >= 1,
            !((best.num as int) * (k.den as int) < (k.num as int) * (best.den as int)),
            (best.num as int) * (cand.den as int) < (cand.num as int) * (best.den as int),
    ;
}

/// Sort scored identifiers by descending score. The result is a
/// rearrangement: it holds exactly the pairs of the input.
#[verifier::loop_isolation(false)]
fn sort_by_score_desc(v: Vec<(Ulid, Score)>) -> (r: Vec<(Ulid, Score)>)
    requires
        forall|i: int| 0 <= i < v@.len() ==> (#[trigger] v@[i]).1.den >= 1,
    ensures
        r@.len() == v@.len(),
        r@.to_multiset() == v@.to_multiset(),
        sorted_by_score_desc(r@),
{
    broadcast use vstd::seq_lib::group_to_multiset_ensures;
    broadcast use vstd::multiset::group_multiset_axioms;

    let mut rest = v;
    let mut out: Vec<(Ulid, Score)> = Vec::new();
    while rest.len() > 0
        invariant
            out@.len() + rest@.len() == v@.len(),
            out@.to_multiset().add(rest@.to_multiset()) == v@.to_multiset(),
            sorted_by_score_desc(out@),
            forall|i: int, j: int|
                0 <= i < out@.len() && 0 <= j < rest@.len() ==> !Score::spec_lt(
                    #[trigger] out@[i].1,
                    #[trigger] rest@[j].1,
                ),
            forall|i: int| 0 <= i < rest@.len() ==> (#[trigger] rest@[i]).1.den >= 1,
        decreases rest@.len(),
    {
        let mut best: usize = 0;
        let mut bi: usize = 1;
        while bi < rest.len()
            invariant
                best < bi <= rest@.len(),
                rest@.len() > 0,
                forall|i: int| 0 <= i < rest@.len() ==> (#[trigger] rest@[i]).1.den >= 1,
                forall|k: int|
                    0 <= k < bi ==> !Score::spec_lt(rest@[best as int].1, (#[trigger] rest@[k]).1),
            decreases rest@.len() - bi,
        {
            if rest[best].1.lt(&rest[bi].1) {
                proof {
                    assert forall|k: int| 0 <= k < bi + 1 implies !Score::spec_lt(
                        rest@[bi as int].1,
                        (#[trigger] rest@[k]).1,
                    ) by {
                        if k < bi {
                            lemma_score_lt_chain(
                                rest@[k].1,
                                rest@[best as int].1,
                                rest@[bi as int].1,
                            );
                        }
                    }
                }
                best = bi;
            }
            bi += 1;
        }
        let ghost prev_out = out@;
        let ghost prev_rest = rest@;
        let e = rest.remove(best);
        out.push(e);
        proof {
            assert(out@ == prev_out.push(e));
            assert(prev_out.push(e).to_multiset() =~= prev_out.to_multiset().insert(e));
            assert(prev_rest.remove(best as int).to_multiset() =~= prev_rest.to_multiset().remove(
                prev_rest[best as int],
            ));
            assert(out@.to_multiset() =~= prev_out.to_multiset().insert(e));
            assert(rest@.to_multiset() =~= prev_rest.to_multiset().remove(e));
            assert(out@.to_multiset().add(rest@.to_multiset()) =~= prev_out.to_multiset().add(
                prev_rest.to_multiset(),
            ));
        }
    }
    out
}

/// Fuse two rank lists of distinct identifiers.
///
/// Every returned identifier comes from one of the lists and carries
/// exactly its fused score; identifiers appear at most once; the list is
/// sorted by descending score and holds exactly the smaller of `top_k`
/// and the number of distinct identifiers — so every identifier of
/// either list is returned when together they number at most `top_k`.
#[verifier::rlimit(60)]
pub fn reciprocal_rank_fusion(list_a: &Vec<Ulid>, list_b: &Vec<Ulid>, top_k: usize) -> (r: Vec<
    (Ulid, Score),
>)
    requires
        list_a@.len() <= 0x8000_0000,
        list_b@.len() <= 0x8000_0000,
        forall|i: int, j: int| 0 <= i < j < list_a@.len() ==> list_a@[i] != list_a@[j],
        forall|i: int, j: int| 0 <= i < j < list_b@.len() ==> list_b@[i] != list_b@[j],
    ensures
        r@.len() <= top_k,
        r@.len() == vstd::math::min(top_k as int, fused_count(list_a@, list_b@)),
        forall|i: int, j: int| 0 <= i < j < r@.len() ==> (#[trigger] r@[i]).0 != (#[trigger] r@[j]).0,
        sorted_by_score_desc(r@),
        forall|i: int|
            0 <= i < r@.len() ==> (list_a@.contains((#[trigger] r@[i]).0) || list_b@.contains(
                r@[i].0,
            )) && r@[i].1 == rrf_score(list_a@, list_b@, r@[i].0) && r@[i].1.den >= 1,
        fused_count(list_a@, list_b@) <= top_k ==> forall|id: Ulid| #![auto]
            list_a@.contains(id) || list_b@.contains(id) ==> exists|i: int|
                0 <= i < r@.len() && r@[i].0 == id,
{
    broadcast use vstd::seq_lib::group_to_multiset_ensures;

    let ghost a = list_a@;
    let ghost b = list_b@;
    let mut scored: Vec<(Ulid, Score)> = Vec::new();
    let mut i: usize = 0;
    while i < list_a.len()
        invariant
            i <= a.len(),
            a == list_a@,
            b == list_b@,
            a.len() <= 0x8000_0000,
            b.len() <= 0x8000_0000,
            forall|p: int, q: int| 0 <= p < q < a.len() ==> a[p] != a[q],
            forall|p: int, q: int| 0 <= p < q < b.len() ==> b[p] != b[q],
            scored@.len() == i,
            forall|p: int| 0 <= p < i ==> (#[trigger] scored@[p]).0 == a[p],
            forall|p: int|
                0 <= p < scored@.len() ==> (#[trigger] scored@[p]).1 == rrf_score(
                    a,
                    b,
                    scored@[p].0,
                ) && scored@[p].1.den >= 1,
        decreases a.len() - i,
    {
        let id = list_a[i];
        proof {
            assert(a[i as int] == id);
            assert(a.contains(id));
            assert forall|p: int| 0 <= p < a.len() && a[p] == id implies p == i as int by {}
            assert(a.index_of(id) == i as int);
        }
        let s: Score = match find_index(list_b, id) {
            Some(rb) => {
                proof {
                    assert(b.contains(id));
                    assert forall|p: int| 0 <= p < b.len() && b[p] == id implies p == rb as int
                        by {}
                    assert(b.index_of(id) == rb as int);
                    vstd::arithmetic::mul::lemma_mul_upper_bound(
                        61 + i as int,
                        0x80000040,
                        61 + rb as int,
                        0x80000040,
                    );
                    vstd::arithmetic::mul::lemma_mul_strictly_positive(
                        61 + i as int,
                        61 + rb as int,
                    );
                }
                let ra64: u64 = 61 + (i as u64);
                let rb64: u64 = 61 + (rb as u64);
                Score { num: ra64 + rb64, den: ra64 * rb64 }
            },
            None => {
                proof {
                    assert(!b.contains(id));
                }
                Score { num: 1, den: 61 + (i as u64) }
            },
        };
        scored.push((id, s));
        i += 1;
    }
    let ghost a_part = scored@;
    let mut j: usize = 0;
    while j < list_b.len()
        invariant
            j <= b.len(),
            a == list_a@,
            b == list_b@,
            a.len() <= 0x8000_0000,
            b.len() <= 0x8000_0000,
            forall|p: int, q: int| 0 <= p < q < a.len() ==> a[p] != a[q],
            forall|p: int, q: int| 0 <= p < q < b.len() ==> b[p] != b[q],
            a_part.len() == a.len(),
            scored@.len() >= a_part.len(),
            scored@.len() == a.len() + count_new(b.take(j as int), a),
            forall|q: int|
                0 <= q < j ==> (a.contains(#[trigger] b[q]) || exists|p: int|
                    0 <= p < scored@.len() && scored@[p].0 == b[q]),
            forall|p: int| 0 <= p < a.len() ==> (#[trigger] scored@[p]).0 == a[p],
            forall|p: int|
                a_part.len() <= p < scored@.len() ==> !a.contains((#[trigger] scored@[p]).0),
            forall|p: int, q: int|
                a_part.len() <= p < q < scored@.len() ==> (#[trigger] scored@[p]).0 != (
                #[trigger] scored@[q]).0,
            forall|p: int|
                a_part.len() <= p < scored@.len() ==> b.contains((#[trigger] scored@[p]).0)
                    && exists|q: int|
                    0 <= q < j && b[q] == scored@[p].0,
            forall|p: int|
                0 <= p < scored@.len() ==> (#[trigger] scored@[p]).1 == rrf_score(
                    a,
                    b,
                    scored@[p].0,
                ) && scored@[p].1.den >= 1,
        decreases b.len() - j,
    {
        let id = list_b[j];
        let ghost prev_scored = scored@;
        proof {
            assert(b.take(j + 1).drop_last() =~= b.take(j as int));
            assert(b.take(j + 1).last() == b[j as int]);
        }
        match find_index(list_a, id) {
            Some(ra) => {
                proof {
                    assert(a[ra as int] == id);
                    assert(a.contains(b[j as int]));
                }
            },
            None => {
                proof {
                    assert(b[j as int] == id);
                    assert(b.contains(id));
                    assert forall|p: int| 0 <= p < b.len() && b[p] == id implies p == j as int
                        by {}
                    assert(b.index_of(id) == j as int);
                }
                scored.push((id, Score { num: 1, den: 61 + (j as u64) }));
            },
        }
        proof {
            assert forall|q: int| 0 <= q < j + 1 implies (a.contains(#[trigger] b[q]) || exists|
                p: int,
            | 0 <= p < scored@.len() && scored@[p].0 == b[q]) by {
                if q < j {
                    if !a.contains(b[q]) {
                        let p = choose|p: int|
                            0 <= p < prev_scored.len() && prev_scored[p].0 == b[q];
                        assert(scored@[p].0 == b[q]);
                    }
                } else {
                    if !a.contains(b[q]) {
                        assert(scored@[scored@.len() - 1].0 == b[j as int]);
                    }
                }
            }
        }
        j += 1;
    }
    proof {
        assert(b.take(b.len() as int) =~= b);
        assert(scored@.len() == fused_count(a, b));
    }
    proof {
        assert forall|p: int, q: int| 0 <= p < q < scored@.len() implies (
        #[trigger] scored@[p]).0 != (#[trigger] scored@[q]).0 by {
            if q < a_part.len() {
                assert(scored@[p].0 == a[p] && scored@[q].0 == a[q]);
            } else if p < a_part.len() {
                assert(scored@[p].0 == a[p]);
                assert(a.contains(scored@[p].0));
            }
        }
        scored@.lemma_multiset_has_no_duplicates();
    }
    let ghost pre_sort = scored@;
    let mut fused = sort_by_score_desc(scored);
    proof {
        fused@.lemma_multiset_has_no_duplicates_conv();
        assert forall|p: int| 0 <= p < fused@.len() implies (list_a@.contains(
            (#[trigger] fused@[p]).0,
        ) || list_b@.contains(fused@[p].0)) && fused@[p].1 == rrf_score(
            list_a@,
            list_b@,
            fused@[p].0,
        ) && fused@[p].1.den >= 1 by {
            assert(fused@.to_multiset().count(fused@[p]) > 0);
            assert(pre_sort.contains(fused@[p]));
            let q = choose|q: int| 0 <= q < pre_sort.len() && pre_sort[q] == fused@[p];
            assert(pre_sort[q].1 == rrf_score(a, b, pre_sort[q].0));
            assert(pre_sort[q].1.den >= 1);
            if q < a_part.len() {
                assert(pre_sort[q].0 == a[q]);
            }
        }
        assert forall|p: int, q: int| 0 <= p < q < fused@.len() implies (
        #[trigger] fused@[p]).0 != (#[trigger] fused@[q]).0 by {
            if fused@[p].0 == fused@[q].0 {
                if fused@[p] == fused@[q] {
                    assert(false);
                } else {
                    assert(fused@.to_multiset().count(fused@[p]) > 0);
                    assert(fused@.to_multiset().count(fused@[q]) > 0);
                    assert(pre_sort.contains(fused@[p]));
                    assert(pre_sort.contains(fused@[q]));
                    let x = choose|x: int| 0 <= x < pre_sort.len() && pre_sort[x] == fused@[p];
                    let y = choose|y: int| 0 <= y < pre_sort.len() && pre_sort[y] == fused@[q];
                    assert(x != y);
                    assert(false);
                }
            }
        }
    }
    let ghost sorted_all = fused@;
    fused.truncate(top_k);
    proof {
        assert(sorted_all.len() == fused_count(a, b));
        if top_k <= sorted_all.len() {
            assert(fused@ == sorted_all.subrange(0, top_k as int));
        } else {
            assert(fused@ == sorted_all);
        }
        if fused_count(a, b) <= top_k as int {
            assert(fused@ == sorted_all);
            assert forall|id: Ulid| #![auto]
                list_a@.contains(id) || list_b@.contains(id) implies exists|i: int|
                0 <= i < fused@.len() && fused@[i].0 == id by {
                let e: (Ulid, Score) = if a.contains(id) {
                    let p = choose|p: int| 0 <= p < a.len() && a[p] == id;
                    pre_sort[p]
                } else {
                    let q = choose|q: int| 0 <= q < b.len() && b[q] == id;
                    let p = choose|p: int| 0 <= p < pre_sort.len() && pre_sort[p].0 == b[q];
                    pre_sort[p]
                };
                assert(e.0 == id);
                assert(pre_sort.contains(e));
                assert(fused@.to_multiset().count(e) > 0);
                assert(fused@.contains(e));
                let i = choose|i: int| 0 <= i < fused@.len() && fused@[i] == e;
                assert(fused@[i].0 == id);
            }
        }
    }
    fused
}

} // verus!
