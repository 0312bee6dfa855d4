use rag_kb::fusion::reciprocal_rank_fusion;
use rag_kb::types::{Score, Ulid};

fn uid(n: u128) -> Ulid {
    Ulid::from_value(n)
}

#[test]
fn test_rrf_single_list() {
    let list_a = vec![uid(1), uid(2), uid(3)];
    let list_b: Vec<Ulid> = Vec::new();

    let fused = reciprocal_rank_fusion(&list_a, &list_b, 10);

    assert_eq!(fused.len(), 3);
    assert_eq!(fused[0].0, uid(1));
    assert_eq!(fused[0].1, Score { num: 1, den: 61 });
    assert_eq!(fused[2].1, Score { num: 1, den: 63 });
}

#[test]
fn test_rrf_multiple_lists() {
    let a = uid(10);
    let b = uid(20);
    let c = uid(30);
    let d = uid(40);
    let list_a = vec![a, b, c];
    let list_b = vec![b, a, d];

    let fused = reciprocal_rank_fusion(&list_a, &list_b, 10);

    assert_eq!(fused.len(), 4);
    // a and b each sit at ranks 0 and 1 across the two lists, so both
    // carry 1/61 + 1/62 = 123/3782 and occupy the top two positions
    assert!(fused[0].0 == a || fused[0].0 == b);
    assert!(fused[1].0 == a || fused[1].0 == b);
    assert_ne!(fused[0].0, fused[1].0);
    assert_eq!(fused[0].1, Score { num: 123, den: 3782 });
    assert_eq!(fused[1].1, Score { num: 123, den: 3782 });
    // c and d follow with 1/63 each
    assert_eq!(fused[2].1, Score { num: 1, den: 63 });
    assert_eq!(fused[3].1, Score { num: 1, den: 63 });
}

#[test]
fn test_rrf_truncation() {
    let list_a = vec![uid(1), uid(2), uid(3), uid(4), uid(5)];
    let list_b: Vec<Ulid> = Vec::new();

    let fused = reciprocal_rank_fusion(&list_a, &list_b, 3);

    assert_eq!(fused.len(), 3);
}

#[test]
fn test_rrf_no_duplicates() {
    let shared = uid(7);
    let list_a = vec![shared, uid(8)];
    let list_b = vec![uid(9), shared];

    let fused = reciprocal_rank_fusion(&list_a, &list_b, 10);

    assert_eq!(fused.len(), 3);
    for i in 0..fused.len() {
        for j in (i + 1)..fused.len() {
            assert_ne!(fused[i].0, fused[j].0);
        }
    }
}

#[test]
fn test_score_ordering_is_exact() {
    // 1/61 + 1/62 against 1/60: 123/3782 < 64/3782-ish — cross-multiplied
    let both = Score { num: 123, den: 3782 };
    let single = Score { num: 1, den: 30 };
    assert!(both.lt(&single));
    assert!(!single.lt(&both));
}

#[test]
fn test_rrf_returns_all_ids_when_they_fit() {
    let a = vec![uid(1), uid(2), uid(3)];
    let b = vec![uid(2), uid(1), uid(4)];
    let fused = reciprocal_rank_fusion(&a, &b, 10);
    assert_eq!(fused.len(), 4);
    for id in [uid(1), uid(2), uid(3), uid(4)] {
        assert!(fused.iter().any(|e| e.0 == id));
    }
}
