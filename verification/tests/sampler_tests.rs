use kalosm::error::GenerationError;
use kalosm::sampler::{sample_constrained, sample_greedy, top_k, ScoredToken, TOP_K};

fn cands(pairs: &[(u32, i64)]) -> Vec<ScoredToken> {
    pairs
        .iter()
        .map(|&(token, score)| ScoredToken { token, score })
        .collect()
}

#[test]
fn top_k_keeps_the_best_scores_in_order() {
    let c = cands(&[(10, 5), (11, -3), (12, 40), (13, 7), (14, 0)]);
    let kept = top_k(&c, 3);
    let scores: Vec<i64> = kept.iter().map(|s| s.score).collect();
    assert_eq!(scores, vec![40, 7, 5]);
    let tokens: Vec<u32> = kept.iter().map(|s| s.token).collect();
    assert_eq!(tokens, vec![12, 13, 10]);
}

#[test]
fn top_k_with_large_k_keeps_everything_sorted() {
    let c = cands(&[(1, 2), (2, 9), (3, 5)]);
    let kept = top_k(&c, TOP_K);
    let scores: Vec<i64> = kept.iter().map(|s| s.score).collect();
    assert_eq!(scores, vec![9, 5, 2]);
}

#[test]
fn greedy_takes_the_first_maximum() {
    let c = cands(&[(5, 1), (6, 9), (7, 9), (8, 3)]);
    assert_eq!(sample_greedy(&c), Some(6));
    assert_eq!(sample_greedy(&cands(&[])), None);
}

#[test]
fn constrained_sampling_respects_the_oracle() {
    let c = cands(&[(5, 10), (6, 9), (7, 8)]);
    let allowed = vec![6, 7];
    assert_eq!(sample_constrained(&c, &allowed), Ok(6));
}

#[test]
fn constrained_sampling_without_candidates_fails_hard() {
    let c = cands(&[(5, 10), (6, 9)]);
    let allowed = vec![99];
    assert_eq!(
        sample_constrained(&c, &allowed),
        Err(GenerationError::NoValidTokens)
    );
}
