use model_operator::error::EmbedError;
use model_operator::fixed::FX_SCALE;
use model_operator::rerank::apply_scores;
use model_operator::rerank::build_rerank_requests;
use model_operator::rerank::finish_rerank;
use model_operator::rerank::sort_by_score_desc;
use model_operator::rerank::CrossEncoderData;
use model_operator::rerank::ScorePair;
use model_operator::rerank::ScoredCandidate;

fn candidates(n: usize) -> Vec<ScoredCandidate> {
    (0..n)
        .map(|i| ScoredCandidate { text: format!("doc {}", i), score: 0 })
        .collect()
}

#[test]
fn small_set_gets_one_single_shot_call() {
    let texts: Vec<String> = (0..20).map(|i| format!("d{}", i)).collect();
    let reqs = build_rerank_requests("q", texts);
    assert_eq!(reqs.len(), 1);
    assert_eq!(reqs[0].texts.len(), 20);
    assert_eq!(reqs[0].query, "q");
    assert!(reqs[0].truncate);
}

#[test]
fn twenty_five_candidates_make_exactly_two_calls() {
    // 25 scored candidates with chunk size 20: exactly two concurrent
    // rerank calls of 20 and 5 texts.
    let texts: Vec<String> = (0..25).map(|i| format!("d{}", i)).collect();
    let reqs = build_rerank_requests("q", texts);
    assert_eq!(reqs.len(), 2);
    assert_eq!(reqs[0].texts.len(), 20);
    assert_eq!(reqs[1].texts.len(), 5);
    assert_eq!(reqs[1].texts[0], "d20");
}

#[test]
fn empty_candidate_set_makes_no_calls_and_returns_empty() {
    let reqs = build_rerank_requests("q", Vec::new());
    assert!(reqs.is_empty());
    let out = finish_rerank(Vec::new(), Vec::new(), 10).unwrap();
    assert!(out.is_empty());
}

#[test]
fn rerank_merges_sorts_and_truncates() {
    // Scores are merged per chunk by index, then the whole set is
    // sorted descending and cut to the page size.
    let cands = candidates(25);
    let chunk0: Vec<ScorePair> = (0..20)
        .map(|i| ScorePair { index: i, score: (i as i64) * FX_SCALE })
        .collect();
    let chunk1: Vec<ScorePair> = (0..5)
        .map(|i| ScorePair { index: i, score: ((20 + i) as i64) * FX_SCALE })
        .collect();
    let out = finish_rerank(cands, vec![chunk0, chunk1], 10).unwrap();
    assert_eq!(out.len(), 10);
    for (pos, cand) in out.iter().enumerate() {
        assert_eq!(cand.text, format!("doc {}", 24 - pos));
        assert_eq!(cand.score, ((24 - pos) as i64) * FX_SCALE);
    }
}

#[test]
fn rerank_out_of_range_score_is_shape_mismatch() {
    let cands = candidates(3);
    let bad = vec![ScorePair { index: 7, score: FX_SCALE }];
    let r = finish_rerank(cands, vec![bad], 10);
    assert!(matches!(r, Err(EmbedError::ResponseShapeMismatch)));
}

#[test]
fn apply_scores_overwrites_only_scores() {
    let mut cands = candidates(3);
    let scores = vec![
        ScorePair { index: 2, score: 5 },
        ScorePair { index: 0, score: 9 },
    ];
    apply_scores(&mut cands, 0, &scores).unwrap();
    assert_eq!(cands[0].score, 9);
    assert_eq!(cands[1].score, 0);
    assert_eq!(cands[2].score, 5);
    assert_eq!(cands[0].text, "doc 0");
}

#[test]
fn apply_scores_respects_offset() {
    let mut cands = candidates(4);
    let scores = vec![ScorePair { index: 1, score: 7 }];
    apply_scores(&mut cands, 2, &scores).unwrap();
    assert_eq!(cands[3].score, 7);
}

#[test]
fn sorting_is_descending_and_keeps_entries() {
    let cands = vec![
        ScoredCandidate { text: "a".to_string(), score: 2 },
        ScoredCandidate { text: "b".to_string(), score: 9 },
        ScoredCandidate { text: "c".to_string(), score: 4 },
    ];
    let out = sort_by_score_desc(cands);
    let texts: Vec<&str> = out.iter().map(|c| c.text.as_str()).collect();
    assert_eq!(texts, vec!["b", "c", "a"]);
}

#[test]
fn rerank_request_payload_shape() {
    let req = CrossEncoderData {
        query: "q".to_string(),
        texts: vec!["t".to_string()],
        truncate: true,
    };
    assert_eq!(req.query, "q");
    assert_eq!(req.texts, vec!["t"]);
    assert!(req.truncate);
}
