use model_operator::blend::blend_dense;
use model_operator::blend::blend_sparse;
use model_operator::clip::clip_chars;
use model_operator::dense::blend_dense_group;
use model_operator::dense::finish_single_dense;
use model_operator::dense::prepare_dense_batches;
use model_operator::dense::prepare_single_dense;
use model_operator::dense::DistancePhrase;
use model_operator::dense::EmbedKind;
use model_operator::dense::EmbeddingInput;
use model_operator::error::EmbedError;
use model_operator::fixed::fx_scale;
use model_operator::fixed::FX_MAX;
use model_operator::fixed::FX_SCALE;
use model_operator::sparse::apply_sparse_boosts;
use model_operator::sparse::finish_sparse_single;
use model_operator::sparse::prepare_sparse_batches;
use model_operator::sparse::prepare_sparse_single;
use model_operator::sparse::SpladeIndicies;

/// One fixed-point unit per 1.0.
fn fx(x: i64) -> i64 {
    x * FX_SCALE
}

#[test]
fn dense_blend_concrete() {
    // base [1,2,3], boost [0,1,0], factor 2.0 -> [1,4,3]
    let base = vec![fx(1), fx(2), fx(3)];
    let boost = vec![fx(0), fx(1), fx(0)];
    let out = blend_dense(&base, &boost, fx(2)).unwrap();
    assert_eq!(out, vec![fx(1), fx(4), fx(3)]);
}

#[test]
fn dense_blend_length_mismatch_is_hard_error() {
    let base = vec![fx(1), fx(2)];
    let boost = vec![fx(1)];
    assert_eq!(blend_dense(&base, &boost, fx(1)), Err(EmbedError::InvalidInput));
}

#[test]
fn sparse_blend_concrete() {
    // base {(1,0.5),(2,0.2)}, boost {(1,4.0)}: the factor applies only
    // to id 1 -> {(1,2.0),(2,0.2)}
    let base = vec![(1u32, FX_SCALE / 2), (2u32, FX_SCALE / 5)];
    let boost = vec![(1u32, fx(4))];
    let out = blend_sparse(&base, &boost, fx(4));
    assert_eq!(out, vec![(1u32, fx(2)), (2u32, FX_SCALE / 5)]);
}

#[test]
fn sparse_blend_ignores_boost_only_ids() {
    let base = vec![(7u32, fx(1))];
    let boost = vec![(8u32, fx(1))];
    let out = blend_sparse(&base, &boost, fx(3));
    assert_eq!(out, vec![(7u32, fx(1))]);
}

#[test]
fn fx_scale_rounds_toward_zero_and_saturates() {
    assert_eq!(fx_scale(fx(2), fx(3)), fx(6));
    assert_eq!(fx_scale(fx(-2), fx(3)), fx(-6));
    assert_eq!(fx_scale(FX_MAX, FX_MAX), FX_MAX);
    assert_eq!(fx_scale(-FX_MAX, FX_MAX), -FX_MAX);
    assert_eq!(fx_scale(1, 1), 0);
}

#[test]
fn clip_below_threshold_is_identity() {
    let s = "a".repeat(5000);
    assert_eq!(clip_chars(&s, 7000, 20000), s);
}

#[test]
fn clip_between_threshold_and_ceiling_keeps_all() {
    let s = "b".repeat(8000);
    assert_eq!(clip_chars(&s, 7000, 20000), s);
}

#[test]
fn clip_above_ceiling_cuts_to_ceiling() {
    let s = "c".repeat(25000);
    let out = clip_chars(&s, 7000, 20000);
    assert_eq!(out.chars().count(), 20000);
    assert_eq!(out, "c".repeat(20000));
}

#[test]
fn single_dense_doc_request_appends_boost() {
    let boost = Some(DistancePhrase { phrase: "boost words".to_string(), distance_factor: fx(2) });
    let params = prepare_single_dense("hello", &boost, EmbedKind::Doc, "query: ", "test-model");
    assert!(params.truncate);
    assert_eq!(params.model, "test-model");
    match params.input {
        EmbeddingInput::Batch(v) => assert_eq!(v, vec!["hello".to_string(), "boost words".to_string()]),
        EmbeddingInput::Single(_) => panic!("doc mode must send an array"),
    }
}

#[test]
fn single_dense_query_request_is_prefixed() {
    let params = prepare_single_dense("hello", &None, EmbedKind::Query, "query: ", "m");
    match params.input {
        EmbeddingInput::Single(s) => assert_eq!(s, "query: hello"),
        EmbeddingInput::Batch(_) => panic!("query mode must send one string"),
    }
}

#[test]
fn finish_single_dense_blends_boost() {
    let vectors = vec![vec![fx(1), fx(2)], vec![fx(1), fx(0)]];
    let out = finish_single_dense(vectors, Some(fx(3))).unwrap();
    assert_eq!(out, vec![fx(4), fx(2)]);
}

#[test]
fn finish_single_dense_without_boost_returns_first() {
    let vectors = vec![vec![fx(5), fx(6)]];
    let out = finish_single_dense(vectors, None).unwrap();
    assert_eq!(out, vec![fx(5), fx(6)]);
}

#[test]
fn finish_single_dense_empty_response_is_empty_result() {
    assert_eq!(finish_single_dense(Vec::new(), None), Err(EmbedError::EmptyResult));
}

#[test]
fn finish_single_dense_empty_vector_is_shape_mismatch() {
    let vectors = vec![vec![fx(1)], vec![]];
    assert_eq!(
        finish_single_dense(vectors, Some(fx(1))),
        Err(EmbedError::ResponseShapeMismatch)
    );
}

#[test]
fn dense_batch_plans_split_and_tag_boosts() {
    let mut items: Vec<(String, Option<DistancePhrase>)> = Vec::new();
    for i in 0..45 {
        let boost = if i == 3 {
            Some(DistancePhrase { phrase: "extra".to_string(), distance_factor: fx(2) })
        } else {
            None
        };
        items.push((format!("text {}", i), boost));
    }
    let plans = prepare_dense_batches(items, EmbedKind::Doc, "", "m");
    assert_eq!(plans.len(), 2);
    assert_eq!(plans[0].content_count, 30);
    assert_eq!(plans[1].content_count, 15);
    assert_eq!(plans[0].boosts, vec![(3usize, fx(2))]);
    assert!(plans[1].boosts.is_empty());
    match &plans[0].request.input {
        EmbeddingInput::Batch(v) => {
            assert_eq!(v.len(), 31);
            assert_eq!(v[3], "text 3");
            assert_eq!(v[30], "extra");
        }
        EmbeddingInput::Single(_) => panic!("doc mode must send an array"),
    }
}

#[test]
fn blend_dense_group_blends_at_original_positions() {
    let vectors = vec![
        vec![fx(1), fx(1)],
        vec![fx(2), fx(2)],
        vec![fx(3), fx(3)],
        vec![fx(1), fx(0)],
    ];
    let boosts = vec![(1usize, fx(2))];
    let out = blend_dense_group(vectors, 3, &boosts).unwrap();
    assert_eq!(out.len(), 3);
    assert_eq!(out[0], vec![fx(1), fx(1)]);
    assert_eq!(out[1], vec![fx(4), fx(2)]);
    assert_eq!(out[2], vec![fx(3), fx(3)]);
}

#[test]
fn blend_dense_group_wrong_count_is_shape_mismatch() {
    let vectors = vec![vec![fx(1)]];
    let boosts = vec![(0usize, fx(2))];
    assert_eq!(
        blend_dense_group(vectors, 1, &boosts),
        Err(EmbedError::ResponseShapeMismatch)
    );
}

#[test]
fn sparse_single_request_clips_and_flags() {
    let req = prepare_sparse_single("words", EmbedKind::Query);
    assert_eq!(req.inputs, vec!["words".to_string()]);
    assert_eq!(req.encode_type, "query");
    assert!(req.truncate);
}

#[test]
fn finish_sparse_single_takes_first_vector() {
    let vectors = vec![vec![SpladeIndicies::new(4, fx(1)), SpladeIndicies::new(9, fx(2))]];
    let out = finish_sparse_single(vectors).unwrap();
    assert_eq!(out, vec![(4u32, fx(1)), (9u32, fx(2))]);
}

#[test]
fn finish_sparse_single_empty_is_empty_result() {
    assert_eq!(finish_sparse_single(Vec::new()), Err(EmbedError::EmptyResult));
}

#[test]
fn sparse_batches_reject_empty_input() {
    let r = prepare_sparse_batches(Vec::new(), EmbedKind::Doc);
    assert!(matches!(r, Err(EmbedError::InvalidInput)));
}

#[test]
fn sparse_batches_group_contents_and_boosts() {
    let mut messages: Vec<(String, Option<model_operator::bm25::BoostPhrase>)> = Vec::new();
    for i in 0..35 {
        let boost = if i % 10 == 0 {
            Some(model_operator::bm25::BoostPhrase {
                phrase: format!("phrase {}", i),
                boost_factor: fx(2),
            })
        } else {
            None
        };
        messages.push((format!("m{}", i), boost));
    }
    let plan = prepare_sparse_batches(messages, EmbedKind::Doc).unwrap();
    assert_eq!(plan.content_requests.len(), 2);
    assert_eq!(plan.content_requests[0].inputs.len(), 30);
    assert_eq!(plan.content_requests[1].inputs.len(), 5);
    assert_eq!(plan.content_requests[0].encode_type, "doc");
    assert_eq!(plan.boost_groups.len(), 1);
    let (req, tags) = &plan.boost_groups[0];
    assert_eq!(req.inputs, vec!["phrase 0", "phrase 10", "phrase 20", "phrase 30"]);
    assert_eq!(tags, &vec![(0usize, fx(2)), (10, fx(2)), (20, fx(2)), (30, fx(2))]);
}

#[test]
fn sparse_boosts_apply_at_original_positions() {
    let mut contents = vec![
        vec![(1u32, FX_SCALE / 2), (2u32, FX_SCALE / 5)],
        vec![(3u32, fx(1))],
    ];
    let boosts = vec![(0usize, fx(4), vec![(1u32, fx(9))])];
    apply_sparse_boosts(&mut contents, &boosts).unwrap();
    assert_eq!(contents[0], vec![(1u32, fx(2)), (2u32, FX_SCALE / 5)]);
    assert_eq!(contents[1], vec![(3u32, fx(1))]);
}

#[test]
fn sparse_boost_out_of_range_leaves_contents() {
    let mut contents = vec![vec![(1u32, fx(1))]];
    let boosts = vec![(5usize, fx(2), vec![(1u32, fx(1))])];
    assert_eq!(apply_sparse_boosts(&mut contents, &boosts), Err(EmbedError::InvalidInput));
    assert_eq!(contents, vec![vec![(1u32, fx(1))]]);
}

#[test]
fn clip_counts_characters_not_bytes() {
    // Multi-byte characters: 10 characters, 20 bytes.
    let s = "é".repeat(10);
    assert_eq!(clip_chars(&s, 4, 6), "é".repeat(6));
    assert_eq!(clip_chars(&s, 20, 30), s);
}

#[test]
fn dense_batch_query_mode_prefixes_first_content() {
    let items = vec![("find me".to_string(), None)];
    let plans = prepare_dense_batches(items, EmbedKind::Query, "query: ", "m");
    assert_eq!(plans.len(), 1);
    match &plans[0].request.input {
        EmbeddingInput::Single(s) => assert_eq!(s, "query: find me"),
        EmbeddingInput::Batch(_) => panic!("query mode must send one string"),
    }
}

#[test]
fn dense_stream_frames_keep_order_and_flags() {
    let frames = model_operator::dense::stream_embed_frames(vec![
        "one".to_string(),
        "two".to_string(),
    ]);
    assert_eq!(frames.len(), 2);
    assert_eq!(frames[0].inputs, "one");
    assert_eq!(frames[1].inputs, "two");
    assert!(!frames[0].truncate);
    assert!(frames[0].normalize);
    assert_eq!(frames[0].truncation_direction, 0);
}

#[test]
fn sparse_stream_frames_clip_inputs() {
    let long = "x".repeat(130_000);
    let frames = model_operator::sparse::stream_sparse_frames(vec![long]);
    assert_eq!(frames.len(), 1);
    assert_eq!(frames[0].inputs.chars().count(), 128_000);
    assert!(frames[0].truncate);
    assert_eq!(frames[0].truncation_direction, 1);
}

#[test]
fn error_descriptions_are_not_empty() {
    let all = [
        EmbedError::ConfigurationMissing,
        EmbedError::InvalidInput,
        EmbedError::TransportFailure,
        EmbedError::ResponseShapeMismatch,
        EmbedError::EmptyResult,
    ];
    for e in all {
        assert!(!e.describe().is_empty());
    }
}
