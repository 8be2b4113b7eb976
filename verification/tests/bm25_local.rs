use std::io::Cursor;

use model_operator::bm25::bm25_term_weight;
use model_operator::bm25::get_bm25_embeddings;
use model_operator::bm25::token_id;
use model_operator::bm25::tokenize_batch;
use model_operator::bm25::BoostPhrase;
use model_operator::fixed::FX_SCALE;

/// The id the library must assign to a stemmed token: the 32-bit
/// murmur3 hash with seed 0, read as a signed value, made absolute.
fn expected_id(token: &str) -> u32 {
    let h = murmur3::murmur3_32(&mut Cursor::new(token), 0).unwrap();
    (h as i32).unsigned_abs()
}

fn fx(x: i64) -> i64 {
    x * FX_SCALE
}

#[test]
fn token_id_matches_murmur3() {
    assert_eq!(token_id("cat"), expected_id("cat"));
    assert_eq!(token_id("hello"), expected_id("hello"));
}

#[test]
fn tokenizer_lowercases_and_stems() {
    // "Cats" and "cat" must collapse to the same stemmed token.
    let chunks = vec![("Cats cat".to_string(), None::<BoostPhrase>)];
    let tokenized = tokenize_batch(chunks);
    assert_eq!(tokenized.len(), 1);
    assert_eq!(tokenized[0].0, vec!["cat".to_string(), "cat".to_string()]);
}

#[test]
fn tokenizer_drops_long_tokens() {
    let long = "a".repeat(41);
    let tokenized = tokenize_batch(vec![(long, None)]);
    assert!(tokenized[0].0.is_empty());
}

#[test]
fn weight_formula_exact_value() {
    // f=1, L=1, avg=1.0, b=0: weight = (k+1)/(1+k) = 1.0
    assert_eq!(bm25_term_weight(1, 1, fx(1), 0, 12_000), FX_SCALE);
    // f=2, L=2, avg=2.0, b=0.75, k=1.2:
    //   len_norm = 1 - 0.75 + 0.75*2/2 = 1.0
    //   weight = 2*2.2 / (2 + 1.2) = 1.375
    assert_eq!(bm25_term_weight(2, 2, fx(2), 7_500, 12_000), 13_750);
}

#[test]
fn weight_is_monotone_in_frequency() {
    let mut last = 0i64;
    for f in 1..=10usize {
        let w = bm25_term_weight(f, 10, fx(5), 7_500, 12_000);
        assert!(w >= last);
        last = w;
    }
}

#[test]
fn repeated_token_gets_one_entry_with_saturating_weight() {
    let chunks = vec![("Cats cat".to_string(), None)];
    let out = get_bm25_embeddings(chunks, fx(2), 7_500, 12_000);
    assert_eq!(out.len(), 1);
    assert_eq!(out[0], vec![(expected_id("cat"), 13_750)]);
}

#[test]
fn boost_phrase_multiplies_matching_ids_only() {
    let boost = BoostPhrase { phrase: "cat".to_string(), boost_factor: fx(2) };
    let chunks = vec![("cat dog".to_string(), Some(boost))];
    let mut out = get_bm25_embeddings(chunks, fx(2), 7_500, 12_000);
    assert_eq!(out.len(), 1);
    // f=1, L=2, avg=2.0, b=0.75, k=1.2:
    //   len_norm = 1.0; weight = 2.2 / (1 + 1.2) = 1.0
    out[0].sort();
    let mut expect = vec![(expected_id("cat"), fx(2)), (expected_id("dog"), fx(1))];
    expect.sort();
    assert_eq!(out[0], expect);
}

#[test]
fn boost_token_absent_from_document_is_dropped() {
    let boost = BoostPhrase { phrase: "bird".to_string(), boost_factor: fx(9) };
    let chunks = vec![("cat dog".to_string(), Some(boost))];
    let mut out = get_bm25_embeddings(chunks, fx(2), 7_500, 12_000);
    out[0].sort();
    let mut expect = vec![(expected_id("cat"), fx(1)), (expected_id("dog"), fx(1))];
    expect.sort();
    assert_eq!(out[0], expect);
}

#[test]
fn batch_scores_each_document_independently() {
    let chunks = vec![
        ("cat".to_string(), None),
        ("".to_string(), None),
        ("dog dog".to_string(), None),
    ];
    let out = get_bm25_embeddings(chunks, fx(1), 0, 12_000);
    assert_eq!(out.len(), 3);
    assert_eq!(out[0], vec![(expected_id("cat"), FX_SCALE)]);
    assert!(out[1].is_empty());
    // f=2, b=0: weight = 2*2.2/(2+1.2) = 1.375
    assert_eq!(out[2], vec![(expected_id("dog"), 13_750)]);
}

#[test]
fn same_token_maps_to_same_id_across_calls() {
    let a = get_bm25_embeddings(vec![("cat".to_string(), None)], fx(1), 0, 12_000);
    let b = get_bm25_embeddings(vec![("The cat!".to_string(), None)], fx(2), 0, 12_000);
    let id_a = a[0][0].0;
    assert!(b[0].iter().any(|(id, _)| *id == id_a));
}
