use model_operator::batch::collect_group_results;
use model_operator::batch::finish_dispatch;
use model_operator::batch::flatten_windows;
use model_operator::batch::reassemble_in_tag_order;
use model_operator::batch::split_into_groups;
use model_operator::batch::EMBED_GROUP_SIZE;
use model_operator::batch::RERANK_GROUP_SIZE;
use model_operator::batch::STREAM_MAX_IN_FLIGHT;
use model_operator::batch::STREAM_WINDOW_ITEMS;
use model_operator::error::EmbedError;

#[test]
fn split_sizes_and_order() {
    let items: Vec<i64> = (0..45).collect();
    let groups = split_into_groups(items, EMBED_GROUP_SIZE);
    assert_eq!(groups.len(), 2);
    assert_eq!(groups[0].len(), 30);
    assert_eq!(groups[1].len(), 15);
    let flat: Vec<i64> = groups.into_iter().flatten().collect();
    let expect: Vec<i64> = (0..45).collect();
    assert_eq!(flat, expect);
}

#[test]
fn split_empty_input_makes_no_groups() {
    let items: Vec<i64> = Vec::new();
    let groups = split_into_groups(items, EMBED_GROUP_SIZE);
    assert!(groups.is_empty());
}

#[test]
fn reassemble_out_of_order_tags() {
    // Groups complete in an arbitrary order; tags restore input order.
    let tagged: Vec<(usize, Vec<i64>)> =
        vec![(2, vec![40, 41]), (0, vec![0, 1, 2]), (1, vec![10])];
    let out = reassemble_in_tag_order(tagged).unwrap();
    assert_eq!(out, vec![0, 1, 2, 10, 40, 41]);
}

#[test]
fn reassemble_missing_tag_fails() {
    let tagged: Vec<(usize, Vec<i64>)> = vec![(0, vec![1]), (2, vec![3])];
    assert_eq!(reassemble_in_tag_order(tagged), Err(EmbedError::InvalidInput));
}

#[test]
fn batched_dispatch_equals_sequential() {
    // Embedding 45 items in groups of 30 must match embedding them one
    // by one with the same deterministic backend.
    let items: Vec<i64> = (0..45).collect();
    let f = |x: i64| -> Vec<i64> { vec![2 * x + 1] };
    let sequential: Vec<Vec<i64>> = items.iter().map(|x| f(*x)).collect();

    let groups = split_into_groups(items, 30);
    let mut tagged: Vec<Result<(usize, Vec<Vec<i64>>), EmbedError>> = groups
        .into_iter()
        .enumerate()
        .map(|(t, g)| Ok((t, g.into_iter().map(f).collect::<Vec<Vec<i64>>>())))
        .collect();
    // The second group finishes first.
    tagged.reverse();
    let out = finish_dispatch(tagged).unwrap();
    assert_eq!(out, sequential);
}

#[test]
fn one_failed_group_fails_the_whole_dispatch() {
    // Three concurrent groups; the middle one fails: the caller sees one
    // failure and no partial results.
    let results: Vec<Result<(usize, Vec<i64>), EmbedError>> = vec![
        Ok((0, vec![1, 2])),
        Err(EmbedError::TransportFailure),
        Ok((2, vec![5, 6])),
    ];
    assert_eq!(finish_dispatch(results), Err(EmbedError::TransportFailure));
}

#[test]
fn collect_keeps_first_error() {
    let results: Vec<Result<(usize, Vec<i64>), EmbedError>> = vec![
        Ok((0, vec![1])),
        Err(EmbedError::ResponseShapeMismatch),
        Err(EmbedError::TransportFailure),
    ];
    assert_eq!(
        collect_group_results(results),
        Err(EmbedError::ResponseShapeMismatch)
    );
}

#[test]
fn collect_all_ok() {
    let results: Vec<Result<(usize, Vec<i64>), EmbedError>> =
        vec![Ok((1, vec![3])), Ok((0, vec![4]))];
    let out = collect_group_results(results).unwrap();
    assert_eq!(out, vec![(1, vec![3]), (0, vec![4])]);
}

#[test]
fn reassemble_rejects_duplicated_tags() {
    // A duplicate necessarily displaces some expected tag.
    let tagged: Vec<(usize, Vec<i64>)> = vec![(1, vec![9]), (0, vec![1]), (1, vec![8])];
    assert_eq!(reassemble_in_tag_order(tagged), Err(EmbedError::InvalidInput));
}

#[test]
fn windows_flatten_in_order() {
    let windows: Vec<Vec<i64>> = vec![vec![1, 2, 3], vec![4], vec![], vec![5, 6]];
    assert_eq!(flatten_windows(windows), vec![1, 2, 3, 4, 5, 6]);
}

#[test]
fn streaming_constants() {
    assert_eq!(RERANK_GROUP_SIZE, 20);
    assert_eq!(EMBED_GROUP_SIZE, 30);
    assert_eq!(STREAM_MAX_IN_FLIGHT, 5);
    assert_eq!(STREAM_WINDOW_ITEMS, 3);
    assert_eq!(model_operator::batch::STREAM_WINDOW_SECS, 10);
}
