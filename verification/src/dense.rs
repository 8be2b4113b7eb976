//! Dense embedding service.
//!
//! Builds the request payloads for single and batched dense embedding
//! calls — clipping inputs, appending boost phrases as extra inputs,
//! prefixing query-mode texts — and turns the returned vectors into the
//! final blended embeddings.  The remote exchange itself is driven by a
//! host through the request values built here.

use vstd::prelude::*;

use crate::batch::spec_split;
use crate::batch::split_into_groups;
use crate::batch::EMBED_GROUP_SIZE;
use crate::blend::blend_dense;
use crate::blend::spec_blend_dense;
use crate::clip::clip_chars;
use crate::clip::spec_clipped;
use crate::clip::DENSE_BATCH_CLIP_CEILING;
use crate::clip::DENSE_BATCH_CLIP_THRESHOLD;
use crate::clip::DENSE_SINGLE_CLIP_CEILING;
use crate::clip::DENSE_SINGLE_CLIP_THRESHOLD;
use crate::error::EmbedError;
use crate::fixed::fx_in_range;

verus! {

/// A boost phrase blended additively into a dense embedding:
/// `combined[i] = base[i] + distance_factor * boost[i]`.
#[derive(Clone, Debug)]
pub struct DistancePhrase {
    /// The text embedded alongside the base text.
    pub phrase: String,
    /// Fixed-point blend factor.
    pub distance_factor: i64,
}

/// The input of a dense embedding request: one text, or an array of
/// texts embedded in one call.
#[derive(Clone, Debug)]
pub enum EmbeddingInput {
    /// A single input text.
    Single(String),
    /// An array of input texts, one embedding per entry.
    Batch(Vec<String>),
}

/// The payload of one dense embedding request.
#[derive(Clone, Debug)]
pub struct EmbeddingParameters {
    /// Input text or texts to embed.
    pub input: EmbeddingInput,
    /// Identifier of the model to use.
    pub model: String,
    /// Ask the remote side to truncate over-long inputs.
    pub truncate: bool,
}

/// Whether a text is embedded as a stored document or as a query.
/// Query mode prefixes the text with the configured query prefix before
/// embedding; document mode does not.
#[derive(Clone, Copy, Debug, PartialEq, Eq, Structural)]
pub enum EmbedKind {
    /// Document mode.
    Doc,
    /// Query mode.
    Query,
}

/// Build the request for embedding a single text, with its optional
/// boost phrase appended as a second input.  In query mode the clipped
/// text is prefixed with `query_prefix` and the boost phrase is not
/// sent.
pub fn prepare_single_dense(
    message: &str,
    boost: &Option<DistancePhrase>,
    kind: EmbedKind,
    query_prefix: &str,
    model: &str,
) -> (r: EmbeddingParameters)
    ensures
        r.truncate,
        r.model@ == model@,
        ({
            let clipped = spec_clipped(
                message@,
                DENSE_SINGLE_CLIP_THRESHOLD as int,
                DENSE_SINGLE_CLIP_CEILING as int,
            );
            match kind {
                EmbedKind::Query => r.input matches EmbeddingInput::Single(s) && s@
                    == query_prefix@ + clipped,
                EmbedKind::Doc => r.input matches EmbeddingInput::Batch(v) && (match boost {
                    Some(bp) => v@.len() == 2 && v@[0]@ == clipped && v@[1]@ == spec_clipped(
                        bp.phrase@,
                        DENSE_SINGLE_CLIP_THRESHOLD as int,
                        DENSE_SINGLE_CLIP_CEILING as int,
                    ),
                    None => v@.len() == 1 && v@[0]@ == clipped,
                }),
            }
        }),
{
    let clipped = clip_chars(message, DENSE_SINGLE_CLIP_THRESHOLD, DENSE_SINGLE_CLIP_CEILING);
    let input = match kind {
        EmbedKind::Query => {
            let mut s = String::from_str(query_prefix);
            s.append(clipped.as_str());
            EmbeddingInput::Single(s)
        },
        EmbedKind::Doc => {
            let mut v: Vec<String> = Vec::new();
            v.push(clipped);
            match boost {
                Some(bp) => {
                    let cb = clip_chars(
                        bp.phrase.as_str(),
                        DENSE_SINGLE_CLIP_THRESHOLD,
                        DENSE_SINGLE_CLIP_CEILING,
                    );
                    v.push(cb);
                },
                None => {},
            }
            EmbeddingInput::Batch(v)
        },
    };
    EmbeddingParameters { input, model: String::from_str(model), truncate: true }
}

/// Turn the vectors returned for a single-text request into the final
/// embedding: with a boost factor, the second vector is blended into the
/// first; otherwise the first vector is returned.  An empty vector
/// anywhere, a missing vector, or mismatched lengths are hard failures.
pub fn finish_single_dense(vectors: Vec<Vec<i64>>, factor: Option<i64>) -> (r: Result<
    Vec<i64>,
    EmbedError,
>)
    requires
        factor matches Some(f) ==> fx_in_range(f as int),
        forall|i: int, j: int|
            0 <= i < vectors@.len() && 0 <= j < vectors@[i]@.len() ==> fx_in_range(
                (#[trigger] vectors@[i]@[j]) as int,
            ),
    ensures
        match r {
            Ok(out) => {
                &&& forall|i: int| 0 <= i < vectors@.len() ==> (#[trigger] vectors@[i])@.len() > 0
                &&& match factor {
                    None => vectors@.len() >= 1 && out@ == vectors@[0]@,
                    Some(f) => vectors@.len() == 2 && vectors@[0]@.len() == vectors@[1]@.len()
                        && out@.map_values(|x: i64| x as int) == spec_blend_dense(
                        vectors@[0]@,
                        vectors@[1]@,
                        f,
                    ),
                }
            },
            Err(e) => {
                ||| ((exists|i: int| 0 <= i < vectors@.len() && (#[trigger] vectors@[i])@.len()
                    == 0) && e == EmbedError::ResponseShapeMismatch)
                ||| ((forall|i: int|
                    0 <= i < vectors@.len() ==> (#[trigger] vectors@[i])@.len() > 0) && match factor {
                    None => vectors@.len() == 0 && e == EmbedError::EmptyResult,
                    Some(_) => (vectors@.len() != 2 && e == EmbedError::ResponseShapeMismatch) || (
                    vectors@.len() == 2 && vectors@[0]@.len() != vectors@[1]@.len() && e
                        == EmbedError::InvalidInput),
                })
            },
        },
{
    let mut i: usize = 0;
    while i < vectors.len()
        invariant
            i <= vectors@.len(),
            forall|j: int| 0 <= j < i ==> (#[trigger] vectors@[j])@.len() > 0,
        decreases vectors@.len() - i,
    {
        if vectors[i].len() == 0 {
            return Err(EmbedError::ResponseShapeMismatch);
        }
        i = i + 1;
    }
    match factor {
        Some(f) => {
            if vectors.len() != 2 {
                return Err(EmbedError::ResponseShapeMismatch);
            }
            let mut vectors = vectors;
            let boost_vector = match vectors.pop() {
                Some(v) => v,
                None => {
                    return Err(EmbedError::ResponseShapeMismatch);
                },
            };
            let base_vector = match vectors.pop() {
                Some(v) => v,
                None => {
                    return Err(EmbedError::ResponseShapeMismatch);
                },
            };
            blend_dense(&base_vector, &boost_vector, f)
        },
        None => {
            if vectors.len() == 0 {
                return Err(EmbedError::EmptyResult);
            }
            let mut vectors = vectors;
            let first = vectors.remove(0);
            Ok(first)
        },
    }
}

/// Positions and factors of the boost phrases inside one group, in
/// ascending position order.
pub open spec fn spec_boosts(g: Seq<(String, Option<DistancePhrase>)>) -> Seq<(usize, i64)>
    decreases g.len(),
{
    if g.len() == 0 {
        Seq::empty()
    } else {
        spec_boosts(g.drop_last()) + (match g.last().1 {
            Some(dp) => seq![(((g.len() - 1) as usize), dp.distance_factor)],
            None => Seq::empty(),
        })
    }
}

/// Every boost position points before `len`, in strictly ascending
/// order.
pub proof fn lemma_spec_boosts_sound(g: Seq<(String, Option<DistancePhrase>)>)
    requires
        g.len() <= usize::MAX,
    ensures
        forall|j: int|
            0 <= j < spec_boosts(g).len() ==> (#[trigger] spec_boosts(g)[j]).0 < g.len(),
        forall|j1: int, j2: int|
            0 <= j1 < j2 < spec_boosts(g).len() ==> (#[trigger] spec_boosts(g)[j1]).0 < (
            #[trigger] spec_boosts(g)[j2]).0,
    decreases g.len(),
{
    if g.len() > 0 {
        lemma_spec_boosts_sound(g.drop_last());
        let s = spec_boosts(g);
        let sp = spec_boosts(g.drop_last());
        match g.last().1 {
            Some(dp) => {
                assert(s.len() == sp.len() + 1);
                assert(forall|j: int| 0 <= j < sp.len() ==> #[trigger] s[j] == sp[j]);
                assert(s[s.len() - 1] == ((g.len() - 1) as usize, dp.distance_factor));
            },
            None => {
                assert(s =~= sp);
            },
        }
    }
}

/// The plan of one batched dense embedding call: the request to send,
/// how many of its inputs are contents, and which group positions get
/// which boost factor blended in afterwards.
#[derive(Clone, Debug)]
pub struct DenseGroupPlan {
    /// The request for this group: the clipped contents followed by the
    /// clipped boost phrases.
    pub request: EmbeddingParameters,
    /// How many of the request's inputs are contents; the rest are
    /// boost phrases.
    pub content_count: usize,
    /// For each boost phrase, in order: the group position it belongs
    /// to and its blend factor.
    pub boosts: Vec<(usize, i64)>,
}

/// What the plan of one group promises: the request holds the group's
/// clipped contents followed by its clipped boost phrases (in query
/// mode, the single prefixed first content), and the boost bookkeeping
/// names each boosted position with its factor.
pub open spec fn dense_plan_matches(
    r: DenseGroupPlan,
    group: Seq<(String, Option<DistancePhrase>)>,
    kind: EmbedKind,
    query_prefix: Seq<char>,
    model: Seq<char>,
) -> bool {
    &&& r.content_count == group.len()
    &&& r.boosts@ == spec_boosts(group)
    &&& r.request.truncate
    &&& r.request.model@ == model
    &&& match kind {
        EmbedKind::Query => r.request.input matches EmbeddingInput::Single(s) && s@ == query_prefix
            + spec_clipped(
            group[0].0@,
            DENSE_BATCH_CLIP_THRESHOLD as int,
            DENSE_BATCH_CLIP_CEILING as int,
        ),
        EmbedKind::Doc => r.request.input matches EmbeddingInput::Batch(v) && {
            &&& v@.len() == group.len() + spec_boosts(group).len()
            &&& forall|i: int|
                0 <= i < group.len() ==> (#[trigger] v@[i])@ == spec_clipped(
                    group[i].0@,
                    DENSE_BATCH_CLIP_THRESHOLD as int,
                    DENSE_BATCH_CLIP_CEILING as int,
                )
            &&& forall|j: int|
                0 <= j < spec_boosts(group).len() ==> (#[trigger] v@[group.len() + j])@
                    == spec_clipped(
                    group[spec_boosts(group)[j].0 as int].1->Some_0.phrase@,
                    DENSE_BATCH_CLIP_THRESHOLD as int,
                    DENSE_BATCH_CLIP_CEILING as int,
                )
        },
    }
}

/// Build the request for one group of a batched dense call: the clipped
/// contents, then the clipped boost phrases; in query mode a single
/// input, the prefixed first content.
pub fn prepare_dense_group(
    group: &Vec<(String, Option<DistancePhrase>)>,
    kind: EmbedKind,
    query_prefix: &str,
    model: &str,
) -> (r: DenseGroupPlan)
    requires
        group@.len() > 0,
    ensures
        dense_plan_matches(r, group@, kind, query_prefix@, model@),
{
    let n = group.len();
    let mut boosts: Vec<(usize, i64)> = Vec::new();
    let mut clipped_contents: Vec<String> = Vec::new();
    let mut clipped_boosts: Vec<String> = Vec::new();
    let mut i: usize = 0;
    while i < n
        invariant
            i <= n,
            n == group@.len(),
            boosts@ == spec_boosts(group@.take(i as int)),
            clipped_contents@.len() == i,
            forall|j: int|
                0 <= j < i ==> (#[trigger] clipped_contents@[j])@ == spec_clipped(
                    group@[j].0@,
                    DENSE_BATCH_CLIP_THRESHOLD as int,
                    DENSE_BATCH_CLIP_CEILING as int,
                ),
            clipped_boosts@.len() == boosts@.len(),
            forall|j: int|
                0 <= j < boosts@.len() ==> (#[trigger] clipped_boosts@[j])@ == spec_clipped(
                    group@[boosts@[j].0 as int].1->Some_0.phrase@,
                    DENSE_BATCH_CLIP_THRESHOLD as int,
                    DENSE_BATCH_CLIP_CEILING as int,
                ),
        decreases n - i,
    {
        proof {
            assert(group@.take(i + 1).drop_last() =~= group@.take(i as int));
            assert(group@.take(i + 1).last() == group@[i as int]);
        }
        clipped_contents.push(
            clip_chars(group[i].0.as_str(), DENSE_BATCH_CLIP_THRESHOLD, DENSE_BATCH_CLIP_CEILING),
        );
        match &group[i].1 {
            Some(dp) => {
                boosts.push((i, dp.distance_factor));
                clipped_boosts.push(
                    clip_chars(
                        dp.phrase.as_str(),
                        DENSE_BATCH_CLIP_THRESHOLD,
                        DENSE_BATCH_CLIP_CEILING,
                    ),
                );
            },
            None => {},
        }
        i = i + 1;
    }
    proof {
        assert(group@.take(n as int) =~= group@);
    }
    let input = match kind {
        EmbedKind::Query => {
            let mut s = String::from_str(query_prefix);
            s.append(clipped_contents[0].as_str());
            EmbeddingInput::Single(s)
        },
        EmbedKind::Doc => {
            let mut v = clipped_contents;
            let mut cb = clipped_boosts;
            v.append(&mut cb);
            proof {
                assert(forall|j: int|
                    0 <= j < boosts@.len() ==> v@[group@.len() + j] == #[trigger] clipped_boosts@[j]);
            }
            EmbeddingInput::Batch(v)
        },
    };
    DenseGroupPlan {
        request: EmbeddingParameters { input, model: String::from_str(model), truncate: true },
        content_count: n,
        boosts,
    }
}

/// One request frame of the streaming embedding transport: one frame
/// per input text, answered by one embedding frame in request order
/// within a window.
#[derive(Clone, Debug)]
pub struct StreamEmbedFrame {
    /// The text to embed.
    pub inputs: String,
    /// The streaming encoder is asked not to truncate dense inputs.
    pub truncate: bool,
    /// Embeddings are requested normalized.
    pub normalize: bool,
    /// Wire code of the truncation direction; the default side.
    pub truncation_direction: i32,
}

/// Build the request frames of one streaming dense embedding call: one
/// frame per message, in order.
pub fn stream_embed_frames(messages: Vec<String>) -> (r: Vec<StreamEmbedFrame>)
    ensures
        r@.len() == messages@.len(),
        forall|i: int|
            0 <= i < r@.len() ==> {
                let f = #[trigger] r@[i];
                &&& f.inputs@ == messages@[i]@
                &&& !f.truncate
                &&& f.normalize
                &&& f.truncation_direction == 0
            },
{
    let mut out: Vec<StreamEmbedFrame> = Vec::new();
    let mut rest = messages;
    while rest.len() > 0
        invariant
            out@.len() + rest@.len() == messages@.len(),
            rest@ == messages@.skip(out@.len() as int),
            forall|i: int|
                0 <= i < out@.len() ==> {
                    let f = #[trigger] out@[i];
                    &&& f.inputs@ == messages@[i]@
                    &&& !f.truncate
                    &&& f.normalize
                    &&& f.truncation_direction == 0
                },
        decreases rest@.len(),
    {
        let ghost prev = rest@;
        let message = rest.remove(0);
        proof {
            assert(rest@ =~= prev.drop_first());
            assert(prev[0] == messages@[out@.len() as int]);
        }
        out.push(
            StreamEmbedFrame { inputs: message, truncate: false, normalize: true, truncation_direction: 0 },
        );
        proof {
            assert(rest@ =~= messages@.skip(out@.len() as int));
        }
    }
    out
}

/// Whether some of the first `upto` boosts points at position `i`.
pub open spec fn boosted_before(boosts: Seq<(usize, i64)>, upto: int, i: int) -> bool {
    exists|jj: int| 0 <= jj < upto && (#[trigger] boosts[jj]).0 == i
}

/// Blend the vectors returned for one group: the first `content_count`
/// vectors are the contents, the rest are boost vectors, blended into
/// their positions by `boosts`.  A wrong vector count or an empty vector
/// is a shape mismatch; mismatched vector lengths are a hard error.
pub fn blend_dense_group(
    vectors: Vec<Vec<i64>>,
    content_count: usize,
    boosts: &Vec<(usize, i64)>,
) -> (r: Result<Vec<Vec<i64>>, EmbedError>)
    requires
        forall|j: int| 0 <= j < boosts@.len() ==> (#[trigger] boosts@[j]).0 < content_count,
        forall|j1: int, j2: int|
            0 <= j1 < j2 < boosts@.len() ==> (#[trigger] boosts@[j1]).0 != (
            #[trigger] boosts@[j2]).0,
        forall|j: int| 0 <= j < boosts@.len() ==> fx_in_range((#[trigger] boosts@[j]).1 as int),
        forall|i: int, j: int|
            0 <= i < vectors@.len() && 0 <= j < vectors@[i]@.len() ==> fx_in_range(
                (#[trigger] vectors@[i]@[j]) as int,
            ),
    ensures
        match r {
            Ok(out) => {
                &&& vectors@.len() == content_count + boosts@.len()
                &&& forall|i: int| 0 <= i < vectors@.len() ==> (#[trigger] vectors@[i])@.len() > 0
                &&& out@.len() == content_count
                &&& forall|i: int|
                    0 <= i < content_count && !boosted_before(boosts@, boosts@.len() as int, i)
                        ==> #[trigger] out@[i] == vectors@[i]
                &&& forall|jj: int|
                    0 <= jj < boosts@.len() ==> {
                        let i = (#[trigger] boosts@[jj]).0 as int;
                        &&& vectors@[i]@.len() == vectors@[content_count + jj]@.len()
                        &&& out@[i]@.map_values(|x: i64| x as int) == spec_blend_dense(
                            vectors@[i]@,
                            vectors@[content_count + jj]@,
                            boosts@[jj].1,
                        )
                    }
            },
            Err(e) => {
                ||| (vectors@.len() != content_count + boosts@.len() && e
                    == EmbedError::ResponseShapeMismatch)
                ||| (vectors@.len() == content_count + boosts@.len() && (exists|i: int|
                    0 <= i < vectors@.len() && (#[trigger] vectors@[i])@.len() == 0) && e
                    == EmbedError::ResponseShapeMismatch)
                ||| (vectors@.len() == content_count + boosts@.len() && (forall|i: int|
                    0 <= i < vectors@.len() ==> (#[trigger] vectors@[i])@.len() > 0) && (exists|
                jj: int|
                    0 <= jj < boosts@.len() && vectors@[(#[trigger] boosts@[jj]).0 as int]@.len()
                        != vectors@[content_count + jj]@.len()) && e == EmbedError::InvalidInput)
            },
        },
{
    if content_count > vectors.len() || vectors.len() - content_count != boosts.len() {
        return Err(EmbedError::ResponseShapeMismatch);
    }
    let mut i: usize = 0;
    while i < vectors.len()
        invariant
            i <= vectors@.len(),
            forall|j: int| 0 <= j < i ==> (#[trigger] vectors@[j])@.len() > 0,
        decreases vectors@.len() - i,
    {
        if vectors[i].len() == 0 {
            return Err(EmbedError::ResponseShapeMismatch);
        }
        i = i + 1;
    }
    let ghost vs = vectors@;
    let mut content = vectors;
    let boost_vecs = content.split_off(content_count);
    proof {
        assert(vs =~= content@ + boost_vecs@);
        assert(boost_vecs@ =~= vs.skip(content_count as int));
    }
    let mut jj: usize = 0;
    while jj < boosts.len()
        invariant
            jj <= boosts@.len(),
            vs == vectors@,
            content@.len() == content_count,
            content_count + boosts@.len() == vs.len(),
            boost_vecs@ == vs.skip(content_count as int),
            forall|j: int| 0 <= j < boosts@.len() ==> (#[trigger] boosts@[j]).0 < content_count,
            forall|j1: int, j2: int|
                0 <= j1 < j2 < boosts@.len() ==> (#[trigger] boosts@[j1]).0 != (
                #[trigger] boosts@[j2]).0,
            forall|j: int| 0 <= j < boosts@.len() ==> fx_in_range((#[trigger] boosts@[j]).1 as int),
            forall|i: int, j: int|
                0 <= i < vs.len() && 0 <= j < vs[i]@.len() ==> fx_in_range(
                    (#[trigger] vs[i]@[j]) as int,
                ),
            forall|i: int| 0 <= i < vs.len() ==> (#[trigger] vs[i])@.len() > 0,
            forall|i: int|
                0 <= i < content_count && !boosted_before(boosts@, jj as int, i)
                    ==> #[trigger] content@[i] == vs[i],
            forall|j: int|
                0 <= j < jj ==> {
                    let i = (#[trigger] boosts@[j]).0 as int;
                    &&& vs[i]@.len() == vs[content_count + j]@.len()
                    &&& content@[i]@.map_values(|x: i64| x as int) == spec_blend_dense(
                        vs[i]@,
                        vs[content_count + j]@,
                        boosts@[j].1,
                    )
                },
        decreases boosts@.len() - jj,
    {
        let (idx, factor) = boosts[jj];
        proof {
            assert(!boosted_before(boosts@, jj as int, idx as int));
            assert(content@[idx as int] == vs[idx as int]);
            assert(boost_vecs@[jj as int] == vs[content_count + jj]);
        }
        match blend_dense(&content[idx], &boost_vecs[jj], factor) {
            Ok(blended) => {
                let ghost prev = content@;
                content.set(idx, blended);
                proof {
                    assert forall|i: int|
                        0 <= i < content_count && !boosted_before(boosts@, jj + 1, i)
                            implies #[trigger] content@[i] == vs[i] by {
                        assert(!boosted_before(boosts@, jj as int, i));
                        assert(i != idx as int);
                    }
                    assert forall|j: int| 0 <= j < jj + 1 implies {
                        let i = (#[trigger] boosts@[j]).0 as int;
                        &&& vs[i]@.len() == vs[content_count + j]@.len()
                        &&& content@[i]@.map_values(|x: i64| x as int) == spec_blend_dense(
                            vs[i]@,
                            vs[content_count + j]@,
                            boosts@[j].1,
                        )
                    } by {
                        if j < jj {
                            assert(boosts@[j].0 != boosts@[jj as int].0);
                            assert(content@[boosts@[j].0 as int] == prev[boosts@[j].0 as int]);
                        }
                    }
                }
            },
            Err(e) => {
                proof {
                    assert(vs[idx as int]@.len() != vs[content_count + jj]@.len());
                }
                return Err(e);
            },
        }
        jj = jj + 1;
    }
    Ok(content)
}

/// Build the per-group plans of a whole batched dense embedding call:
/// the input items are split into consecutive groups of at most
/// `EMBED_GROUP_SIZE`, and each group gets its own request.
pub fn prepare_dense_batches(
    items: Vec<(String, Option<DistancePhrase>)>,
    kind: EmbedKind,
    query_prefix: &str,
    model: &str,
) -> (r: Vec<DenseGroupPlan>)
    ensures
        r@.len() == spec_split(items@, EMBED_GROUP_SIZE as int).len(),
        forall|t: int|
            0 <= t < r@.len() ==> dense_plan_matches(
                #[trigger] r@[t],
                spec_split(items@, EMBED_GROUP_SIZE as int)[t],
                kind,
                query_prefix@,
                model@,
            ),
{
    proof {
        crate::batch::lemma_split_group_sizes(items@, EMBED_GROUP_SIZE as int);
    }
    let groups = split_into_groups(items, EMBED_GROUP_SIZE);
    let ghost gs = spec_split(items@, EMBED_GROUP_SIZE as int);
    let mut out: Vec<DenseGroupPlan> = Vec::new();
    let mut rest = groups;
    while rest.len() > 0
        invariant
            gs == spec_split(items@, EMBED_GROUP_SIZE as int),
            out@.len() + rest@.len() == gs.len(),
            rest@.map_values(|g: Vec<(String, Option<DistancePhrase>)>| g@) == gs.skip(
                out@.len() as int,
            ),
            forall|i: int| 0 <= i < gs.len() ==> (#[trigger] gs[i]).len() > 0,
            forall|t: int|
                0 <= t < out@.len() ==> dense_plan_matches(
                    #[trigger] out@[t],
                    gs[t],
                    kind,
                    query_prefix@,
                    model@,
                ),
        decreases rest@.len(),
    {
        let ghost prev = rest@;
        let ghost t = out@.len() as int;
        let group = rest.remove(0);
        proof {
            assert(rest@ =~= prev.drop_first());
            assert(rest@.map_values(|g: Vec<(String, Option<DistancePhrase>)>| g@) =~= prev
                .map_values(|g: Vec<(String, Option<DistancePhrase>)>| g@).drop_first());
            assert(prev.map_values(|g: Vec<(String, Option<DistancePhrase>)>| g@)[0] == group@);
            assert(gs.skip(t)[0] == gs[t]);
            assert(group@ == gs[t]);
        }
        let plan = prepare_dense_group(&group, kind, query_prefix, model);
        out.push(plan);
        proof {
            assert(rest@.map_values(|g: Vec<(String, Option<DistancePhrase>)>| g@) =~= gs.skip(
                out@.len() as int,
            ));
        }
    }
    out
}

} // verus!
