//! Sparse embedding service.
//!
//! Builds the request payloads for single and batched sparse embedding
//! calls — clipping inputs, grouping contents and boost phrases into
//! bounded batches — and blends the returned boost vectors
//! multiplicatively into the content vectors at their original
//! positions.  The remote exchange itself is driven by a host through
//! the request values built here; a purely local alternative lives in
//! [`crate::bm25`].

use vstd::prelude::*;

use crate::batch::spec_split;
use crate::batch::split_into_groups;
use crate::batch::EMBED_GROUP_SIZE;
use crate::blend::blend_sparse;
use crate::blend::spec_blend_sparse_i64;
use crate::bm25::BoostPhrase;
use crate::clip::clip_chars;
use crate::clip::spec_clipped;
use crate::clip::SPARSE_BATCH_CLIP_CEILING;
use crate::clip::SPARSE_BATCH_CLIP_THRESHOLD;
use crate::clip::SPARSE_SINGLE_CLIP_CEILING;
use crate::clip::SPARSE_SINGLE_CLIP_THRESHOLD;
use crate::dense::EmbedKind;
use crate::error::EmbedError;
use crate::fixed::fx_in_range;

verus! {

/// The payload of one sparse embedding request.
#[derive(Clone, Debug)]
pub struct CustomSparseEmbedData {
    /// The input texts, one sparse vector per entry.
    pub inputs: Vec<String>,
    /// `"doc"` or `"query"`: the remote encoder is asymmetric.
    pub encode_type: String,
    /// Ask the remote side to truncate over-long inputs.
    pub truncate: bool,
}

/// One entry of a sparse vector as the remote encoder returns it.
#[derive(Clone, Copy, Debug, PartialEq, Eq, Structural)]
pub struct SpladeIndicies {
    index: u32,
    value: i64,
}

impl SpladeIndicies {
    /// The token id of the entry.
    pub closed spec fn spec_index(self) -> u32 {
        self.index
    }

    /// The weight of the entry.
    pub closed spec fn spec_value(self) -> i64 {
        self.value
    }

    /// Wrap one returned `(index, value)` entry.
    pub fn new(index: u32, value: i64) -> (r: SpladeIndicies)
        ensures
            r.spec_index() == index,
            r.spec_value() == value,
    {
        SpladeIndicies { index, value }
    }

    /// The entry as a plain pair.
    pub fn into_tuple(self) -> (r: (u32, i64))
        ensures
            r == (self.spec_index(), self.spec_value()),
    {
        (self.index, self.value)
    }
}

/// A sparse embedding handed back to callers.
#[derive(Clone, Debug)]
pub struct SpladeEmbedding {
    /// The `(token id, weight)` pairs of the vector.
    pub embeddings: Vec<(u32, i64)>,
}

/// The wire value of the encode-type flag.
pub open spec fn spec_encode_type(kind: EmbedKind) -> Seq<char> {
    match kind {
        EmbedKind::Doc => "doc"@,
        EmbedKind::Query => "query"@,
    }
}

/// The encode-type flag a request carries.
pub fn encode_type_string(kind: EmbedKind) -> (r: String)
    ensures
        r@ == spec_encode_type(kind),
{
    match kind {
        EmbedKind::Doc => String::from_str("doc"),
        EmbedKind::Query => String::from_str("query"),
    }
}

/// Build the request for one sparse embedding of a single text.
pub fn prepare_sparse_single(message: &str, kind: EmbedKind) -> (r: CustomSparseEmbedData)
    ensures
        r.inputs@.len() == 1,
        r.inputs@[0]@ == spec_clipped(
            message@,
            SPARSE_SINGLE_CLIP_THRESHOLD as int,
            SPARSE_SINGLE_CLIP_CEILING as int,
        ),
        r.encode_type@ == spec_encode_type(kind),
        r.truncate,
{
    let mut inputs: Vec<String> = Vec::new();
    inputs.push(clip_chars(message, SPARSE_SINGLE_CLIP_THRESHOLD, SPARSE_SINGLE_CLIP_CEILING));
    CustomSparseEmbedData { inputs, encode_type: encode_type_string(kind), truncate: true }
}

/// Turn the vectors returned for a single-text sparse request into the
/// final vector: the first one, as plain pairs.  No vector at all means
/// the call yielded nothing usable.
pub fn finish_sparse_single(vectors: Vec<Vec<SpladeIndicies>>) -> (r: Result<
    Vec<(u32, i64)>,
    EmbedError,
>)
    ensures
        match r {
            Ok(out) => vectors@.len() >= 1 && out@ == vectors@[0]@.map_values(
                |s: SpladeIndicies| (s.spec_index(), s.spec_value()),
            ),
            Err(e) => vectors@.len() == 0 && e == EmbedError::EmptyResult,
        },
{
    if vectors.len() == 0 {
        return Err(EmbedError::EmptyResult);
    }
    let mut vectors = vectors;
    let first = vectors.remove(0);
    let mut out: Vec<(u32, i64)> = Vec::new();
    let mut i: usize = 0;
    while i < first.len()
        invariant
            i <= first@.len(),
            out@.len() == i,
            forall|j: int|
                0 <= j < i ==> #[trigger] out@[j] == (
                    first@[j].spec_index(),
                    first@[j].spec_value(),
                ),
        decreases first@.len() - i,
    {
        out.push(first[i].into_tuple());
        i = i + 1;
    }
    proof {
        assert(out@ =~= first@.map_values(
            |s: SpladeIndicies| (s.spec_index(), s.spec_value()),
        ));
    }
    Ok(out)
}

/// Positions and boost phrases of the messages that carry one, in
/// ascending position order.
pub open spec fn spec_filtered_boosts(msgs: Seq<(String, Option<BoostPhrase>)>) -> Seq<
    (usize, BoostPhrase),
>
    decreases msgs.len(),
{
    if msgs.len() == 0 {
        Seq::empty()
    } else {
        spec_filtered_boosts(msgs.drop_last()) + (match msgs.last().1 {
            Some(bp) => seq![(((msgs.len() - 1) as usize), bp)],
            None => Seq::empty(),
        })
    }
}

/// Every filtered boost position points before `len`, in strictly
/// ascending order — so every boost lands inside the reassembled
/// contents, each position at most once.
pub proof fn lemma_spec_filtered_boosts_sound(msgs: Seq<(String, Option<BoostPhrase>)>)
    requires
        msgs.len() <= usize::MAX,
    ensures
        forall|j: int|
            0 <= j < spec_filtered_boosts(msgs).len() ==> (#[trigger] spec_filtered_boosts(
                msgs,
            )[j]).0 < msgs.len(),
        forall|j1: int, j2: int|
            0 <= j1 < j2 < spec_filtered_boosts(msgs).len() ==> (#[trigger] spec_filtered_boosts(
                msgs,
            )[j1]).0 < (#[trigger] spec_filtered_boosts(msgs)[j2]).0,
    decreases msgs.len(),
{
    if msgs.len() > 0 {
        lemma_spec_filtered_boosts_sound(msgs.drop_last());
        let s = spec_filtered_boosts(msgs);
        let sp = spec_filtered_boosts(msgs.drop_last());
        match msgs.last().1 {
            Some(bp) => {
                assert(s.len() == sp.len() + 1);
                assert(forall|j: int| 0 <= j < sp.len() ==> #[trigger] s[j] == sp[j]);
                assert(s[s.len() - 1] == ((msgs.len() - 1) as usize, bp));
            },
            None => {
                assert(s =~= sp);
            },
        }
    }
}

/// The plan of a whole batched sparse embedding call: one request per
/// group of contents, and one request per group of boost phrases, each
/// boost group tagged with the original positions and factors its
/// vectors belong to.
pub struct SparseBatchPlan {
    /// One request per group of at most `EMBED_GROUP_SIZE` contents.
    pub content_requests: Vec<CustomSparseEmbedData>,
    /// One request per group of at most `EMBED_GROUP_SIZE` boost
    /// phrases, beside the original position and factor of each phrase.
    pub boost_groups: Vec<(CustomSparseEmbedData, Vec<(usize, i64)>)>,
}

/// What a sparse batch plan promises for the contents: group `t` of the
/// split carries the clipped contents of that group.
pub open spec fn sparse_content_requests_match(
    reqs: Seq<CustomSparseEmbedData>,
    contents: Seq<String>,
    kind: EmbedKind,
) -> bool {
    let groups = spec_split(contents, EMBED_GROUP_SIZE as int);
    &&& reqs.len() == groups.len()
    &&& forall|t: int|
        0 <= t < reqs.len() ==> {
            let req = #[trigger] reqs[t];
            &&& req.truncate
            &&& req.encode_type@ == spec_encode_type(kind)
            &&& req.inputs@.map_values(|s: String| s@) == groups[t].map_values(
                |c: String|
                    spec_clipped(
                        c@,
                        SPARSE_BATCH_CLIP_THRESHOLD as int,
                        SPARSE_BATCH_CLIP_CEILING as int,
                    ),
            )
        }
}

/// What a sparse batch plan promises for the boosts: group `u` of the
/// split of the filtered boost list carries the clipped phrases, beside
/// the original positions and factors.
pub open spec fn sparse_boost_groups_match(
    bgs: Seq<(CustomSparseEmbedData, Seq<(usize, i64)>)>,
    filtered: Seq<(usize, BoostPhrase)>,
    kind: EmbedKind,
) -> bool {
    let groups = spec_split(filtered, EMBED_GROUP_SIZE as int);
    &&& bgs.len() == groups.len()
    &&& forall|u: int|
        0 <= u < bgs.len() ==> {
            let bg = #[trigger] bgs[u];
            &&& bg.0.truncate
            &&& bg.0.encode_type@ == spec_encode_type(kind)
            &&& bg.0.inputs@.map_values(|s: String| s@) == groups[u].map_values(
                |p: (usize, BoostPhrase)|
                    spec_clipped(
                        p.1.phrase@,
                        SPARSE_BATCH_CLIP_THRESHOLD as int,
                        SPARSE_BATCH_CLIP_CEILING as int,
                    ),
            )
            &&& bg.1 == groups[u].map_values(
                |p: (usize, BoostPhrase)| (p.0, p.1.boost_factor),
            )
        }
}

/// Build one sparse request from a group of already-clipped inputs.
fn sparse_request(inputs: Vec<String>, kind: EmbedKind) -> (r: CustomSparseEmbedData)
    ensures
        r.inputs == inputs,
        r.encode_type@ == spec_encode_type(kind),
        r.truncate,
{
    CustomSparseEmbedData { inputs, encode_type: encode_type_string(kind), truncate: true }
}

/// Build the whole plan of a batched sparse embedding call.  An empty
/// message set is rejected.
pub fn prepare_sparse_batches(messages: Vec<(String, Option<BoostPhrase>)>, kind: EmbedKind) -> (r:
    Result<SparseBatchPlan, EmbedError>)
    ensures
        match r {
            Ok(plan) => {
                &&& messages@.len() > 0
                &&& sparse_content_requests_match(
                    plan.content_requests@,
                    messages@.map_values(|m: (String, Option<BoostPhrase>)| m.0),
                    kind,
                )
                &&& sparse_boost_groups_match(
                    plan.boost_groups@.map_values(
                        |bg: (CustomSparseEmbedData, Vec<(usize, i64)>)| (bg.0, bg.1@),
                    ),
                    spec_filtered_boosts(messages@),
                    kind,
                )
            },
            Err(e) => messages@.len() == 0 && e == EmbedError::InvalidInput,
        },
{
    if messages.len() == 0 {
        return Err(EmbedError::InvalidInput);
    }
    let ghost msgs = messages@;
    let mut contents: Vec<String> = Vec::new();
    let mut filtered: Vec<(usize, BoostPhrase)> = Vec::new();
    let mut rest = messages;
    while rest.len() > 0
        invariant
            contents@.len() + rest@.len() == msgs.len(),
            rest@ == msgs.skip(contents@.len() as int),
            contents@ == msgs.take(contents@.len() as int).map_values(
                |m: (String, Option<BoostPhrase>)| m.0,
            ),
            filtered@ == spec_filtered_boosts(msgs.take(contents@.len() as int)),
        decreases rest@.len(),
    {
        let ghost done = contents@.len() as int;
        let ghost prev = rest@;
        let (text, boost) = rest.remove(0);
        proof {
            assert(rest@ =~= prev.drop_first());
            assert(prev[0] == msgs[done]);
            assert(msgs.take(done + 1).drop_last() =~= msgs.take(done));
            assert(msgs.take(done + 1).last() == msgs[done]);
        }
        match boost {
            Some(bp) => {
                let idx = contents.len();
                filtered.push((idx, bp));
            },
            None => {},
        }
        contents.push(text);
        proof {
            assert(rest@ =~= msgs.skip(contents@.len() as int));
            assert(contents@ =~= msgs.take(contents@.len() as int).map_values(
                |m: (String, Option<BoostPhrase>)| m.0,
            ));
        }
    }
    proof {
        assert(msgs.take(msgs.len() as int) =~= msgs);
    }
    let ghost cv = msgs.map_values(|m: (String, Option<BoostPhrase>)| m.0);
    let ghost cgroups = spec_split(cv, EMBED_GROUP_SIZE as int);
    let content_groups = split_into_groups(contents, EMBED_GROUP_SIZE);
    let boost_groups_raw = split_into_groups(filtered, EMBED_GROUP_SIZE);
    proof {
        assert(content_groups@.map_values(|grp: Vec<String>| grp@) == spec_split(
            cv,
            EMBED_GROUP_SIZE as int,
        ));
    }
    let mut content_requests: Vec<CustomSparseEmbedData> = Vec::new();
    let mut crest = content_groups;
    proof {
        assert forall|t: int| 0 <= t < crest@.len() implies (#[trigger] crest@[t])@
            == cgroups[t] by {
            assert(crest@.map_values(|grp: Vec<String>| grp@)[t] == crest@[t]@);
        }
    }
    while crest.len() > 0
        invariant
            cgroups == spec_split(cv, EMBED_GROUP_SIZE as int),
            content_requests@.len() + crest@.len() == cgroups.len(),
            forall|j: int|
                0 <= j < crest@.len() ==> (#[trigger] crest@[j])@ == cgroups[content_requests@.len()
                    + j],
            forall|t: int|
                0 <= t < content_requests@.len() ==> {
                    let req = #[trigger] content_requests@[t];
                    &&& req.truncate
                    &&& req.encode_type@ == spec_encode_type(kind)
                    &&& req.inputs@.map_values(|s: String| s@) == cgroups[t].map_values(
                        |c: String|
                            spec_clipped(
                                c@,
                                SPARSE_BATCH_CLIP_THRESHOLD as int,
                                SPARSE_BATCH_CLIP_CEILING as int,
                            ),
                    )
                },
        decreases crest@.len(),
    {
        let ghost prev = crest@;
        let ghost t0 = content_requests@.len() as int;
        let group = crest.remove(0);
        proof {
            assert(crest@ =~= prev.drop_first());
            assert(prev[0] == group);
            assert(group@ == cgroups[t0]);
            assert forall|j: int| 0 <= j < crest@.len() implies (#[trigger] crest@[j])@
                == cgroups[t0 + 1 + j] by {
                assert(crest@[j] == prev[j + 1]);
            }
        }
        let mut clipped: Vec<String> = Vec::new();
        let mut i: usize = 0;
        while i < group.len()
            invariant
                i <= group@.len(),
                clipped@.len() == i,
                forall|j: int|
                    0 <= j < i ==> (#[trigger] clipped@[j])@ == spec_clipped(
                        group@[j]@,
                        SPARSE_BATCH_CLIP_THRESHOLD as int,
                        SPARSE_BATCH_CLIP_CEILING as int,
                    ),
            decreases group@.len() - i,
        {
            clipped.push(
                clip_chars(
                    group[i].as_str(),
                    SPARSE_BATCH_CLIP_THRESHOLD,
                    SPARSE_BATCH_CLIP_CEILING,
                ),
            );
            i = i + 1;
        }
        let req = sparse_request(clipped, kind);
        content_requests.push(req);
        proof {
            assert(content_requests@[t0].inputs@.map_values(|s: String| s@) =~= cgroups[t0]
                .map_values(
                |c: String|
                    spec_clipped(
                        c@,
                        SPARSE_BATCH_CLIP_THRESHOLD as int,
                        SPARSE_BATCH_CLIP_CEILING as int,
                    ),
            ));
        }
    }
    let ghost fb = spec_filtered_boosts(msgs);
    let ghost bgroups = spec_split(fb, EMBED_GROUP_SIZE as int);
    let mut boost_groups: Vec<(CustomSparseEmbedData, Vec<(usize, i64)>)> = Vec::new();
    let mut brest = boost_groups_raw;
    proof {
        assert(brest@.map_values(|g: Vec<(usize, BoostPhrase)>| g@) == spec_split(
            fb,
            EMBED_GROUP_SIZE as int,
        ));
        assert forall|u: int| 0 <= u < brest@.len() implies (#[trigger] brest@[u])@
            == bgroups[u] by {
            assert(brest@.map_values(|g: Vec<(usize, BoostPhrase)>| g@)[u] == brest@[u]@);
        }
    }
    while brest.len() > 0
        invariant
            bgroups == spec_split(fb, EMBED_GROUP_SIZE as int),
            boost_groups@.len() + brest@.len() == bgroups.len(),
            forall|j: int|
                0 <= j < brest@.len() ==> (#[trigger] brest@[j])@ == bgroups[boost_groups@.len()
                    + j],
            forall|u: int|
                0 <= u < boost_groups@.len() ==> {
                    let bg = #[trigger] boost_groups@[u];
                    &&& bg.0.truncate
                    &&& bg.0.encode_type@ == spec_encode_type(kind)
                    &&& bg.0.inputs@.map_values(|s: String| s@) == bgroups[u].map_values(
                        |p: (usize, BoostPhrase)|
                            spec_clipped(
                                p.1.phrase@,
                                SPARSE_BATCH_CLIP_THRESHOLD as int,
                                SPARSE_BATCH_CLIP_CEILING as int,
                            ),
                    )
                    &&& bg.1@ == bgroups[u].map_values(
                        |p: (usize, BoostPhrase)| (p.0, p.1.boost_factor),
                    )
                },
        decreases brest@.len(),
    {
        let ghost prev = brest@;
        let ghost u0 = boost_groups@.len() as int;
        let group = brest.remove(0);
        proof {
            assert(brest@ =~= prev.drop_first());
            assert(prev[0] == group);
            assert(group@ == bgroups[u0]);
            assert forall|j: int| 0 <= j < brest@.len() implies (#[trigger] brest@[j])@
                == bgroups[u0 + 1 + j] by {
                assert(brest@[j] == prev[j + 1]);
            }
        }
        let mut clipped: Vec<String> = Vec::new();
        let mut tags: Vec<(usize, i64)> = Vec::new();
        let mut i: usize = 0;
        while i < group.len()
            invariant
                i <= group@.len(),
                clipped@.len() == i,
                tags@.len() == i,
                forall|j: int|
                    0 <= j < i ==> (#[trigger] clipped@[j])@ == spec_clipped(
                        group@[j].1.phrase@,
                        SPARSE_BATCH_CLIP_THRESHOLD as int,
                        SPARSE_BATCH_CLIP_CEILING as int,
                    ),
                forall|j: int|
                    0 <= j < i ==> #[trigger] tags@[j] == (group@[j].0, group@[j].1.boost_factor),
            decreases group@.len() - i,
        {
            clipped.push(
                clip_chars(
                    group[i].1.phrase.as_str(),
                    SPARSE_BATCH_CLIP_THRESHOLD,
                    SPARSE_BATCH_CLIP_CEILING,
                ),
            );
            tags.push((group[i].0, group[i].1.boost_factor));
            i = i + 1;
        }
        let req = sparse_request(clipped, kind);
        boost_groups.push((req, tags));
        proof {
            assert(boost_groups@[u0].0.inputs@.map_values(|s: String| s@) =~= bgroups[u0]
                .map_values(
                |p: (usize, BoostPhrase)|
                    spec_clipped(
                        p.1.phrase@,
                        SPARSE_BATCH_CLIP_THRESHOLD as int,
                        SPARSE_BATCH_CLIP_CEILING as int,
                    ),
            ));
            assert(boost_groups@[u0].1@ =~= bgroups[u0].map_values(
                |p: (usize, BoostPhrase)| (p.0, p.1.boost_factor),
            ));
        }
    }
    proof {
        assert(sparse_boost_groups_match(
            boost_groups@.map_values(
                |bg: (CustomSparseEmbedData, Vec<(usize, i64)>)| (bg.0, bg.1@),
            ),
            fb,
            kind,
        ));
    }
    Ok(SparseBatchPlan { content_requests, boost_groups })
}

/// One request frame of the streaming sparse embedding transport.
#[derive(Clone, Debug)]
pub struct StreamSparseFrame {
    /// The clipped text to encode.
    pub inputs: String,
    /// The streaming encoder is asked to truncate over-long inputs.
    pub truncate: bool,
    /// Wire code of right-hand truncation.
    pub truncation_direction: i32,
}

/// Build the request frames of one streaming sparse embedding call: one
/// frame per message, in order, each input clipped to the single-call
/// bounds.
pub fn stream_sparse_frames(messages: Vec<String>) -> (r: Vec<StreamSparseFrame>)
    ensures
        r@.len() == messages@.len(),
        forall|i: int|
            0 <= i < r@.len() ==> {
                let f = #[trigger] r@[i];
                &&& f.inputs@ == spec_clipped(
                    messages@[i]@,
                    SPARSE_SINGLE_CLIP_THRESHOLD as int,
                    SPARSE_SINGLE_CLIP_CEILING as int,
                )
                &&& f.truncate
                &&& f.truncation_direction == 1
            },
{
    let mut out: Vec<StreamSparseFrame> = Vec::new();
    let mut rest = messages;
    while rest.len() > 0
        invariant
            out@.len() + rest@.len() == messages@.len(),
            rest@ == messages@.skip(out@.len() as int),
            forall|i: int|
                0 <= i < out@.len() ==> {
                    let f = #[trigger] out@[i];
                    &&& f.inputs@ == spec_clipped(
                        messages@[i]@,
                        SPARSE_SINGLE_CLIP_THRESHOLD as int,
                        SPARSE_SINGLE_CLIP_CEILING as int,
                    )
                    &&& f.truncate
                    &&& f.truncation_direction == 1
                },
        decreases rest@.len(),
    {
        let ghost prev = rest@;
        let message = rest.remove(0);
        proof {
            assert(rest@ =~= prev.drop_first());
            assert(prev[0] == messages@[out@.len() as int]);
        }
        let clipped = clip_chars(
            message.as_str(),
            SPARSE_SINGLE_CLIP_THRESHOLD,
            SPARSE_SINGLE_CLIP_CEILING,
        );
        out.push(StreamSparseFrame { inputs: clipped, truncate: true, truncation_direction: 1 });
        proof {
            assert(rest@ =~= messages@.skip(out@.len() as int));
        }
    }
    out
}

/// The content vectors after one boost is blended in: the vector at the
/// boost's original position is multiplied on overlapping ids; a boost
/// pointing outside the contents changes nothing.
pub open spec fn spec_apply_sparse_boosts(
    c: Seq<Seq<(u32, i64)>>,
    boosts: Seq<(usize, i64, Seq<(u32, i64)>)>,
) -> Seq<Seq<(u32, i64)>>
    decreases boosts.len(),
{
    if boosts.len() == 0 {
        c
    } else {
        let c1 = spec_apply_sparse_boosts(c, boosts.drop_last());
        let b = boosts.last();
        if b.0 < c1.len() {
            c1.update(b.0 as int, spec_blend_sparse_i64(c1[b.0 as int], b.2, b.1))
        } else {
            c1
        }
    }
}

/// Applying boosts never changes the number of content vectors.
pub proof fn lemma_apply_sparse_boosts_len(
    c: Seq<Seq<(u32, i64)>>,
    boosts: Seq<(usize, i64, Seq<(u32, i64)>)>,
)
    ensures
        spec_apply_sparse_boosts(c, boosts).len() == c.len(),
    decreases boosts.len(),
{
    if boosts.len() > 0 {
        lemma_apply_sparse_boosts_len(c, boosts.drop_last());
    }
}

/// Blend every returned boost vector into the content vector at its
/// original position, in order.  A boost pointing outside the contents
/// is a shape mismatch and leaves the contents untouched.
pub fn apply_sparse_boosts(
    contents: &mut Vec<Vec<(u32, i64)>>,
    boosts: &Vec<(usize, i64, Vec<(u32, i64)>)>,
) -> (r: Result<(), EmbedError>)
    requires
        forall|j: int| 0 <= j < boosts@.len() ==> fx_in_range((#[trigger] boosts@[j]).1 as int),
        forall|d: int, i: int|
            0 <= d < old(contents)@.len() && 0 <= i < old(contents)@[d]@.len() ==> fx_in_range(
                (#[trigger] old(contents)@[d]@[i]).1 as int,
            ),
    ensures
        match r {
            Ok(()) => {
                &&& forall|j: int|
                    0 <= j < boosts@.len() ==> (#[trigger] boosts@[j]).0 < old(contents)@.len()
                &&& final(contents)@.map_values(|v: Vec<(u32, i64)>| v@)
                    == spec_apply_sparse_boosts(
                    old(contents)@.map_values(|v: Vec<(u32, i64)>| v@),
                    boosts@.map_values(
                        |b: (usize, i64, Vec<(u32, i64)>)| (b.0, b.1, b.2@),
                    ),
                )
            },
            Err(e) => {
                &&& !(forall|j: int|
                    0 <= j < boosts@.len() ==> (#[trigger] boosts@[j]).0 < old(contents)@.len())
                &&& e == EmbedError::InvalidInput
                &&& final(contents)@ == old(contents)@
            },
        },
{
    let ghost bs = boosts@.map_values(|b: (usize, i64, Vec<(u32, i64)>)| (b.0, b.1, b.2@));
    let mut j: usize = 0;
    while j < boosts.len()
        invariant
            j <= boosts@.len(),
            forall|jj: int| 0 <= jj < j ==> (#[trigger] boosts@[jj]).0 < contents@.len(),
            contents@ == old(contents)@,
        decreases boosts@.len() - j,
    {
        if boosts[j].0 >= contents.len() {
            return Err(EmbedError::InvalidInput);
        }
        j = j + 1;
    }
    let mut j: usize = 0;
    while j < boosts.len()
        invariant
            j <= boosts@.len(),
            bs == boosts@.map_values(|b: (usize, i64, Vec<(u32, i64)>)| (b.0, b.1, b.2@)),
            forall|jj: int| 0 <= jj < boosts@.len() ==> (#[trigger] boosts@[jj]).0 < old(
                contents,
            )@.len(),
            forall|jj: int|
                0 <= jj < boosts@.len() ==> fx_in_range((#[trigger] boosts@[jj]).1 as int),
            contents@.len() == old(contents)@.len(),
            contents@.map_values(|v: Vec<(u32, i64)>| v@) == spec_apply_sparse_boosts(
                old(contents)@.map_values(|v: Vec<(u32, i64)>| v@),
                bs.take(j as int),
            ),
            forall|d: int, i: int|
                0 <= d < contents@.len() && 0 <= i < contents@[d]@.len() ==> fx_in_range(
                    (#[trigger] contents@[d]@[i]).1 as int,
                ),
        decreases boosts@.len() - j,
    {
        let ghost prev = contents@.map_values(|v: Vec<(u32, i64)>| v@);
        let (og, factor, bvec) = &boosts[j];
        proof {
            lemma_apply_sparse_boosts_len(
                old(contents)@.map_values(|v: Vec<(u32, i64)>| v@),
                bs.take(j as int),
            );
            assert(bs.take(j + 1).drop_last() =~= bs.take(j as int));
            assert(bs.take(j + 1).last() == bs[j as int]);
            assert(bs[j as int] == (
                boosts@[j as int].0,
                boosts@[j as int].1,
                (boosts@[j as int].2)@,
            ));
            assert(contents@[boosts@[j as int].0 as int]@ == prev[boosts@[j as int].0 as int]);
        }
        let blended = blend_sparse(&contents[*og], bvec, *factor);
        contents.set(*og, blended);
        proof {
            assert(contents@.map_values(|v: Vec<(u32, i64)>| v@) =~= prev.update(
                boosts@[j as int].0 as int,
                spec_blend_sparse_i64(
                    prev[boosts@[j as int].0 as int],
                    (boosts@[j as int].2)@,
                    boosts@[j as int].1,
                ),
            ));
        }
        j = j + 1;
    }
    proof {
        assert(bs.take(bs.len() as int) =~= bs);
    }
    Ok(())
}

} // verus!
