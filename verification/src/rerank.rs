//! Cross-encoder reranking.
//!
//! A query and a set of scored candidates are turned into one or more
//! rerank requests (one single-shot call for small sets, concurrent
//! chunked calls otherwise), the per-chunk index-tagged scores are merged
//! back into the candidates, and the candidates are sorted by descending
//! score and truncated to the requested page size.  An empty candidate
//! set short-circuits to an empty result without any remote call.

use vstd::prelude::*;

use crate::batch::spec_split;
use crate::batch::split_into_groups;
use crate::batch::RERANK_GROUP_SIZE;
use crate::error::EmbedError;

verus! {

use crate::batch::lemma_split_count;
use vstd::multiset::Multiset;
use vstd::seq_lib::to_multiset_insert;

/// A retrieval result whose `score` alone is rewritten by reranking.
#[derive(Clone, Debug)]
pub struct ScoredCandidate {
    /// The candidate's text, as handed to the cross-encoder.
    pub text: String,
    /// Fixed-point relevance score.
    pub score: i64,
}

/// One score returned by the rerank capability; `index` refers to the
/// position of the scored text within the request's `texts`.
#[derive(Clone, Copy, Debug, PartialEq, Eq, Structural)]
pub struct ScorePair {
    /// Position within the rerank request this score belongs to.
    pub index: usize,
    /// Fixed-point relevance score.
    pub score: i64,
}

/// The payload of one rerank call.
#[derive(Clone, Debug)]
pub struct CrossEncoderData {
    /// The query each text is scored against.
    pub query: String,
    /// The candidate texts, at most `RERANK_GROUP_SIZE` of them.
    pub texts: Vec<String>,
    /// Ask the remote side to truncate over-long inputs.
    pub truncate: bool,
}

/// Build the rerank requests for a candidate set: none for an empty set,
/// and otherwise one request per consecutive chunk of at most
/// `RERANK_GROUP_SIZE` texts, in order.
pub fn build_rerank_requests(query: &str, texts: Vec<String>) -> (r: Vec<CrossEncoderData>)
    ensures
        r@.map_values(|d: CrossEncoderData| d.texts@) == spec_split(
            texts@,
            RERANK_GROUP_SIZE as int,
        ),
        r@.len() == (texts@.len() + RERANK_GROUP_SIZE - 1) / (RERANK_GROUP_SIZE as int),
        texts@.len() == 0 ==> r@.len() == 0,
        forall|i: int|
            0 <= i < r@.len() ==> (#[trigger] r@[i]).query@ == query@ && r@[i].truncate,
{
    proof {
        lemma_split_count(texts@, RERANK_GROUP_SIZE as int);
    }
    let chunks = split_into_groups(texts, RERANK_GROUP_SIZE);
    let mut out: Vec<CrossEncoderData> = Vec::new();
    let mut rest = chunks;
    let ghost all = chunks@.map_values(|grp: Vec<String>| grp@);
    while rest.len() > 0
        invariant
            out@.len() + rest@.len() == all.len(),
            out@.map_values(|d: CrossEncoderData| d.texts@) + rest@.map_values(
                |grp: Vec<String>| grp@,
            ) == all,
            forall|i: int|
                0 <= i < out@.len() ==> (#[trigger] out@[i]).query@ == query@ && out@[i].truncate,
        decreases rest@.len(),
    {
        let ghost prev_out = out@;
        let ghost prev_rest = rest@;
        let chunk = rest.remove(0);
        out.push(CrossEncoderData { query: String::from_str(query), texts: chunk, truncate: true });
        proof {
            assert(rest@ =~= prev_rest.drop_first());
            assert(out@.map_values(|d: CrossEncoderData| d.texts@) =~= prev_out.map_values(
                |d: CrossEncoderData| d.texts@,
            ).push(prev_rest[0]@));
            assert(out@.map_values(|d: CrossEncoderData| d.texts@) + rest@.map_values(
                |grp: Vec<String>| grp@,
            ) =~= all);
        }
    }
    proof {
        assert(out@.map_values(|d: CrossEncoderData| d.texts@) =~= all);
    }
    out
}

/// Whether every returned score points inside the candidate range
/// `[offset, len)`.
pub open spec fn scores_in_bounds(scores: Seq<ScorePair>, offset: int, len: int) -> bool {
    forall|i: int| 0 <= i < scores.len() ==> offset + (#[trigger] scores[i]).index < len
}

/// The candidates after the scores of one chunk are merged in: the entry
/// at `offset + index` takes the returned score and keeps its text.
pub open spec fn spec_apply_scores(
    c: Seq<ScoredCandidate>,
    offset: int,
    scores: Seq<ScorePair>,
) -> Seq<ScoredCandidate>
    decreases scores.len(),
{
    if scores.len() == 0 {
        c
    } else {
        let c1 = spec_apply_scores(c, offset, scores.drop_last());
        let p = scores.last();
        if 0 <= offset && offset + p.index < c1.len() {
            c1.update(
                offset + p.index,
                ScoredCandidate { text: c1[offset + p.index].text, score: p.score },
            )
        } else {
            c1
        }
    }
}

/// Applying scores never changes the number of candidates.
pub proof fn lemma_apply_scores_len(c: Seq<ScoredCandidate>, offset: int, scores: Seq<ScorePair>)
    ensures
        spec_apply_scores(c, offset, scores).len() == c.len(),
    decreases scores.len(),
{
    if scores.len() > 0 {
        lemma_apply_scores_len(c, offset, scores.drop_last());
    }
}

/// Merge the index-tagged scores of one chunk into the candidates, at
/// the chunk's offset.  A score pointing outside the candidates is a
/// shape mismatch and leaves them untouched.
pub fn apply_scores(
    candidates: &mut Vec<ScoredCandidate>,
    offset: usize,
    scores: &Vec<ScorePair>,
) -> (r: Result<(), EmbedError>)
    ensures
        match r {
            Ok(()) => {
                &&& scores_in_bounds(scores@, offset as int, old(candidates)@.len() as int)
                &&& final(candidates)@ == spec_apply_scores(
                    old(candidates)@,
                    offset as int,
                    scores@,
                )
            },
            Err(e) => {
                &&& !scores_in_bounds(scores@, offset as int, old(candidates)@.len() as int)
                &&& e == EmbedError::ResponseShapeMismatch
                &&& final(candidates)@ == old(candidates)@
            },
        },
{
    let mut i: usize = 0;
    while i < scores.len()
        invariant
            i <= scores@.len(),
            forall|j: int|
                0 <= j < i ==> offset + (#[trigger] scores@[j]).index < candidates@.len(),
            candidates@ == old(candidates)@,
        decreases scores@.len() - i,
    {
        if scores[i].index >= candidates.len() || offset > candidates.len() - 1 - scores[i].index {
            return Err(EmbedError::ResponseShapeMismatch);
        }
        i = i + 1;
    }
    let mut i: usize = 0;
    while i < scores.len()
        invariant
            i <= scores@.len(),
            scores_in_bounds(scores@, offset as int, old(candidates)@.len() as int),
            candidates@.len() == old(candidates)@.len(),
            candidates@ == spec_apply_scores(old(candidates)@, offset as int, scores@.take(i as int)),
        decreases scores@.len() - i,
    {
        let ghost prev = candidates@;
        let p = scores[i];
        let len_now = candidates.len();
        proof {
            lemma_apply_scores_len(old(candidates)@, offset as int, scores@.take(i as int));
            assert(scores@.take(i + 1).drop_last() =~= scores@.take(i as int));
            assert(scores@.take(i + 1).last() == scores@[i as int]);
            assert(offset + (scores@[i as int]).index < len_now);
        }
        let pos = offset + p.index;
        let text = candidates[pos].text.clone();
        candidates.set(pos, ScoredCandidate { text, score: p.score });
        i = i + 1;
    }
    proof {
        assert(scores@.take(scores@.len() as int) =~= scores@);
    }
    Ok(())
}

/// Descending order by score.
pub open spec fn sorted_desc(s: Seq<ScoredCandidate>) -> bool {
    forall|i: int, j: int| 0 <= i < j < s.len() ==> (#[trigger] s[i]).score >= (#[trigger] s[j]).score
}

/// Sort candidates by descending score.  Ties are broken arbitrarily;
/// the result is a permutation of the input.
pub fn sort_by_score_desc(candidates: Vec<ScoredCandidate>) -> (r: Vec<ScoredCandidate>)
    ensures
        sorted_desc(r@),
        r@.to_multiset() == candidates@.to_multiset(),
{
    let mut out: Vec<ScoredCandidate> = Vec::new();
    let mut rest = candidates;
    proof {
        broadcast use vstd::seq_lib::group_to_multiset_ensures;

        assert(out@.to_multiset() =~= Multiset::<ScoredCandidate>::empty());
        assert(out@.to_multiset().add(rest@.to_multiset()) =~= candidates@.to_multiset());
    }
    while rest.len() > 0
        invariant
            sorted_desc(out@),
            out@.to_multiset().add(rest@.to_multiset()) == candidates@.to_multiset(),
        decreases rest@.len(),
    {
        let ghost prev_out = out@;
        let ghost prev_rest = rest@;
        let x = rest.remove(0);
        let mut pos: usize = 0;
        while pos < out.len() && out[pos].score >= x.score
            invariant
                pos <= out@.len(),
                forall|j: int| 0 <= j < pos ==> (#[trigger] out@[j]).score >= x.score,
                out@ == prev_out,
            decreases out@.len() - pos,
        {
            pos = pos + 1;
        }
        out.insert(pos, x);
        proof {
            assert forall|i: int, j: int|
                0 <= i < j < out@.len() implies (#[trigger] out@[i]).score >= (
            #[trigger] out@[j]).score by {
                if i < pos && j == pos {
                    assert(prev_out[i] == out@[i]);
                } else if i == pos && j > pos {
                    assert(out@[j] == prev_out[j - 1]);
                    assert(pos < prev_out.len());
                    assert(prev_out[pos as int].score < x.score);
                    assert(prev_out[j - 1].score <= prev_out[pos as int].score);
                } else if i < pos && j > pos {
                    assert(out@[i] == prev_out[i]);
                    assert(out@[j] == prev_out[j - 1]);
                } else if j < pos {
                    assert(out@[i] == prev_out[i] && out@[j] == prev_out[j]);
                }
            }
            to_multiset_insert(prev_out, pos as int, x);
            prev_rest.to_multiset_ensures();
            assert(rest@ =~= prev_rest.drop_first());
            assert(prev_rest.to_multiset() =~= rest@.to_multiset().insert(x)) by {
                assert(prev_rest.remove(0) =~= prev_rest.drop_first());
                prev_rest.to_multiset_ensures();
                assert(prev_rest.remove(0).to_multiset() =~= prev_rest.to_multiset().remove(x));
                assert(prev_rest.to_multiset().contains(x)) by {
                    assert(prev_rest.contains(x));
                }
            }
            assert(out@.to_multiset().add(rest@.to_multiset()) =~= candidates@.to_multiset());
        }
    }
    proof {
        broadcast use vstd::seq_lib::group_to_multiset_ensures;

        assert(rest@.to_multiset() =~= Multiset::<ScoredCandidate>::empty());
        assert(out@.to_multiset().add(rest@.to_multiset()) =~= out@.to_multiset());
    }
    out
}

/// The candidates after the scores of chunks `idx ..` are merged in,
/// chunk `i` at offset `i * RERANK_GROUP_SIZE`.
pub open spec fn spec_apply_chunks_from(
    c: Seq<ScoredCandidate>,
    chunks: Seq<Seq<ScorePair>>,
    idx: int,
) -> Seq<ScoredCandidate>
    decreases chunks.len() - idx,
    when idx >= 0
{
    if idx >= chunks.len() {
        c
    } else {
        spec_apply_chunks_from(
            spec_apply_scores(c, idx * RERANK_GROUP_SIZE, chunks[idx]),
            chunks,
            idx + 1,
        )
    }
}

/// Whether every chunk's scores point inside the candidate range, each
/// chunk at its own offset.
pub open spec fn chunks_in_bounds(chunks: Seq<Seq<ScorePair>>, len: int) -> bool {
    forall|i: int|
        0 <= i < chunks.len() ==> scores_in_bounds(
            #[trigger] chunks[i],
            i * RERANK_GROUP_SIZE,
            len,
        )
}

/// Whether `out` is the top page of `scored`: the first entries of some
/// descending ordering of all of `scored`.
pub open spec fn is_top_page(
    out: Seq<ScoredCandidate>,
    scored: Seq<ScoredCandidate>,
    page: int,
) -> bool {
    exists|full: Seq<ScoredCandidate>|
        {
            &&& #[trigger] full.to_multiset() == scored.to_multiset()
            &&& sorted_desc(full)
            &&& out == full.take(vstd::math::min(page, scored.len() as int))
        }
}

/// Finish a rerank: merge every chunk's index-tagged scores back into
/// the candidates at the chunk's offset, sort by descending score (ties
/// broken arbitrarily) and keep the first `page_size` entries.  An empty
/// candidate set yields an empty result.
pub fn finish_rerank(
    candidates: Vec<ScoredCandidate>,
    chunk_scores: Vec<Vec<ScorePair>>,
    page_size: usize,
) -> (r: Result<Vec<ScoredCandidate>, EmbedError>)
    requires
        chunk_scores@.len() * (RERANK_GROUP_SIZE as int) <= usize::MAX,
    ensures
        match r {
            Ok(out) => {
                let chunks = chunk_scores@.map_values(|ch: Vec<ScorePair>| ch@);
                let scored = spec_apply_chunks_from(candidates@, chunks, 0);
                &&& chunks_in_bounds(chunks, candidates@.len() as int)
                &&& out@.len() == vstd::math::min(page_size as int, candidates@.len() as int)
                &&& sorted_desc(out@)
                &&& is_top_page(out@, scored, page_size as int)
            },
            Err(e) => {
                &&& !chunks_in_bounds(
                    chunk_scores@.map_values(|ch: Vec<ScorePair>| ch@),
                    candidates@.len() as int,
                )
                &&& e == EmbedError::ResponseShapeMismatch
            },
        },
{
    let ghost orig = candidates@;
    let ghost chunks = chunk_scores@.map_values(|ch: Vec<ScorePair>| ch@);
    let mut cur = candidates;
    let mut cidx: usize = 0;
    while cidx < chunk_scores.len()
        invariant
            cidx <= chunk_scores@.len(),
            orig == candidates@,
            chunks == chunk_scores@.map_values(|ch: Vec<ScorePair>| ch@),
            chunk_scores@.len() * (RERANK_GROUP_SIZE as int) <= usize::MAX,
            cur@.len() == orig.len(),
            spec_apply_chunks_from(orig, chunks, 0) == spec_apply_chunks_from(
                cur@,
                chunks,
                cidx as int,
            ),
            forall|i: int|
                0 <= i < cidx ==> scores_in_bounds(
                    #[trigger] chunks[i],
                    i * RERANK_GROUP_SIZE,
                    orig.len() as int,
                ),
        decreases chunk_scores@.len() - cidx,
    {
        proof {
            assert((cidx as int) * (RERANK_GROUP_SIZE as int) <= chunk_scores@.len() * (
            RERANK_GROUP_SIZE as int)) by (nonlinear_arith)
                requires
                    0 <= cidx < chunk_scores@.len(),
                    0 < RERANK_GROUP_SIZE,
            ;
        }
        let offset = cidx * RERANK_GROUP_SIZE;
        let ghost before = cur@;
        let res = apply_scores(&mut cur, offset, &chunk_scores[cidx]);
        match res {
            Ok(()) => {
                proof {
                    lemma_apply_scores_len(before, offset as int, chunks[cidx as int]);
                }
            },
            Err(e) => {
                proof {
                    assert(!scores_in_bounds(
                        chunks[cidx as int],
                        (cidx as int) * RERANK_GROUP_SIZE,
                        orig.len() as int,
                    ));
                    assert(!chunks_in_bounds(chunks, orig.len() as int));
                }
                return Err(e);
            },
        }
        cidx = cidx + 1;
    }
    let ghost scored = cur@;
    proof {
        assert(spec_apply_chunks_from(orig, chunks, 0) == scored);
    }
    let n = cur.len();
    let sorted = sort_by_score_desc(cur);
    let ghost full = sorted@;
    let keep = if page_size < n {
        page_size
    } else {
        n
    };
    let mut out = sorted;
    out.truncate(keep);
    proof {
        broadcast use vstd::seq_lib::group_to_multiset_ensures;

        assert(full.len() == scored.len()) by {
            full.to_multiset_ensures();
            scored.to_multiset_ensures();
        }
        assert(out@ == full.take(vstd::math::min(page_size as int, scored.len() as int)));
        assert(is_top_page(out@, scored, page_size as int));
        assert forall|i: int, j: int|
            0 <= i < j < out@.len() implies (#[trigger] out@[i]).score >= (
        #[trigger] out@[j]).score by {
            assert(out@[i] == full[i] && out@[j] == full[j]);
        }
    }
    Ok(out)
}

} // verus!
