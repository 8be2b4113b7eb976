//! Local sparse relevance vectors (BM25-style term weighting).
//!
//! Text is tokenized (lowercased, split on simple word boundaries, long
//! tokens dropped, English-stemmed), each stemmed token is mapped to a
//! stable 32-bit id, and every id is weighted by the classic saturating
//! BM25 formula.  No remote service is involved; tokenization and
//! scoring never fail.
//!
//! Weights and the parameters `avg_len`, `b` and `k` are fixed-point
//! scalars (see [`crate::fixed`]).

use vstd::prelude::*;

use crate::fixed::fx_in_range;
use crate::fixed::fx_mul;
use crate::fixed::fx_scale;
use crate::fixed::FX_MAX;
use crate::fixed::FX_SCALE;

verus! {

use vstd::arithmetic::div_mod::lemma_div_is_ordered;
use vstd::arithmetic::div_mod::lemma_div_multiples_vanish;
use vstd::arithmetic::div_mod::lemma_div_pos_is_pos;
use vstd::arithmetic::div_mod::lemma_fundamental_div_mod;
use vstd::arithmetic::div_mod::lemma_multiply_divide_le;

/// A phrase whose tokens emphasise matching terms of the base text: every
/// token id of the phrase that already occurs in the base document has
/// its weight multiplied by `boost_factor`.  Phrase tokens absent from
/// the base document are dropped, not injected.
#[derive(Clone, Debug)]
pub struct BoostPhrase {
    /// The text whose tokens are emphasised.
    pub phrase: String,
    /// Fixed-point multiplier applied to matching weights.
    pub boost_factor: i64,
}

/// The token sequence that the tokenizer produces for a text: lowercase,
/// split on simple word boundaries, tokens of 40 bytes or more dropped,
/// English stemming applied.  Deterministic in the text alone.
pub uninterp spec fn tokens_of(text: Seq<char>) -> Seq<Seq<char>>;

/// The 32-bit hash of a token's bytes.  Deterministic in the token's
/// characters alone, in every process and on every machine.
pub uninterp spec fn murmur3_of(token: Seq<char>) -> u32;

/// Relies on tantivy's tokenizer pipeline — `SimpleTokenizer`,
/// `RemoveLongFilter::limit(40)`, `LowerCaser` and the English `Stemmer`:
/// the result is a function of the text's characters alone, and the
/// tokens are drawn from non-empty disjoint runs of the text, so there
/// are never more tokens than characters.
#[verifier::external_body]
fn tokenize(text: &str) -> (r: Vec<String>)
    ensures
        r@.map_values(|t: String| t@) == tokens_of(text@),
        r@.len() <= text@.len(),
{
    let mut analyzer = tantivy::tokenizer::TextAnalyzer::builder(
        tantivy::tokenizer::SimpleTokenizer::default(),
    ).filter(tantivy::tokenizer::RemoveLongFilter::limit(40)).filter(
        tantivy::tokenizer::LowerCaser,
    ).filter(tantivy::tokenizer::Stemmer::new(tantivy::tokenizer::Language::English)).build();
    let mut stream = analyzer.token_stream(text);
    let mut tokens: Vec<String> = Vec::new();
    while stream.advance() {
        tokens.push(stream.token().text.clone());
    }
    tokens
}

/// Relies on murmur3::murmur3_32 with seed 0 over the token's bytes: a
/// pure function of the token alone; reading from an in-memory cursor
/// cannot fail.
#[verifier::external_body]
fn murmur3_hash(token: &str) -> (r: u32)
    ensures
        r == murmur3_of(token@),
{
    murmur3::murmur3_32(&mut std::io::Cursor::new(token), 0).unwrap_or(0)
}

/// The stable token id: the 32-bit hash read as a signed value, made
/// absolute, so identical tokens across independent calls always map to
/// the same id.
pub open spec fn token_id_of(token: Seq<char>) -> u32 {
    let h = murmur3_of(token);
    if h <= 0x8000_0000u32 {
        h
    } else {
        (0x1_0000_0000 - h) as u32
    }
}

/// Map a stemmed token to its stable 32-bit id.
pub fn token_id(token: &str) -> (r: u32)
    ensures
        r == token_id_of(token@),
{
    let h = murmur3_hash(token);
    if h <= 0x8000_0000u32 {
        h
    } else {
        (u32::MAX - h) + 1
    }
}

/// The ids of a token sequence, in token order.
pub open spec fn spec_ids(tokens: Seq<Seq<char>>) -> Seq<u32> {
    tokens.map_values(|t: Seq<char>| token_id_of(t))
}

/// How many entries of `s` equal `x`.
pub open spec fn spec_occurrences(s: Seq<u32>, x: u32) -> int
    decreases s.len(),
{
    if s.len() == 0 {
        0
    } else {
        spec_occurrences(s.drop_last(), x) + if s.last() == x {
            1int
        } else {
            0int
        }
    }
}

/// Occurrence counts lie between 0 and the sequence length, and are
/// positive exactly for members.
pub proof fn lemma_occurrences_bounds(s: Seq<u32>, x: u32)
    ensures
        0 <= spec_occurrences(s, x) <= s.len(),
        spec_occurrences(s, x) > 0 <==> s.contains(x),
    decreases s.len(),
{
    if s.len() > 0 {
        lemma_occurrences_bounds(s.drop_last(), x);
        assert(s.contains(x) <==> (s.last() == x || s.drop_last().contains(x))) by {
            if s.contains(x) {
                let i = choose|i: int| 0 <= i < s.len() && s[i] == x;
                if i < s.len() - 1 {
                    assert(s.drop_last()[i] == x);
                }
            }
            if s.drop_last().contains(x) {
                let i = choose|i: int| 0 <= i < s.drop_last().len() && s.drop_last()[i] == x;
                assert(s[i] == x);
            }
        }
    }
}

/// The classic BM25 saturating weight of a term with raw frequency `f`
/// in a document of `doc_len` tokens:
/// `f * (k + 1) / (f + k * (1 - b + b * doc_len / avg_len))`, stated
/// over fixed-point scalars.
pub open spec fn spec_bm25_weight(f: int, doc_len: int, avg_len: int, b: int, k: int) -> int {
    let top = f * (k + FX_SCALE);
    let len_norm = FX_SCALE - b + (b * doc_len * FX_SCALE) / (avg_len as int);
    let bottom = f * FX_SCALE + (k * len_norm) / (FX_SCALE as int);
    (top * FX_SCALE) / (bottom as int)
}

/// For non-negative values, a quotient is bounded by any value whose
/// product with the divisor bounds the dividend.
proof fn lemma_div_frac_le(x1: int, d1: int, x2: int, d2: int)
    requires
        0 <= x1,
        0 < d1,
        0 < d2,
        x1 * d2 <= x2 * d1,
    ensures
        x1 / d1 <= x2 / d2,
{
    let q1 = x1 / d1;
    lemma_fundamental_div_mod(x1, d1);
    lemma_div_pos_is_pos(x1, d1);
    assert(d1 * q1 <= x1);
    assert(q1 * d2 * d1 <= x2 * d1) by (nonlinear_arith)
        requires
            d1 * q1 <= x1,
            x1 * d2 <= x2 * d1,
            0 <= q1,
            0 < d1,
            0 < d2,
    ;
    assert(q1 * d2 <= x2) by (nonlinear_arith)
        requires
            q1 * d2 * d1 <= x2 * d1,
            0 < d1,
    ;
    lemma_div_is_ordered(q1 * d2, x2, d2);
    lemma_div_multiples_vanish(q1, d2);
    assert(q1 * d2 == d2 * q1) by (nonlinear_arith);
}

/// BM25 monotonicity: with the document length and the parameters held
/// fixed, a larger raw frequency never yields a smaller weight.
pub proof fn lemma_bm25_monotone(f1: int, f2: int, doc_len: int, avg_len: int, b: int, k: int)
    requires
        1 <= f1 <= f2,
        0 <= doc_len,
        0 < avg_len,
        0 <= b <= FX_SCALE,
        0 <= k,
    ensures
        spec_bm25_weight(f1, doc_len, avg_len, b, k) <= spec_bm25_weight(
            f2,
            doc_len,
            avg_len,
            b,
            k,
        ),
{
    let a = k + FX_SCALE;
    let len_norm = FX_SCALE - b + (b * doc_len * FX_SCALE) / avg_len;
    let c = (k * len_norm) / (FX_SCALE as int);
    let x1 = (f1 * a) * FX_SCALE;
    let x2 = (f2 * a) * FX_SCALE;
    let d1 = f1 * FX_SCALE + c;
    let d2 = f2 * FX_SCALE + c;
    assert(spec_bm25_weight(f1, doc_len, avg_len, b, k) == x1 / d1);
    assert(spec_bm25_weight(f2, doc_len, avg_len, b, k) == x2 / d2);
    assert(0 <= c) by {
        assert(0 <= b * doc_len * FX_SCALE) by (nonlinear_arith)
            requires
                0 <= b,
                0 <= doc_len,
        ;
        lemma_div_pos_is_pos(b * doc_len * FX_SCALE, avg_len);
        assert(0 <= k * len_norm) by (nonlinear_arith)
            requires
                0 <= k,
                0 <= len_norm,
        ;
        lemma_div_pos_is_pos(k * len_norm, FX_SCALE as int);
    }
    assert(0 <= x1 && 0 < d1 && 0 < d2) by (nonlinear_arith)
        requires
            1 <= f1 <= f2,
            0 <= c,
            a >= FX_SCALE,
            x1 == (f1 * a) * FX_SCALE,
            d1 == f1 * FX_SCALE + c,
            d2 == f2 * FX_SCALE + c,
            FX_SCALE == 10_000,
    ;
    assert(x1 * d2 <= x2 * d1) by (nonlinear_arith)
        requires
            1 <= f1 <= f2,
            0 <= c,
            0 <= a,
            x1 == (f1 * a) * FX_SCALE,
            x2 == (f2 * a) * FX_SCALE,
            d1 == f1 * FX_SCALE + c,
            d2 == f2 * FX_SCALE + c,
            FX_SCALE == 10_000,
    ;
    lemma_div_frac_le(x1, d1, x2, d2);
}

/// Compute the BM25 weight of one term over fixed-point scalars.
pub fn bm25_term_weight(f: usize, doc_len: usize, avg_len: i64, b: i64, k: i64) -> (r: i64)
    requires
        1 <= f <= doc_len,
        FX_SCALE <= avg_len <= FX_MAX,
        0 <= b <= FX_SCALE,
        0 <= k <= FX_MAX - FX_SCALE,
    ensures
        r as int == spec_bm25_weight(f as int, doc_len as int, avg_len as int, b as int, k as int),
        0 <= r <= k + FX_SCALE,
{
    let s: u128 = FX_SCALE as u128;
    let fu: u128 = f as u128;
    let lu: u128 = doc_len as u128;
    let av: u128 = avg_len as u128;
    let bu: u128 = b as u128;
    let ku: u128 = k as u128;
    proof {
        assert((fu as int) * ((ku + s) as int) <= 0xffff_ffff_ffff_ffff * 100_010_000_000_000int)
            by (nonlinear_arith)
            requires
                0 <= fu <= 0xffff_ffff_ffff_ffffu128,
                0 <= ku + s <= 100_010_000_000_000u128,
        ;
    }
    let top: u128 = fu * (ku + s);
    proof {
        assert(((bu * lu) as int) * (s as int) <= 0xffff_ffff_ffff_ffff * 10_000 * 10_000int
            && (bu as int) * (lu as int) <= 10_000 * 0xffff_ffff_ffff_ffff) by (nonlinear_arith)
            requires
                0 <= bu <= 10_000u128,
                0 <= lu <= 0xffff_ffff_ffff_ffffu128,
                0 <= s <= 10_000u128,
        ;
    }
    let q1: u128 = (bu * lu) * s / av;
    proof {
        assert(q1 <= bu * lu) by {
            vstd::arithmetic::div_mod::lemma_div_is_ordered_by_denominator(
                ((bu * lu) * s) as int,
                s as int,
                av as int,
            );
            vstd::arithmetic::div_mod::lemma_div_by_multiple((bu * lu) as int, s as int);
        }
    }
    let len_norm: u128 = s - bu + q1;
    proof {
        assert((ku as int) * (len_norm as int) <= 100_000_000_000_000int * (10_000
            + 10_000 * 0xffff_ffff_ffff_ffff)) by (nonlinear_arith)
            requires
                0 <= ku <= 100_000_000_000_000u128,
                0 <= len_norm <= 10_000 + 10_000 * 0xffff_ffff_ffff_ffff,
        ;
    }
    let kl: u128 = ku * len_norm;
    proof {
        assert((fu as int) * (s as int) <= 0xffff_ffff_ffff_ffff * 10_000int
            && (fu as int) * (s as int) >= s as int) by (nonlinear_arith)
            requires
                1 <= fu <= 0xffff_ffff_ffff_ffffu128,
                s == 10_000u128,
        ;
        vstd::arithmetic::div_mod::lemma_div_pos_is_pos(kl as int, s as int);
        vstd::arithmetic::div_mod::lemma_div_is_ordered(kl as int, (
        100_000_000_000_000int * (10_000 + 10_000 * 0xffff_ffff_ffff_ffff)) as int, s as int);
    }
    let bottom: u128 = fu * s + kl / s;
    proof {
        assert((top as int) * (s as int) <= (0xffff_ffff_ffff_ffff * 100_010_000_000_000int)
            * 10_000) by (nonlinear_arith)
            requires
                0 <= top <= 0xffff_ffff_ffff_ffff * 100_010_000_000_000int,
                s == 10_000u128,
        ;
    }
    let wide: u128 = top * s;
    let w: u128 = wide / bottom;
    proof {
        assert(wide <= (ku + s) * bottom) by (nonlinear_arith)
            requires
                wide == top * s,
                top == fu * (ku + s),
                bottom >= fu * s,
                0 <= ku,
                0 < s,
                0 < fu,
        ;
        lemma_multiply_divide_le(wide as int, bottom as int, (ku + s) as int);
    }
    w as i64
}

/// Count how many entries of `ids` equal `x`.
fn count_occurrences(ids: &Vec<u32>, x: u32) -> (r: usize)
    ensures
        r as int == spec_occurrences(ids@, x),
{
    let mut r: usize = 0;
    let mut i: usize = 0;
    while i < ids.len()
        invariant
            i <= ids@.len(),
            r as int == spec_occurrences(ids@.take(i as int), x),
            r <= i,
        decreases ids@.len() - i,
    {
        proof {
            assert(ids@.take(i + 1).drop_last() =~= ids@.take(i as int));
            assert(ids@.take(i + 1).last() == ids@[i as int]);
        }
        if ids[i] == x {
            r = r + 1;
        }
        i = i + 1;
    }
    proof {
        assert(ids@.take(ids@.len() as int) =~= ids@);
    }
    r
}

/// Find the position of a token id in a sparse vector under
/// construction.
fn find_id(out: &Vec<(u32, i64)>, id: u32) -> (r: Option<usize>)
    ensures
        match r {
            Some(idx) => idx < out@.len() && out@[idx as int].0 == id,
            None => forall|j: int| 0 <= j < out@.len() ==> (#[trigger] out@[j]).0 != id,
        },
{
    let mut j: usize = 0;
    while j < out.len()
        invariant
            j <= out@.len(),
            forall|jj: int| 0 <= jj < j ==> (#[trigger] out@[jj]).0 != id,
        decreases out@.len() - j,
    {
        if out[j].0 == id {
            return Some(j);
        }
        j = j + 1;
    }
    None
}

/// The BM25 weight map of a document given as its id sequence: every id
/// that occurs is weighted by its raw frequency.
pub open spec fn spec_doc_weights(ids: Seq<u32>, avg_len: int, b: int, k: int) -> Map<u32, int> {
    Map::new(
        |id: u32| ids.contains(id),
        |id: u32| spec_bm25_weight(spec_occurrences(ids, id), ids.len() as int, avg_len, b, k),
    )
}

/// One boost token applied to a weight map: a matching id has its weight
/// multiplied by the factor, any other token is dropped.
pub open spec fn spec_boost_step(m: Map<u32, int>, id: u32, factor: i64) -> Map<u32, int> {
    if m.dom().contains(id) {
        m.insert(id, fx_mul(m[id], factor as int))
    } else {
        m
    }
}

/// All boost tokens applied in order.
pub open spec fn spec_apply_boosts(m: Map<u32, int>, boost_ids: Seq<u32>, factor: i64) -> Map<
    u32,
    int,
>
    decreases boost_ids.len(),
{
    if boost_ids.len() == 0 {
        m
    } else {
        spec_apply_boosts(spec_boost_step(m, boost_ids[0], factor), boost_ids.drop_first(), factor)
    }
}

/// Applying one more boost token at the end equals one step on the
/// result so far.
proof fn lemma_apply_boosts_snoc(m: Map<u32, int>, s: Seq<u32>, x: u32, factor: i64)
    ensures
        spec_apply_boosts(m, s.push(x), factor) == spec_boost_step(
            spec_apply_boosts(m, s, factor),
            x,
            factor,
        ),
    decreases s.len(),
{
    if s.len() == 0 {
        assert(s.push(x).drop_first() =~= Seq::<u32>::empty());
        assert(s.push(x)[0] == x);
        assert(spec_apply_boosts(m, s, factor) == m);
        assert(spec_apply_boosts(m, s.push(x), factor) == spec_apply_boosts(
            spec_boost_step(m, x, factor),
            s.push(x).drop_first(),
            factor,
        ));
    } else {
        assert(s.push(x).drop_first() =~= s.drop_first().push(x));
        assert(s.push(x)[0] == s[0]);
        lemma_apply_boosts_snoc(spec_boost_step(m, s[0], factor), s.drop_first(), x, factor);
        assert(spec_apply_boosts(m, s.push(x), factor) == spec_apply_boosts(
            spec_boost_step(m, s[0], factor),
            s.drop_first().push(x),
            factor,
        ));
        assert(spec_apply_boosts(m, s, factor) == spec_apply_boosts(
            spec_boost_step(m, s[0], factor),
            s.drop_first(),
            factor,
        ));
    }
}

/// Whether the sparse vector `v` holds an entry for token id `id`.
pub open spec fn covered(v: Seq<(u32, i64)>, id: u32) -> bool {
    exists|i: int| 0 <= i < v.len() && (#[trigger] v[i]).0 == id
}

/// A sparse vector is the graph of a weight map: its ids are distinct,
/// every entry carries the weight the map assigns, and every id of the
/// map appears.  The order of entries carries no meaning.
pub open spec fn weights_match(v: Seq<(u32, i64)>, m: Map<u32, int>) -> bool {
    &&& v.map_values(|p: (u32, i64)| p.0).no_duplicates()
    &&& forall|i: int|
        0 <= i < v.len() ==> m.dom().contains((#[trigger] v[i]).0) && v[i].1 as int == m[v[i].0]
    &&& forall|id: u32| m.dom().contains(id) ==> #[trigger] covered(v, id)
}

/// The sparse BM25 vector of one document, as a weight map: token
/// weights by raw frequency, then every boost-phrase token id already
/// present multiplied by the boost factor.
pub open spec fn spec_doc_sparse(
    tokens: Seq<Seq<char>>,
    boost: Option<BoostPhrase>,
    avg_len: i64,
    b: i64,
    k: i64,
) -> Map<u32, int> {
    let m0 = spec_doc_weights(spec_ids(tokens), avg_len as int, b as int, k as int);
    match boost {
        Some(bp) => spec_apply_boosts(m0, spec_ids(tokens_of(bp.phrase@)), bp.boost_factor),
        None => m0,
    }
}

/// Compute the sparse BM25 vector of one tokenized document, applying
/// its boost phrase if present.
fn doc_sparse_vector(tokens: &Vec<String>, boost: &Option<BoostPhrase>, avg_len: i64, b: i64, k: i64) -> (r: Vec<(u32, i64)>)
    requires
        FX_SCALE <= avg_len <= FX_MAX,
        0 <= b <= FX_SCALE,
        0 <= k <= FX_MAX - FX_SCALE,
        boost matches Some(bp) ==> fx_in_range(bp.boost_factor as int),
    ensures
        weights_match(
            r@,
            spec_doc_sparse(tokens@.map_values(|t: String| t@), *boost, avg_len, b, k),
        ),
        forall|i: int| 0 <= i < r@.len() ==> fx_in_range((#[trigger] r@[i]).1 as int),
{
    let ghost tv = tokens@.map_values(|t: String| t@);
    let mut ids: Vec<u32> = Vec::new();
    let mut i: usize = 0;
    while i < tokens.len()
        invariant
            i <= tokens@.len(),
            ids@.len() == i,
            forall|j: int| 0 <= j < i ==> #[trigger] ids@[j] == token_id_of(tokens@[j]@),
        decreases tokens@.len() - i,
    {
        let id = token_id(tokens[i].as_str());
        ids.push(id);
        i = i + 1;
    }
    proof {
        assert(ids@ =~= spec_ids(tv));
    }
    let ghost m = spec_doc_weights(ids@, avg_len as int, b as int, k as int);
    let mut out: Vec<(u32, i64)> = Vec::new();
    let mut i: usize = 0;
    while i < ids.len()
        invariant
            i <= ids@.len(),
            m == spec_doc_weights(ids@, avg_len as int, b as int, k as int),
            FX_SCALE <= avg_len <= FX_MAX,
            0 <= b <= FX_SCALE,
            0 <= k <= FX_MAX - FX_SCALE,
            out@.map_values(|p: (u32, i64)| p.0).no_duplicates(),
            forall|j: int|
                0 <= j < out@.len() ==> m.dom().contains((#[trigger] out@[j]).0) && out@[j].1 as int
                    == m[out@[j].0] && fx_in_range(out@[j].1 as int),
            forall|pos: int| 0 <= pos < i ==> #[trigger] covered(out@, ids@[pos]),
        decreases ids@.len() - i,
    {
        let id = ids[i];
        let ghost prev = out@;
        match find_id(&out, id) {
            Some(idx) => {
                proof {
                    assert(out@[idx as int].0 == id);
                    assert(covered(out@, id));
                }
            },
            None => {
                let f = count_occurrences(&ids, id);
                proof {
                    assert(ids@.contains(id));
                    lemma_occurrences_bounds(ids@, id);
                }
                let w = bm25_term_weight(f, ids.len(), avg_len, b, k);
                out.push((id, w));
                proof {
                    assert(out@.map_values(|p: (u32, i64)| p.0) =~= prev.map_values(
                        |p: (u32, i64)| p.0,
                    ).push(id));
                    assert(forall|j: int|
                        0 <= j < prev.len() ==> prev.map_values(|p: (u32, i64)| p.0)[j] == (
                        #[trigger] prev[j]).0);
                    assert(out@[out@.len() - 1].0 == id);
                    assert(covered(out@, id));
                    assert forall|pos: int|
                        0 <= pos < i implies #[trigger] covered(out@, ids@[pos]) by {
                        assert(covered(prev, ids@[pos]));
                        let jj = choose|jj: int|
                            0 <= jj < prev.len() && (#[trigger] prev[jj]).0 == ids@[pos];
                        assert(out@[jj].0 == ids@[pos]);
                    }
                }
            },
        }
        i = i + 1;
        proof {
            assert forall|pos: int| 0 <= pos < i implies #[trigger] covered(out@, ids@[pos]) by {
                if pos == i - 1 {
                    assert(ids@[pos] == id);
                    assert(covered(out@, id));
                } else {
                    assert(covered(out@, ids@[pos]));
                }
            }
        }
    }
    proof {
        assert forall|id: u32| m.dom().contains(id) implies #[trigger] covered(out@, id) by {
            let pos = choose|pos: int| 0 <= pos < ids@.len() && ids@[pos] == id;
            assert(covered(out@, ids@[pos]));
        }
        assert(weights_match(out@, m));
    }
    match boost {
        None => out,
        Some(bp) => {
            let btokens = tokenize(bp.phrase.as_str());
            let ghost bids = spec_ids(tokens_of(bp.phrase@));
            proof {
                assert(btokens@.map_values(|t: String| t@) == tokens_of(bp.phrase@));
            }
            let factor = bp.boost_factor;
            let mut j: usize = 0;
            while j < btokens.len()
                invariant
                    j <= btokens@.len(),
                    bids == spec_ids(tokens_of(bp.phrase@)),
                    btokens@.map_values(|t: String| t@) == tokens_of(bp.phrase@),
                    bids.len() == btokens@.len(),
                    fx_in_range(factor as int),
                    forall|jj: int|
                        0 <= jj < btokens@.len() ==> #[trigger] bids[jj] == token_id_of(
                            btokens@[jj]@,
                        ),
                    weights_match(out@, spec_apply_boosts(m, bids.take(j as int), factor)),
                    forall|jj: int|
                        0 <= jj < out@.len() ==> fx_in_range((#[trigger] out@[jj]).1 as int),
                decreases btokens@.len() - j,
            {
                let ghost mm = spec_apply_boosts(m, bids.take(j as int), factor);
                let id = token_id(btokens[j].as_str());
                proof {
                    assert(bids[j as int] == id);
                    assert(bids.take(j + 1).drop_last() =~= bids.take(j as int));
                    assert(bids.take(j + 1) =~= bids.take(j as int).push(id));
                    lemma_apply_boosts_snoc(m, bids.take(j as int), id, factor);
                }
                match find_id(&out, id) {
                    Some(idx) => {
                        let p = out[idx];
                        let nw = fx_scale(p.1, factor);
                        let ghost prev = out@;
                        out.set(idx, (id, nw));
                        proof {
                            assert(mm.dom().contains(id));
                            let mm2 = spec_boost_step(mm, id, factor);
                            assert(mm2 == mm.insert(id, fx_mul(mm[id], factor as int)));
                            assert(out@.map_values(|p: (u32, i64)| p.0) =~= prev.map_values(
                                |p: (u32, i64)| p.0,
                            ));
                            assert forall|jj: int|
                                0 <= jj < out@.len() implies mm2.dom().contains(
                                (#[trigger] out@[jj]).0,
                            ) && out@[jj].1 as int == mm2[out@[jj].0] by {
                                if jj != idx {
                                    assert(prev[jj] == out@[jj]);
                                    assert(prev.map_values(|p: (u32, i64)| p.0)[jj] == prev[jj].0);
                                    assert(prev.map_values(|p: (u32, i64)| p.0)[idx as int]
                                        == prev[idx as int].0);
                                    assert(out@[jj].0 != id);
                                }
                            }
                            assert forall|idv: u32| mm2.dom().contains(idv) implies
                                #[trigger] covered(out@, idv) by {
                                assert(mm.dom().contains(idv));
                                assert(covered(prev, idv));
                                let jj = choose|jj: int|
                                    0 <= jj < prev.len() && (#[trigger] prev[jj]).0 == idv;
                                if jj == idx {
                                    assert(out@[jj].0 == id);
                                    assert(prev[jj].0 == idv);
                                    assert(out@[jj].0 == idv);
                                } else {
                                    assert(out@[jj].0 == idv);
                                }
                            }
                            assert(weights_match(out@, mm2));
                        }
                    },
                    None => {
                        proof {
                            assert(!mm.dom().contains(id)) by {
                                if mm.dom().contains(id) {
                                    assert(covered(out@, id));
                                    let jj = choose|jj: int|
                                        0 <= jj < out@.len() && (#[trigger] out@[jj]).0 == id;
                                }
                            }
                            assert(spec_boost_step(mm, id, factor) == mm);
                        }
                    },
                }
                j = j + 1;
            }
            proof {
                assert(bids.take(bids.len() as int) =~= bids);
            }
            out
        },
    }
}

/// Tokenize a batch of texts, keeping each text's boost phrase
/// untouched beside its tokens.
pub fn tokenize_batch(chunks: Vec<(String, Option<BoostPhrase>)>) -> (r: Vec<
    (Vec<String>, Option<BoostPhrase>),
>)
    ensures
        r@.len() == chunks@.len(),
        forall|i: int|
            0 <= i < r@.len() ==> (#[trigger] r@[i]).0@.map_values(|t: String| t@) == tokens_of(
                chunks@[i].0@,
            ) && r@[i].1 == chunks@[i].1,
{
    let mut out: Vec<(Vec<String>, Option<BoostPhrase>)> = Vec::new();
    let mut rest = chunks;
    while rest.len() > 0
        invariant
            out@.len() + rest@.len() == chunks@.len(),
            rest@ == chunks@.skip(out@.len() as int),
            forall|i: int|
                0 <= i < out@.len() ==> (#[trigger] out@[i]).0@.map_values(|t: String| t@)
                    == tokens_of(chunks@[i].0@) && out@[i].1 == chunks@[i].1,
        decreases rest@.len(),
    {
        let ghost prev = rest@;
        let (text, boost) = rest.remove(0);
        proof {
            assert(rest@ =~= prev.drop_first());
            assert(prev[0] == chunks@[out@.len() as int]);
        }
        let tokens = tokenize(text.as_str());
        out.push((tokens, boost));
        proof {
            assert(rest@ =~= chunks@.skip(out@.len() as int));
        }
    }
    out
}

/// Compute the sparse BM25 vectors of a batch of tokenized documents.
/// Never fails and never calls a remote service.
pub fn term_frequency(
    batched_tokens: Vec<(Vec<String>, Option<BoostPhrase>)>,
    avg_len: i64,
    b: i64,
    k: i64,
) -> (r: Vec<Vec<(u32, i64)>>)
    requires
        FX_SCALE <= avg_len <= FX_MAX,
        0 <= b <= FX_SCALE,
        0 <= k <= FX_MAX - FX_SCALE,
        forall|d: int|
            0 <= d < batched_tokens@.len() ==> ((#[trigger] batched_tokens@[d].1) matches Some(bp)
                ==> fx_in_range(bp.boost_factor as int)),
    ensures
        r@.len() == batched_tokens@.len(),
        forall|d: int|
            0 <= d < r@.len() ==> weights_match(
                (#[trigger] r@[d])@,
                spec_doc_sparse(
                    batched_tokens@[d].0@.map_values(|t: String| t@),
                    batched_tokens@[d].1,
                    avg_len,
                    b,
                    k,
                ),
            ),
        forall|d: int, i: int|
            0 <= d < r@.len() && 0 <= i < r@[d]@.len() ==> fx_in_range(
                (#[trigger] r@[d]@[i]).1 as int,
            ),
{
    let mut out: Vec<Vec<(u32, i64)>> = Vec::new();
    let mut rest = batched_tokens;
    while rest.len() > 0
        invariant
            FX_SCALE <= avg_len <= FX_MAX,
            0 <= b <= FX_SCALE,
            0 <= k <= FX_MAX - FX_SCALE,
            out@.len() + rest@.len() == batched_tokens@.len(),
            rest@ == batched_tokens@.skip(out@.len() as int),
            forall|d: int|
                0 <= d < batched_tokens@.len() ==> ((#[trigger] batched_tokens@[d].1) matches Some(
                    bp,
                ) ==> fx_in_range(bp.boost_factor as int)),
            forall|d: int|
                0 <= d < out@.len() ==> weights_match(
                    (#[trigger] out@[d])@,
                    spec_doc_sparse(
                        batched_tokens@[d].0@.map_values(|t: String| t@),
                        batched_tokens@[d].1,
                        avg_len,
                        b,
                        k,
                    ),
                ),
            forall|d: int, i: int|
                0 <= d < out@.len() && 0 <= i < out@[d]@.len() ==> fx_in_range(
                    (#[trigger] out@[d]@[i]).1 as int,
                ),
        decreases rest@.len(),
    {
        let ghost prev = rest@;
        let (tokens, boost) = rest.remove(0);
        proof {
            assert(rest@ =~= prev.drop_first());
            assert(prev[0] == batched_tokens@[out@.len() as int]);
        }
        let v = doc_sparse_vector(&tokens, &boost, avg_len, b, k);
        out.push(v);
        proof {
            assert(rest@ =~= batched_tokens@.skip(out@.len() as int));
        }
    }
    out
}

/// Compute sparse BM25 vectors for raw texts with optional boost
/// phrases: tokenize each text, weight each token id, then apply the
/// boost phrase.  Purely local and deterministic.
pub fn get_bm25_embeddings(
    chunks_and_boost: Vec<(String, Option<BoostPhrase>)>,
    avg_len: i64,
    b: i64,
    k: i64,
) -> (r: Vec<Vec<(u32, i64)>>)
    requires
        FX_SCALE <= avg_len <= FX_MAX,
        0 <= b <= FX_SCALE,
        0 <= k <= FX_MAX - FX_SCALE,
        forall|d: int|
            0 <= d < chunks_and_boost@.len() ==> ((#[trigger] chunks_and_boost@[d].1) matches Some(
                bp,
            ) ==> fx_in_range(bp.boost_factor as int)),
    ensures
        r@.len() == chunks_and_boost@.len(),
        forall|d: int|
            0 <= d < r@.len() ==> weights_match(
                (#[trigger] r@[d])@,
                spec_doc_sparse(
                    tokens_of(chunks_and_boost@[d].0@),
                    chunks_and_boost@[d].1,
                    avg_len,
                    b,
                    k,
                ),
            ),
        forall|d: int, i: int|
            0 <= d < r@.len() && 0 <= i < r@[d]@.len() ==> fx_in_range(
                (#[trigger] r@[d]@[i]).1 as int,
            ),
{
    let tokenized = tokenize_batch(chunks_and_boost);
    term_frequency(tokenized, avg_len, b, k)
}

} // verus!
