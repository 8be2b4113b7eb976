//! Batch orchestration.
//!
//! Large ordered inputs are split into consecutive groups of bounded size,
//! each group is tagged with its position, the groups are dispatched
//! concurrently by a host, and the per-group results are reassembled here
//! in tag order — so the output order matches the input order no matter in
//! which order the remote calls complete.  A batched call is atomic: the
//! first failed group fails the whole call.

use vstd::prelude::*;

use crate::error::EmbedError;

verus! {

use vstd::seq_lib::lemma_flatten_concat;

/// Group size for batched embedding calls.
pub const EMBED_GROUP_SIZE: usize = 30;

/// Group size for single-shot rerank calls.
pub const RERANK_GROUP_SIZE: usize = 20;

/// Upper bound on concurrently outstanding calls on the streaming
/// transport.
pub const STREAM_MAX_IN_FLIGHT: usize = 5;

/// Streamed responses are coalesced into windows of at most this many
/// items ...
pub const STREAM_WINDOW_ITEMS: usize = 3;

/// ... or this many seconds of elapsed time, whichever comes first.
pub const STREAM_WINDOW_SECS: u64 = 10;

/// The consecutive groups of size at most `g` that a sequence splits
/// into.
pub open spec fn spec_split<T>(s: Seq<T>, g: int) -> Seq<Seq<T>>
    decreases s.len(),
    when 1 <= g
{
    if s.len() == 0 {
        Seq::empty()
    } else if s.len() <= g {
        seq![s]
    } else {
        seq![s.take(g)] + spec_split(s.skip(g), g)
    }
}

/// Splitting and then flattening gives back the input.
pub proof fn lemma_split_flatten<T>(s: Seq<T>, g: int)
    requires
        1 <= g,
    ensures
        spec_split(s, g).flatten() == s,
    decreases s.len(),
{
    if s.len() == 0 {
        assert(spec_split(s, g).flatten() =~= s);
    } else if s.len() <= g {
        spec_split(s, g).lemma_flatten_one_element();
    } else {
        lemma_split_flatten(s.skip(g), g);
        lemma_flatten_concat(seq![s.take(g)], spec_split(s.skip(g), g));
        seq![s.take(g)].lemma_flatten_one_element();
        assert(s.take(g) + s.skip(g) =~= s);
    }
}

/// Every group is non-empty and no larger than `g`, and all groups but
/// the last are exactly `g` long.
pub proof fn lemma_split_group_sizes<T>(s: Seq<T>, g: int)
    requires
        1 <= g,
    ensures
        forall|i: int|
            0 <= i < spec_split(s, g).len() ==> 0 < #[trigger] spec_split(s, g)[i].len() <= g,
        forall|i: int|
            0 <= i < spec_split(s, g).len() - 1 ==> #[trigger] spec_split(s, g)[i].len() == g,
    decreases s.len(),
{
    if s.len() == 0 {
    } else if s.len() <= g {
        assert(spec_split(s, g) =~= seq![s]);
    } else {
        lemma_split_group_sizes(s.skip(g), g);
        let sp = spec_split(s, g);
        let tail = spec_split(s.skip(g), g);
        assert(sp == seq![s.take(g)] + tail);
        assert(sp[0] == s.take(g));
        assert forall|i: int| 0 <= i < sp.len() implies 0 < #[trigger] sp[i].len() <= g by {
            if i >= 1 {
                assert(sp[i] == tail[i - 1]);
            }
        }
        assert forall|i: int| 0 <= i < sp.len() - 1 implies #[trigger] sp[i].len() == g by {
            if i >= 1 {
                assert(sp[i] == tail[i - 1]);
            }
        }
    }
}

/// The number of groups is the input length divided by `g`, rounded up.
pub proof fn lemma_split_count<T>(s: Seq<T>, g: int)
    requires
        1 <= g,
    ensures
        spec_split(s, g).len() == (s.len() + g - 1) / g,
    decreases s.len(),
{
    if s.len() == 0 {
        assert((g - 1) / g == 0) by {
            vstd::arithmetic::div_mod::lemma_basic_div(g - 1, g);
        }
    } else if s.len() <= g {
        assert((s.len() + g - 1) / g == 1) by {
            vstd::arithmetic::div_mod::lemma_div_multiples_vanish_fancy(1, s.len() - 1, g);
            assert(g * 1 + (s.len() - 1) == s.len() + g - 1);
        }
    } else {
        lemma_split_count(s.skip(g), g);
        assert(s.skip(g).len() == s.len() - g);
        assert((s.len() - g + g - 1) / g + 1 == (s.len() + g - 1) / g) by {
            vstd::arithmetic::div_mod::lemma_div_plus_one(s.len() - 1, g);
            assert(s.len() - g + g - 1 == s.len() - 1);
            assert(g + (s.len() - 1) == s.len() + g - 1);
        }
    }
}

/// Split a sequence of work items into consecutive groups of at most
/// `group_size`, keeping the input order.
pub fn split_into_groups<T>(items: Vec<T>, group_size: usize) -> (r: Vec<Vec<T>>)
    requires
        1 <= group_size,
    ensures
        r@.map_values(|grp: Vec<T>| grp@) == spec_split(items@, group_size as int),
{
    let mut groups: Vec<Vec<T>> = Vec::new();
    let mut rest = items;
    while rest.len() > group_size
        invariant
            1 <= group_size,
            groups@.map_values(|grp: Vec<T>| grp@) + spec_split(rest@, group_size as int)
                == spec_split(items@, group_size as int),
        decreases rest@.len(),
    {
        let ghost prev_groups = groups@;
        let ghost prev_rest = rest@;
        let tail = rest.split_off(group_size);
        groups.push(rest);
        rest = tail;
        proof {
            assert(prev_rest.take(group_size as int) == prev_rest.subrange(
                0,
                group_size as int,
            ));
            assert(prev_rest.skip(group_size as int) == prev_rest.subrange(
                group_size as int,
                prev_rest.len() as int,
            ));
            assert(groups@.map_values(|grp: Vec<T>| grp@) =~= prev_groups.map_values(
                |grp: Vec<T>| grp@,
            ).push(prev_rest.take(group_size as int)));
            assert(groups@.map_values(|grp: Vec<T>| grp@) + spec_split(
                rest@,
                group_size as int,
            ) =~= spec_split(items@, group_size as int));
        }
    }
    if rest.len() > 0 {
        let ghost prev_groups = groups@;
        let ghost prev_rest = rest@;
        groups.push(rest);
        proof {
            assert(spec_split(prev_rest, group_size as int) =~= seq![prev_rest]);
            assert(groups@.map_values(|grp: Vec<T>| grp@) =~= prev_groups.map_values(
                |grp: Vec<T>| grp@,
            ).push(prev_rest));
            assert(groups@.map_values(|grp: Vec<T>| grp@) =~= spec_split(
                items@,
                group_size as int,
            ));
        }
    } else {
        proof {
            assert(groups@.map_values(|grp: Vec<T>| grp@) =~= spec_split(
                items@,
                group_size as int,
            ));
        }
    }
    groups
}

/// The mathematical value of a vector of tagged result groups.
pub open spec fn tagged_view<T>(s: Seq<(usize, Vec<T>)>) -> Seq<(usize, Seq<T>)> {
    s.map_values(|p: (usize, Vec<T>)| (p.0, p.1@))
}

/// Whether some group in `s` carries tag `t`.
pub open spec fn spec_has_tag<T>(s: Seq<(usize, Seq<T>)>, t: int) -> bool
    decreases s.len(),
{
    s.len() != 0 && (s[0].0 == t || spec_has_tag(s.drop_first(), t))
}

/// The first group in `s` carrying tag `t` (the empty sequence if there
/// is none).
pub open spec fn spec_tag_group<T>(s: Seq<(usize, Seq<T>)>, t: int) -> Seq<T>
    decreases s.len(),
{
    if s.len() == 0 {
        Seq::empty()
    } else if s[0].0 == t {
        s[0].1
    } else {
        spec_tag_group(s.drop_first(), t)
    }
}

/// Whether every tag `0 <= t < n` occurs in `s`.
pub open spec fn tags_complete<T>(s: Seq<(usize, Seq<T>)>, n: int) -> bool {
    forall|t: int| 0 <= t < n ==> spec_has_tag(s, t)
}

/// The groups of `s` concatenated in ascending tag order, for tags
/// `0 .. upto`.
pub open spec fn spec_tag_order_flatten<T>(s: Seq<(usize, Seq<T>)>, upto: int) -> Seq<T>
    decreases upto,
{
    if upto <= 0 {
        Seq::empty()
    } else {
        spec_tag_order_flatten(s, upto - 1) + spec_tag_group(s, upto - 1)
    }
}

/// A scan that stops at the first index whose tag is `t` lands on the
/// group that `spec_tag_group` denotes.
proof fn lemma_tag_group_at_first_index<T>(s: Seq<(usize, Seq<T>)>, t: int, j: int)
    requires
        0 <= j < s.len(),
        s[j].0 == t,
        forall|jj: int| 0 <= jj < j ==> (#[trigger] s[jj].0) != t,
    ensures
        spec_has_tag(s, t),
        spec_tag_group(s, t) == s[j].1,
    decreases j,
{
    if j > 0 {
        lemma_tag_group_at_first_index(s.drop_first(), t, j - 1);
    }
}

/// If no index carries tag `t`, the tag is absent.
proof fn lemma_tag_absent<T>(s: Seq<(usize, Seq<T>)>, t: int)
    requires
        forall|jj: int| 0 <= jj < s.len() ==> (#[trigger] s[jj].0) != t,
    ensures
        !spec_has_tag(s, t),
    decreases s.len(),
{
    if s.len() > 0 {
        lemma_tag_absent(s.drop_first(), t);
    }
}

/// Removing an entry whose tag is not `t` changes neither whether `t`
/// occurs nor which group it denotes.
proof fn lemma_tag_group_remove<T>(s: Seq<(usize, Seq<T>)>, j: int, t: int)
    requires
        0 <= j < s.len(),
        s[j].0 != t,
    ensures
        spec_has_tag(s.remove(j), t) == spec_has_tag(s, t),
        spec_tag_group(s.remove(j), t) == spec_tag_group(s, t),
    decreases s.len(),
{
    if j == 0 {
        assert(s.remove(0) =~= s.drop_first());
    } else {
        lemma_tag_group_remove(s.drop_first(), j - 1, t);
        assert(s.remove(j).drop_first() =~= s.drop_first().remove(j - 1));
        assert(s.remove(j)[0] == s[0]);
    }
}

/// Reassemble tagged result groups into one flat result in ascending tag
/// order, regardless of the order in which the groups arrived.  Fails if
/// some tag `0 .. n` is missing.
pub fn reassemble_in_tag_order<T>(tagged: Vec<(usize, Vec<T>)>) -> (r: Result<
    Vec<T>,
    EmbedError,
>)
    ensures
        match r {
            Ok(out) => {
                &&& tags_complete(tagged_view(tagged@), tagged@.len() as int)
                &&& out@ == spec_tag_order_flatten(tagged_view(tagged@), tagged@.len() as int)
            },
            Err(e) => {
                &&& !tags_complete(tagged_view(tagged@), tagged@.len() as int)
                &&& e == EmbedError::InvalidInput
            },
        },
{
    let ghost orig = tagged_view(tagged@);
    let n = tagged.len();
    let mut remaining = tagged;
    let mut out: Vec<T> = Vec::new();
    let mut t: usize = 0;
    while t < n
        invariant
            t <= n,
            n == orig.len(),
            orig == tagged_view(tagged@),
            n == tagged@.len(),
            forall|tt: int|
                t <= tt < n ==> spec_has_tag(tagged_view(remaining@), tt) == spec_has_tag(
                    orig,
                    tt,
                ) && spec_tag_group(tagged_view(remaining@), tt) == spec_tag_group(orig, tt),
            forall|tt: int| 0 <= tt < t ==> spec_has_tag(orig, tt),
            out@ == spec_tag_order_flatten(orig, t as int),
        decreases n - t,
    {
        let mut j: usize = 0;
        let mut found: bool = false;
        while j < remaining.len() && !found
            invariant
                j <= remaining.len(),
                !found ==> forall|jj: int|
                    0 <= jj < j ==> (#[trigger] tagged_view(remaining@)[jj].0) != t as int,
                found ==> j < remaining.len() && remaining@[j as int].0 == t && forall|jj: int|
                    0 <= jj < j ==> (#[trigger] tagged_view(remaining@)[jj].0) != t as int,
            decreases remaining@.len() - j + (if found {
                0int
            } else {
                1int
            }),
        {
            if remaining[j].0 == t {
                found = true;
            } else {
                j = j + 1;
            }
        }
        if !found {
            proof {
                lemma_tag_absent(tagged_view(remaining@), t as int);
                assert(!spec_has_tag(orig, t as int));
                assert(!tags_complete(orig, n as int));
            }
            return Err(EmbedError::InvalidInput);
        }
        let ghost before = tagged_view(remaining@);
        let (_, mut grp) = remaining.remove(j);
        proof {
            lemma_tag_group_at_first_index(before, t as int, j as int);
            assert(tagged_view(remaining@) =~= before.remove(j as int));
            assert forall|tt: int|
                t + 1 <= tt < n implies spec_has_tag(tagged_view(remaining@), tt)
                == spec_has_tag(orig, tt) && spec_tag_group(tagged_view(remaining@), tt)
                == spec_tag_group(orig, tt) by {
                lemma_tag_group_remove(before, j as int, tt);
            }
            assert(grp@ == spec_tag_group(orig, t as int));
        }
        out.append(&mut grp);
        t = t + 1;
    }
    Ok(out)
}

/// The groups tagged with their positions, as they are handed to the
/// concurrent dispatch.
pub open spec fn spec_tag_groups<R>(gs: Seq<Seq<R>>) -> Seq<(usize, Seq<R>)> {
    Seq::new(gs.len(), |i: int| (i as usize, gs[i]))
}

/// A split yields no more groups than items.
pub proof fn lemma_split_count_le<T>(s: Seq<T>, g: int)
    requires
        1 <= g,
    ensures
        spec_split(s, g).len() <= s.len(),
    decreases s.len(),
{
    if s.len() > g {
        lemma_split_count_le(s.skip(g), g);
    }
}

/// If `s` holds the pair `(t, v)` and every entry tagged `t` carries the
/// same group `v`, then tag `t` resolves to `v`.
proof fn lemma_tag_group_unique<T>(s: Seq<(usize, Seq<T>)>, t: usize, v: Seq<T>)
    requires
        s.contains((t, v)),
        forall|j: int| 0 <= j < s.len() && (#[trigger] s[j]).0 == t ==> s[j].1 == v,
    ensures
        spec_has_tag(s, t as int),
        spec_tag_group(s, t as int) == v,
    decreases s.len(),
{
    if s[0].0 == t {
        assert(s[0].1 == v);
    } else {
        let j = choose|j: int| 0 <= j < s.len() && s[j] == (t, v);
        assert(s.drop_first()[j - 1] == (t, v));
        assert(s.drop_first().contains((t, v)));
        assert(forall|jj: int|
            0 <= jj < s.drop_first().len() && (#[trigger] s.drop_first()[jj]).0 == t
                ==> s.drop_first()[jj].1 == v) by {
            assert(forall|jj: int|
                0 <= jj < s.drop_first().len() ==> #[trigger] s.drop_first()[jj] == s[jj + 1]);
        }
        lemma_tag_group_unique(s.drop_first(), t, v);
    }
}

/// Concatenating the resolved groups of tags `0 .. upto` equals
/// flattening the first `upto` groups.
proof fn lemma_tag_order_flatten_eq_groups<R>(
    tagged: Seq<(usize, Seq<R>)>,
    groups: Seq<Seq<R>>,
    upto: int,
)
    requires
        0 <= upto <= groups.len(),
        forall|t: int| 0 <= t < upto ==> spec_tag_group(tagged, t) == groups[t],
    ensures
        spec_tag_order_flatten(tagged, upto) == groups.take(upto).flatten(),
    decreases upto,
{
    if upto <= 0 {
        assert(groups.take(0) =~= Seq::<Seq<R>>::empty());
    } else {
        lemma_tag_order_flatten_eq_groups(tagged, groups, upto - 1);
        assert(groups.take(upto) =~= groups.take(upto - 1).push(groups[upto - 1]));
        groups.take(upto - 1).lemma_flatten_push(groups[upto - 1]);
    }
}

/// Mapping each group element-wise and flattening equals flattening and
/// then mapping.
proof fn lemma_flatten_map<T, R>(gs: Seq<Seq<T>>, f: spec_fn(T) -> R)
    ensures
        gs.map_values(|grp: Seq<T>| grp.map_values(f)).flatten() == gs.flatten().map_values(f),
    decreases gs.len(),
{
    if gs.len() == 0 {
        assert(gs.map_values(|grp: Seq<T>| grp.map_values(f)).flatten() =~= gs.flatten()
            .map_values(f));
    } else {
        lemma_flatten_map(gs.drop_first(), f);
        let mapped = gs.map_values(|grp: Seq<T>| grp.map_values(f));
        assert(mapped.drop_first() =~= gs.drop_first().map_values(
            |grp: Seq<T>| grp.map_values(f),
        ));
        assert(mapped.flatten() == gs[0].map_values(f) + gs.drop_first().flatten().map_values(f));
        assert(gs.flatten() == gs[0] + gs.drop_first().flatten());
        assert(gs[0].map_values(f) + gs.drop_first().flatten().map_values(f) =~= (gs[0]
            + gs.drop_first().flatten()).map_values(f));
    }
}

/// Order preservation under concurrent dispatch: split an input into
/// groups, apply `f` to every item of every group, and hand the tagged
/// group results back in any completion order; reassembling them in tag
/// order yields exactly the per-item results in input order — the same
/// output a sequential, non-batched run of `f` over the input produces.
pub proof fn lemma_dispatch_matches_sequential<T, R>(
    items: Seq<T>,
    g: int,
    f: spec_fn(T) -> R,
    tagged: Seq<(usize, Seq<R>)>,
)
    requires
        1 <= g,
        items.len() <= usize::MAX,
        tagged.to_multiset() == spec_tag_groups(
            spec_split(items, g).map_values(|grp: Seq<T>| grp.map_values(f)),
        ).to_multiset(),
    ensures
        tagged.len() == spec_split(items, g).len(),
        tags_complete(tagged, tagged.len() as int),
        spec_tag_order_flatten(tagged, tagged.len() as int) == items.map_values(f),
{
    let groups = spec_split(items, g).map_values(|grp: Seq<T>| grp.map_values(f));
    let orig = spec_tag_groups(groups);
    let n = groups.len() as int;
    lemma_split_count_le(items, g);
    tagged.to_multiset_ensures();
    orig.to_multiset_ensures();
    assert(tagged.len() == orig.len());
    assert forall|t: int| 0 <= t < n implies spec_has_tag(tagged, t) && spec_tag_group(tagged, t)
        == groups[t] by {
        let tu = t as usize;
        assert(orig[t] == (tu, groups[t]));
        assert(orig.contains((tu, groups[t])));
        assert(tagged.to_multiset().count((tu, groups[t])) > 0);
        assert(tagged.contains((tu, groups[t])));
        assert forall|j: int|
            0 <= j < tagged.len() && (#[trigger] tagged[j]).0 == tu implies tagged[j].1
            == groups[t] by {
            assert(orig.to_multiset().count(tagged[j]) > 0);
            assert(orig.contains(tagged[j]));
            let i = choose|i: int| 0 <= i < orig.len() && orig[i] == tagged[j];
            assert(orig[i] == (i as usize, groups[i]));
            assert(i as usize == tu);
            assert(i == t);
        }
        lemma_tag_group_unique(tagged, tu, groups[t]);
    }
    lemma_tag_order_flatten_eq_groups(tagged, groups, n);
    assert(groups.take(n) =~= groups);
    lemma_flatten_map(spec_split(items, g), f);
    lemma_split_flatten(items, g);
}

/// The first failure among per-group results, if any.
pub open spec fn spec_first_err<T>(s: Seq<Result<T, EmbedError>>) -> Option<EmbedError>
    decreases s.len(),
{
    if s.len() == 0 {
        None
    } else {
        match s[0] {
            Err(e) => Some(e),
            Ok(_) => spec_first_err(s.drop_first()),
        }
    }
}

/// Collect per-group results, failing fast: the first failure observed
/// in input order fails the whole batch and no partial results are kept.
pub fn collect_group_results<T>(results: Vec<Result<T, EmbedError>>) -> (r: Result<
    Vec<T>,
    EmbedError,
>)
    ensures
        match r {
            Ok(out) => {
                &&& spec_first_err(results@) is None
                &&& out@ == results@.map_values(|x: Result<T, EmbedError>| x->Ok_0)
            },
            Err(e) => spec_first_err(results@) == Some(e),
        },
{
    let ghost orig = results@;
    let mut rest = results;
    let mut out: Vec<T> = Vec::new();
    while rest.len() > 0
        invariant
            orig == results@,
            out@.len() + rest@.len() == orig.len(),
            rest@ == orig.skip(out@.len() as int),
            forall|i: int| 0 <= i < out@.len() ==> (#[trigger] orig[i]) is Ok,
            out@ == orig.take(out@.len() as int).map_values(|x: Result<T, EmbedError>| x->Ok_0),
            spec_first_err(orig) == spec_first_err(rest@),
        decreases rest@.len(),
    {
        let ghost prev = rest@;
        let ghost done = out@.len() as int;
        let x = rest.remove(0);
        proof {
            assert(rest@ =~= prev.drop_first());
        }
        match x {
            Ok(v) => {
                out.push(v);
                proof {
                    assert(orig.take(done + 1).drop_last() =~= orig.take(done));
                    assert(orig.take(done + 1).map_values(
                        |y: Result<T, EmbedError>| y->Ok_0,
                    ) =~= orig.take(done).map_values(|y: Result<T, EmbedError>| y->Ok_0).push(
                        x->Ok_0,
                    ));
                    assert(rest@ =~= orig.skip(done + 1));
                }
            },
            Err(e) => {
                proof {
                    assert(prev[0] == x);
                    assert(spec_first_err(prev) == Some(e));
                }
                return Err(e);
            },
        }
    }
    proof {
        assert(orig.take(orig.len() as int) =~= orig);
    }
    Ok(out)
}

/// Run a whole batched dispatch to completion: fail on the first failed
/// group — a failed batch returns no partial results — and otherwise
/// reassemble the group results in ascending tag order.
pub fn finish_dispatch<T>(results: Vec<Result<(usize, Vec<T>), EmbedError>>) -> (r: Result<
    Vec<T>,
    EmbedError,
>)
    ensures
        spec_first_err(results@) matches Some(e) ==> r == Err::<Vec<T>, EmbedError>(e),
        spec_first_err(results@) is None ==> {
            let groups = tagged_view(
                results@.map_values(|x: Result<(usize, Vec<T>), EmbedError>| x->Ok_0),
            );
            match r {
                Ok(out) => tags_complete(groups, results@.len() as int) && out@
                    == spec_tag_order_flatten(groups, results@.len() as int),
                Err(e) => !tags_complete(groups, results@.len() as int) && e
                    == EmbedError::InvalidInput,
            }
        },
{
    let groups = collect_group_results(results)?;
    reassemble_in_tag_order(groups)
}

/// Flatten coalesced response windows back into one ordered sequence: a
/// window boundary never reorders the items inside it.
pub fn flatten_windows<T>(windows: Vec<Vec<T>>) -> (r: Vec<T>)
    ensures
        r@ == windows@.map_values(|w: Vec<T>| w@).flatten(),
{
    let mut out: Vec<T> = Vec::new();
    let mut rest = windows;
    while rest.len() > 0
        invariant
            out@ + rest@.map_values(|w: Vec<T>| w@).flatten() == windows@.map_values(
                |w: Vec<T>| w@,
            ).flatten(),
        decreases rest@.len(),
    {
        let ghost prev = rest@;
        let mut w = rest.remove(0);
        proof {
            assert(rest@ =~= prev.drop_first());
            assert(prev.map_values(|x: Vec<T>| x@).drop_first() =~= rest@.map_values(
                |x: Vec<T>| x@,
            ));
            assert(prev.map_values(|x: Vec<T>| x@).first() == w@);
            assert(prev.map_values(|x: Vec<T>| x@).flatten() == w@ + rest@.map_values(
                |x: Vec<T>| x@,
            ).flatten());
        }
        out.append(&mut w);
        proof {
            assert(out@ + rest@.map_values(|x: Vec<T>| x@).flatten() =~= windows@.map_values(
                |x: Vec<T>| x@,
            ).flatten());
        }
    }
    proof {
        assert(rest@.map_values(|w: Vec<T>| w@).flatten() =~= Seq::<T>::empty());
        assert(out@ =~= out@ + Seq::<T>::empty());
    }
    out
}

} // verus!
