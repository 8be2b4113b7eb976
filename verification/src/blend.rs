//! Boost blending.
//!
//! A base vector is combined with an auxiliary boost vector and a numeric
//! factor: additively for dense vectors, multiplicatively on overlapping
//! token ids for sparse vectors.  Blending never changes the number of
//! base components; ids present only in the boost vector are ignored.

use vstd::prelude::*;

use crate::error::EmbedError;
use crate::fixed::fx_in_range;
use crate::fixed::fx_mul;
use crate::fixed::fx_scale;

verus! {

/// The dense blend: `base[i] + factor * boost[i]`, component-wise.
pub open spec fn spec_blend_dense(base: Seq<i64>, boost: Seq<i64>, factor: i64) -> Seq<int> {
    Seq::new(base.len(), |i: int| base[i] + fx_mul(factor as int, boost[i] as int))
}

/// Blend a boost vector additively into a dense base vector.  Mismatched
/// lengths are a hard error.
pub fn blend_dense(base: &Vec<i64>, boost: &Vec<i64>, factor: i64) -> (r: Result<
    Vec<i64>,
    EmbedError,
>)
    requires
        fx_in_range(factor as int),
        forall|i: int| 0 <= i < base@.len() ==> fx_in_range(#[trigger] base@[i] as int),
        forall|i: int| 0 <= i < boost@.len() ==> fx_in_range(#[trigger] boost@[i] as int),
    ensures
        match r {
            Ok(out) => {
                &&& base@.len() == boost@.len()
                &&& out@.map_values(|x: i64| x as int) == spec_blend_dense(base@, boost@, factor)
            },
            Err(e) => {
                &&& base@.len() != boost@.len()
                &&& e == EmbedError::InvalidInput
            },
        },
{
    if base.len() != boost.len() {
        return Err(EmbedError::InvalidInput);
    }
    let mut out: Vec<i64> = Vec::new();
    let mut i: usize = 0;
    while i < base.len()
        invariant
            i <= base@.len(),
            base@.len() == boost@.len(),
            fx_in_range(factor as int),
            forall|j: int| 0 <= j < base@.len() ==> fx_in_range(#[trigger] base@[j] as int),
            forall|j: int| 0 <= j < boost@.len() ==> fx_in_range(#[trigger] boost@[j] as int),
            out@.len() == i,
            forall|j: int|
                0 <= j < i ==> #[trigger] out@[j] as int == base@[j] + fx_mul(
                    factor as int,
                    boost@[j] as int,
                ),
        decreases base@.len() - i,
    {
        let scaled = fx_scale(factor, boost[i]);
        out.push(base[i] + scaled);
        i = i + 1;
    }
    proof {
        assert(out@.map_values(|x: i64| x as int) =~= spec_blend_dense(base@, boost@, factor));
    }
    Ok(out)
}

/// Whether a sparse vector holds an entry for token id `id`.
pub open spec fn spec_has_id(s: Seq<(u32, i64)>, id: u32) -> bool {
    exists|j: int| 0 <= j < s.len() && (#[trigger] s[j]).0 == id
}

/// The sparse blend: every base weight whose token id also occurs in the
/// boost vector is multiplied by `factor`; all other entries are kept
/// unchanged.
pub open spec fn spec_blend_sparse(
    base: Seq<(u32, i64)>,
    boost: Seq<(u32, i64)>,
    factor: i64,
) -> Seq<(u32, int)> {
    Seq::new(
        base.len(),
        |i: int|
            (
                base[i].0,
                if spec_has_id(boost, base[i].0) {
                    fx_mul(base[i].1 as int, factor as int)
                } else {
                    base[i].1 as int
                },
            ),
    )
}

/// The sparse blend with its weights narrowed back to fixed-point
/// scalars; saturation keeps every blended weight in range, so nothing
/// is lost.
pub open spec fn spec_blend_sparse_i64(
    base: Seq<(u32, i64)>,
    boost: Seq<(u32, i64)>,
    factor: i64,
) -> Seq<(u32, i64)> {
    Seq::new(
        base.len(),
        |i: int|
            (
                base[i].0,
                if spec_has_id(boost, base[i].0) {
                    fx_mul(base[i].1 as int, factor as int) as i64
                } else {
                    base[i].1
                },
            ),
    )
}

/// Blend a boost vector multiplicatively into a sparse base vector.
/// Ids present only in the boost vector are ignored.
pub fn blend_sparse(base: &Vec<(u32, i64)>, boost: &Vec<(u32, i64)>, factor: i64) -> (r: Vec<
    (u32, i64),
>)
    requires
        fx_in_range(factor as int),
        forall|i: int| 0 <= i < base@.len() ==> fx_in_range(#[trigger] base@[i].1 as int),
    ensures
        r@.map_values(|p: (u32, i64)| (p.0, p.1 as int)) == spec_blend_sparse(
            base@,
            boost@,
            factor,
        ),
        r@ == spec_blend_sparse_i64(base@, boost@, factor),
        forall|i: int| 0 <= i < r@.len() ==> fx_in_range(#[trigger] r@[i].1 as int),
{
    let mut out: Vec<(u32, i64)> = Vec::new();
    let mut i: usize = 0;
    while i < base.len()
        invariant
            i <= base@.len(),
            fx_in_range(factor as int),
            forall|j: int| 0 <= j < base@.len() ==> fx_in_range(#[trigger] base@[j].1 as int),
            out@.len() == i,
            forall|j: int|
                0 <= j < i ==> #[trigger] out@[j] == (
                    base@[j].0,
                    if spec_has_id(boost@, base@[j].0) {
                        fx_mul(base@[j].1 as int, factor as int)
                    } else {
                        base@[j].1 as int
                    } as i64,
                ),
            forall|j: int| 0 <= j < i ==> fx_in_range(#[trigger] out@[j].1 as int),
        decreases base@.len() - i,
    {
        let (id, weight) = base[i];
        let mut found: bool = false;
        let mut j: usize = 0;
        while j < boost.len() && !found
            invariant
                j <= boost@.len(),
                found ==> spec_has_id(boost@, id),
                !found ==> forall|jj: int| 0 <= jj < j ==> (#[trigger] boost@[jj]).0 != id,
            decreases boost@.len() - j + (if found {
                0int
            } else {
                1int
            }),
        {
            if boost[j].0 == id {
                found = true;
            } else {
                j = j + 1;
            }
        }
        if found {
            out.push((id, fx_scale(weight, factor)));
        } else {
            proof {
                assert(!spec_has_id(boost@, id));
            }
            out.push((id, weight));
        }
        i = i + 1;
    }
    proof {
        assert(out@.map_values(|p: (u32, i64)| (p.0, p.1 as int)) =~= spec_blend_sparse(
            base@,
            boost@,
            factor,
        ));
        assert(out@ =~= spec_blend_sparse_i64(base@, boost@, factor));
    }
    out
}

} // verus!
