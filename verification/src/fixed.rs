//! Fixed-point scalars.
//!
//! Scores, vector components and blend factors are `i64` values counting
//! units of `1 / FX_SCALE`.  Internal blending happens in this wider
//! integer precision; a host converts to and from the 32-bit floats that
//! cross the service boundary, consistently in both directions.

use vstd::prelude::*;

verus! {

use vstd::math::abs;

/// Number of fixed-point units per 1.0.
pub const FX_SCALE: i64 = 10_000;

/// Largest magnitude a fixed-point scalar may take.  Chosen so that every
/// intermediate product in this crate fits a 128-bit integer.
pub const FX_MAX: i64 = 100_000_000_000_000;

/// A scalar that the blending arithmetic accepts.
pub open spec fn fx_in_range(a: int) -> bool {
    -FX_MAX <= a <= FX_MAX
}

/// The product of two fixed-point scalars, rescaled, with the quotient
/// truncated toward zero.
pub open spec fn fx_mul_exact(a: int, b: int) -> int {
    if a * b >= 0 {
        (a * b) / (FX_SCALE as int)
    } else {
        -((-(a * b)) / (FX_SCALE as int))
    }
}

/// The product of two fixed-point scalars, rescaled and saturated at
/// `FX_MAX` in magnitude, so that repeated boost applications stay in
/// range.
pub open spec fn fx_mul(a: int, b: int) -> int {
    let m = fx_mul_exact(a, b);
    if m > FX_MAX {
        FX_MAX as int
    } else if m < -FX_MAX {
        -FX_MAX as int
    } else {
        m
    }
}

/// Multiply two fixed-point scalars and rescale, saturating at `FX_MAX`
/// in magnitude.
pub fn fx_scale(a: i64, b: i64) -> (r: i64)
    requires
        fx_in_range(a as int),
        fx_in_range(b as int),
    ensures
        r as int == fx_mul(a as int, b as int),
        fx_in_range(r as int),
{
    let neg: bool = (a < 0) != (b < 0);
    let ma: u64 = if a < 0 {
        (-a) as u64
    } else {
        a as u64
    };
    let mb: u64 = if b < 0 {
        (-b) as u64
    } else {
        b as u64
    };
    proof {
        assert(ma == abs(a as int) && mb == abs(b as int));
        assert((ma as int) * (mb as int) == abs((a as int) * (b as int))
            && (ma as int) * (mb as int) <= (FX_MAX as int) * (FX_MAX as int)) by (nonlinear_arith)
            requires
                ma == abs(a as int),
                mb == abs(b as int),
                ma <= FX_MAX,
                mb <= FX_MAX,
        ;
    }
    let p: u128 = (ma as u128) * (mb as u128);
    let q: u128 = p / (FX_SCALE as u128);
    let qc: u128 = if q > (FX_MAX as u128) {
        FX_MAX as u128
    } else {
        q
    };
    let m: i64 = qc as i64;
    proof {
        assert({
            &&& (a >= 0 && b >= 0) ==> (a as int) * (b as int) >= 0
            &&& (a < 0 && b < 0) ==> (a as int) * (b as int) > 0
            &&& (a < 0 && b >= 0) ==> (a as int) * (b as int) <= 0
            &&& (a >= 0 && b < 0) ==> (a as int) * (b as int) <= 0
        }) by (nonlinear_arith);
    }
    if neg {
        -m
    } else {
        m
    }
}

} // verus!
