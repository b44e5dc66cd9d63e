//! Fixed-point coordinate arithmetic shared by the selection engine and the
//! view-fitting helpers.
//!
//! A coordinate is an `i64` counting thousandths of a unit ("milli-units"):
//! document-space values are in milli-points, screen-space values in
//! milli-pixels.  Converting a document-space value to screen space scales it
//! by `image_dim / doc_dim` (pixels per point) and keeps the milli resolution,
//! truncating the quotient towards zero.

use vstd::prelude::*;

verus! {

/// Thousandths per whole unit.
pub const MILLI: i64 = 1000;

/// Largest magnitude accepted for a milli-unit coordinate (one million
/// whole units), so that scaling products stay well inside `i64`.
pub const COORD_LIMIT: i64 = 1_000_000_000;

/// Largest accepted raster dimension, in pixels.
pub const DIM_LIMIT: u32 = 100_000;

/// Bound on any screen-space value produced by [`scale_to_screen_i64`] from
/// arguments within the accepted magnitudes.
pub const SCREEN_LIMIT: i64 = 200_000_000_000_000_000;

/// A coordinate within the accepted magnitude.
pub open spec fn coord_ok(v: int) -> bool {
    -COORD_LIMIT <= v <= COORD_LIMIT
}

/// Division truncating towards zero (the quotient is rounded towards zero,
/// as hardware division does), defined for positive divisors.
pub open spec fn div_to_zero(a: int, b: int) -> int
    recommends
        b > 0,
{
    if a >= 0 {
        a / b
    } else {
        -((-a) / b)
    }
}

/// The magnitude of a truncating quotient never exceeds the dividend's.
pub proof fn lemma_div_to_zero_bound(a: int, b: int)
    requires
        b >= 1,
    ensures
        a >= 0 ==> 0 <= div_to_zero(a, b) <= a,
        a < 0 ==> a <= div_to_zero(a, b) <= 0,
{
    if a >= 0 {
        vstd::arithmetic::div_mod::lemma_div_pos_is_pos(a, b);
        vstd::arithmetic::div_mod::lemma_div_nonincreasing(a, b);
    } else {
        vstd::arithmetic::div_mod::lemma_div_pos_is_pos(-a, b);
        vstd::arithmetic::div_mod::lemma_div_nonincreasing(-a, b);
    }
}

/// Truncating division of `i64` values, for positive divisors.
pub fn div_i64(a: i64, b: i64) -> (r: i64)
    requires
        b > 0,
        a > i64::MIN,
    ensures
        r == div_to_zero(a as int, b as int),
        a >= 0 ==> 0 <= r <= a,
        a < 0 ==> a <= r <= 0,
{
    proof {
        lemma_div_to_zero_bound(a as int, b as int);
    }
    if a >= 0 {
        a / b
    } else {
        -((-a) / b)
    }
}

/// A document-space milli-unit value scaled to screen-space milli-units:
/// multiplied by `dim` pixels per `denom` milli-units of document space.
pub open spec fn scale_to_screen(v: int, dim: int, denom: int) -> int
    recommends
        denom > 0,
{
    div_to_zero(v * dim * MILLI, denom)
}

/// Scales a document-space value (milli-points) to screen space
/// (milli-pixels): `dim` is the raster size in pixels, `denom` the document
/// size in milli-points.
pub fn scale_to_screen_i64(v: i64, dim: u32, denom: i64) -> (r: i64)
    requires
        -2 * COORD_LIMIT <= v <= 2 * COORD_LIMIT,
        dim <= DIM_LIMIT,
        0 < denom,
    ensures
        r == scale_to_screen(v as int, dim as int, denom as int),
        -SCREEN_LIMIT <= r <= SCREEN_LIMIT,
{
    proof {
        assert((v as int) * (dim as int) <= 200_000_000_000_000int
            && (v as int) * (dim as int) >= -200_000_000_000_000int)
            by (nonlinear_arith)
            requires
                -2_000_000_000 <= v as int <= 2_000_000_000,
                0 <= dim as int <= 100_000,
        ;
    }
    let prod: i64 = v * (dim as i64) * MILLI;
    div_i64(prod, denom)
}

/// The smaller of two coordinates.
pub fn coord_min(a: i64, b: i64) -> (r: i64)
    ensures
        r == if a <= b { a as int } else { b as int },
{
    if a <= b {
        a
    } else {
        b
    }
}

/// The larger of two coordinates.
pub fn coord_max(a: i64, b: i64) -> (r: i64)
    ensures
        r == if a >= b { a as int } else { b as int },
{
    if a >= b {
        a
    } else {
        b
    }
}

} // verus!
