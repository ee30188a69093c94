//! Fixed-point helpers shared by the transform and filtering stages.
//!
//! Image samples are 8.8 fixed-point integers; transform coefficients are
//! 1.15 fixed-point integers.  A product of a sample and a coefficient is
//! rescaled with [`rsh15_sat`], which rounds to nearest and saturates to the
//! working range [`-VAL_LIMIT`, `VAL_LIMIT`].  The saturation bound is far
//! above any value the pipeline can produce from 8-bit input; it exists so
//! that every stage provably stays inside `i64`.

use vstd::prelude::*;

verus! {

/// Largest magnitude a working sample may take between pipeline stages
/// (`2^40`).
pub const VAL_LIMIT: i64 = 0x100_0000_0000;

/// Rounding constant for a 15-bit downshift (`2^14`).
pub const Q15_HALF: i64 = 0x4000;

/// Divisor of a 15-bit downshift (`2^15`).
pub const Q15_ONE: i64 = 0x8000;

/// Clamp `v` into `[lo, hi]`.
pub open spec fn clamp_spec(v: int, lo: int, hi: int) -> int {
    if v < lo {
        lo
    } else if v > hi {
        hi
    } else {
        v
    }
}

/// Round-to-nearest downshift by 15 bits (floor of `(v + 2^14) / 2^15`).
pub open spec fn rsh15_spec(v: int) -> int {
    (v + Q15_HALF) / (Q15_ONE as int)
}

/// Downshift by 15 bits with rounding, then saturate to the working range.
pub open spec fn sat15_spec(v: int) -> int {
    clamp_spec(rsh15_spec(v), -(VAL_LIMIT as int), VAL_LIMIT as int)
}

/// Executable form of [`sat15_spec`].
pub fn rsh15_sat(v: i64) -> (r: i64)
    requires
        -0x4000_0000_0000_0000 <= v <= 0x4000_0000_0000_0000,
    ensures
        r == sat15_spec(v as int),
        -VAL_LIMIT <= r <= VAL_LIMIT,
{
    let shifted = match (v + Q15_HALF).checked_div_euclid(Q15_ONE) {
        Some(q) => q,
        None => 0,  // unreachable: the divisor is positive and v is bounded
    };
    if shifted < -VAL_LIMIT {
        -VAL_LIMIT
    } else if shifted > VAL_LIMIT {
        VAL_LIMIT
    } else {
        shifted
    }
}

/// Every element of `s` has magnitude at most `b`.
pub open spec fn all_bounded(s: Seq<i64>, b: int) -> bool {
    forall|i: int| 0 <= i < s.len() ==> -b <= #[trigger] s[i] <= b
}

/// Bound on a product of two bounded factors.
pub proof fn lemma_mul_bound(x: int, c: int, bx: int, bc: int)
    requires
        -bx <= x <= bx,
        -bc <= c <= bc,
        0 <= bx,
        0 <= bc,
    ensures
        -(bx * bc) <= x * c <= bx * bc,
{
    assert(-(bx * bc) <= x * c <= bx * bc) by (nonlinear_arith)
        requires
            -bx <= x <= bx,
            -bc <= c <= bc,
            0 <= bx,
            0 <= bc,
    ;
}

/// Dividing a bounded value by a positive divisor keeps the bound.
pub proof fn lemma_div_bound(a: int, n: int, m: int)
    requires
        n >= 1,
        -m <= a <= m,
        0 <= m,
    ensures
        -m <= a / n <= m,
{
    assert(-m <= a / n <= m) by (nonlinear_arith)
        requires
            n >= 1,
            -m <= a <= m,
            0 <= m,
    ;
}

/// Monotonicity of products of non-negative factors.
pub proof fn lemma_mul_le(a: int, b: int, ca: int, cb: int)
    requires
        0 <= a <= ca,
        0 <= b <= cb,
    ensures
        0 <= a * b <= ca * cb,
{
    assert(0 <= a * b <= ca * cb) by (nonlinear_arith)
        requires
            0 <= a <= ca,
            0 <= b <= cb,
    ;
}

/// A row-major index in a completed earlier row lies below the current row.
pub proof fn lemma_row_major_lt(rr: int, cc: int, r: int, b: int)
    requires
        0 <= rr < r,
        0 <= cc < b,
    ensures
        0 <= rr * b + cc < r * b,
{
    assert(0 <= rr * b + cc < r * b) by (nonlinear_arith)
        requires
            0 <= rr < r,
            0 <= cc < b,
    ;
}

/// Two distinct pixel coordinates have distinct row-major indices.
pub proof fn lemma_distinct_index(xx: int, yy: int, x: int, y: int, w: int)
    requires
        0 <= xx < w,
        0 <= x < w,
        0 <= yy,
        0 <= y,
        !(xx == x && yy == y),
    ensures
        yy * w + xx != y * w + x,
{
    assert(yy * w + xx != y * w + x) by (nonlinear_arith)
        requires
            0 <= xx < w,
            0 <= x < w,
            0 <= yy,
            0 <= y,
            !(xx == x && yy == y),
    ;
}

/// Clamp an `i64` into `[lo, hi]`, executable form.
pub fn clamp_i64(v: i64, lo: i64, hi: i64) -> (r: i64)
    requires
        lo <= hi,
    ensures
        r == clamp_spec(v as int, lo as int, hi as int),
{
    if v < lo {
        lo
    } else if v > hi {
        hi
    } else {
        v
    }
}

} // verus!
