//! Signed fixed-point numbers with 40 integer bits and 24 fractional bits.
//!
//! A value is carried as its raw bit pattern, an `i64` whose integer meaning
//! is the number multiplied by 2^24. The arithmetic itself is done by the
//! `fixed` crate's `I40F24`; the wrappers below state exactly what each
//! operation returns on raw bits, and give `None` where the crate's checked
//! operation reports an overflow (where the plain operator would panic in a
//! debug build).

use fixed::types::I40F24;
use vstd::prelude::*;

verus! {

/// 2^24: the raw bits of the fixed-point number one.
pub open spec fn scale() -> int {
    16777216
}

/// `Some(x)` when `x` fits in an `i64`, else `None`.
pub open spec fn fit(x: int) -> Option<i64> {
    if i64::MIN <= x <= i64::MAX {
        Some(x as i64)
    } else {
        None
    }
}

/// Integer division rounding toward zero (Rust's `/` on integers).
pub open spec fn div_toward_zero(x: int, y: int) -> int
    recommends
        y != 0,
{
    if x >= 0 {
        if y > 0 {
            x / y
        } else {
            -(x / (-y))
        }
    } else {
        if y > 0 {
            -((-x) / y)
        } else {
            (-x) / (-y)
        }
    }
}

/// Raw bits of the integer `x` as a fixed-point number, if it fits.
pub open spec fn fx_from_int(x: int) -> Option<i64> {
    fit(x * scale())
}

/// Sum of two fixed-point numbers, if it fits.
pub open spec fn fx_add(a: i64, b: i64) -> Option<i64> {
    fit(a + b)
}

/// Product of two fixed-point numbers: the exact product rounded toward
/// negative infinity to 24 fractional bits, if it fits.
pub open spec fn fx_mul(a: i64, b: i64) -> Option<i64> {
    fit((a * b) / scale())
}

/// Quotient of two fixed-point numbers: the exact quotient rounded toward
/// zero to 24 fractional bits; `None` for a zero divisor or when it does not fit.
pub open spec fn fx_div(a: i64, b: i64) -> Option<i64> {
    if b == 0 {
        None
    } else {
        fit(div_toward_zero(a * scale(), b as int))
    }
}

/// Integer part of a fixed-point number, rounded toward negative infinity.
pub open spec fn fx_to_int(a: i64) -> int {
    (a as int) / scale()
}

/// `I40F24::checked_from_num` on an `i64`: the number `x` if it fits in
/// 40 integer bits, else `None`. The crate documents that an integer is
/// converted exactly when it fits.
#[verifier::external_body]
pub(crate) fn fx_from_i64(x: i64) -> (r: Option<i64>)
    ensures
        r == fx_from_int(x as int),
{
    match I40F24::checked_from_num(x) {
        Some(v) => Some(v.to_bits()),
        None => None,
    }
}

/// `I40F24::checked_add` on raw bits: the sum, or `None` on overflow.
#[verifier::external_body]
pub(crate) fn fx_checked_add(a: i64, b: i64) -> (r: Option<i64>)
    ensures
        r == fx_add(a, b),
{
    match I40F24::from_bits(a).checked_add(I40F24::from_bits(b)) {
        Some(v) => Some(v.to_bits()),
        None => None,
    }
}

/// `I40F24::checked_mul` on raw bits. The crate widens both operands to
/// `i128`, multiplies and shifts right (rounding toward negative infinity);
/// it reports an overflow exactly when the rounded product does not fit.
#[verifier::external_body]
pub(crate) fn fx_checked_mul(a: i64, b: i64) -> (r: Option<i64>)
    ensures
        r == fx_mul(a, b),
{
    match I40F24::from_bits(a).checked_mul(I40F24::from_bits(b)) {
        Some(v) => Some(v.to_bits()),
        None => None,
    }
}

/// `I40F24::checked_div` on raw bits. The crate returns `None` for a zero
/// divisor; otherwise it divides the dividend shifted left by 24 bits with
/// `i128` division (rounding toward zero) and reports an overflow exactly
/// when the quotient does not fit.
#[verifier::external_body]
pub(crate) fn fx_checked_div(a: i64, b: i64) -> (r: Option<i64>)
    ensures
        r == fx_div(a, b),
{
    match I40F24::from_bits(a).checked_div(I40F24::from_bits(b)) {
        Some(v) => Some(v.to_bits()),
        None => None,
    }
}

/// `I40F24::to_num::<i64>`: the crate discards the fractional bits, which
/// rounds toward negative infinity; 40 integer bits always fit in `i64`.
#[verifier::external_body]
pub(crate) fn fx_to_i64(a: i64) -> (r: i64)
    ensures
        r == fx_to_int(a),
{
    I40F24::from_bits(a).to_num::<i64>()
}

/// Raw bits of a small non-negative integer constant.
pub(crate) fn fx_const(x: i64) -> (r: i64)
    requires
        0 <= x <= 100000,
    ensures
        fx_from_int(x as int) == Some(r),
        r == x * scale(),
{
    proof {
        assert(0 <= x * scale() <= 100000 * 16777216) by (nonlinear_arith)
            requires
                0 <= x <= 100000,
        ;
    }
    match fx_from_i64(x) {
        Some(v) => v,
        None => 0,
    }
}

} // verus!
