//! Numbers of the language: 64-bit IEEE-754 values carried as their bit
//! patterns.
//!
//! A number is stored as the `u64` bit pattern of a binary64 value: one sign
//! bit, eleven exponent bits, fifty-two significand bits. Comparison,
//! equality and negation are plain functions of that pattern and are
//! implemented and verified here. Arithmetic, parsing from a decimal literal
//! and formatting round through `rustc_apfloat`, behind trusted wrappers
//! whose results are named by uninterpreted spec functions: the same
//! arguments always give the same bits back.

use vstd::prelude::*;

#[allow(unused_imports)]
use rustc_apfloat::Float;

verus! {

/// The sign bit of a binary64 pattern.
pub const SIGN_MASK: u64 = 0x8000_0000_0000_0000;

/// Magnitude of the largest non-finite-exponent pattern: the exponent field
/// all ones and the significand zero, that is, positive infinity.
pub const INFINITY_BITS: u64 = 0x7FF0_0000_0000_0000;

/// Whether the sign bit of `bits` is set.
pub open spec fn sign_of(bits: u64) -> bool {
    bits >= SIGN_MASK
}

/// The pattern with the sign bit cleared: the encoded magnitude.
pub open spec fn magnitude_of(bits: u64) -> u64 {
    if sign_of(bits) {
        (bits - SIGN_MASK) as u64
    } else {
        bits
    }
}

/// A binary64 pattern encodes NaN when its exponent field is all ones and
/// its significand is not zero, that is, when its magnitude exceeds that of
/// infinity.
pub open spec fn is_nan_bits(bits: u64) -> bool {
    magnitude_of(bits) > INFINITY_BITS
}

/// The position of a non-NaN pattern on the real line, as an order key:
/// magnitudes ordered by their encoding, negative values reflected below
/// zero. Both zeroes map to key zero.
pub open spec fn float_key(bits: u64) -> int {
    if sign_of(bits) {
        -(magnitude_of(bits) as int)
    } else {
        magnitude_of(bits) as int
    }
}

/// IEEE-754 equality on two binary64 patterns: false whenever either side is
/// NaN, and otherwise equality of order keys, so the two zeroes compare
/// equal.
pub open spec fn float_eq(a: u64, b: u64) -> bool {
    !is_nan_bits(a) && !is_nan_bits(b) && float_key(a) == float_key(b)
}

/// IEEE-754 `<` on two binary64 patterns: false whenever either side is NaN.
pub open spec fn float_lt(a: u64, b: u64) -> bool {
    !is_nan_bits(a) && !is_nan_bits(b) && float_key(a) < float_key(b)
}

/// IEEE-754 `>` on two binary64 patterns: false whenever either side is NaN.
pub open spec fn float_gt(a: u64, b: u64) -> bool {
    !is_nan_bits(a) && !is_nan_bits(b) && float_key(a) > float_key(b)
}

/// IEEE-754 negation: the same pattern with the sign bit flipped.
pub open spec fn float_neg(bits: u64) -> u64 {
    if sign_of(bits) {
        (bits - SIGN_MASK) as u64
    } else {
        (bits + SIGN_MASK) as u64
    }
}

/// Whether `bits` encodes NaN.
pub fn num_is_nan(bits: u64) -> (r: bool)
    ensures
        r == is_nan_bits(bits),
{
    let magnitude: u64 = if bits >= SIGN_MASK {
        bits - SIGN_MASK
    } else {
        bits
    };
    magnitude > INFINITY_BITS
}

/// IEEE-754 equality of the two encoded values.
pub fn num_eq(a: u64, b: u64) -> (r: bool)
    ensures
        r == float_eq(a, b),
{
    if num_is_nan(a) || num_is_nan(b) {
        return false;
    }
    let sign_a = a >= SIGN_MASK;
    let sign_b = b >= SIGN_MASK;
    let mag_a: u64 = if sign_a { a - SIGN_MASK } else { a };
    let mag_b: u64 = if sign_b { b - SIGN_MASK } else { b };
    if sign_a == sign_b {
        mag_a == mag_b
    } else {
        mag_a == 0 && mag_b == 0
    }
}

/// IEEE-754 `<` on the two encoded values.
pub fn num_lt(a: u64, b: u64) -> (r: bool)
    ensures
        r == float_lt(a, b),
{
    if num_is_nan(a) || num_is_nan(b) {
        return false;
    }
    let sign_a = a >= SIGN_MASK;
    let sign_b = b >= SIGN_MASK;
    let mag_a: u64 = if sign_a { a - SIGN_MASK } else { a };
    let mag_b: u64 = if sign_b { b - SIGN_MASK } else { b };
    if sign_a && sign_b {
        mag_b < mag_a
    } else if sign_a {
        mag_a > 0 || mag_b > 0
    } else if sign_b {
        false
    } else {
        mag_a < mag_b
    }
}

/// IEEE-754 `>` on the two encoded values.
pub fn num_gt(a: u64, b: u64) -> (r: bool)
    ensures
        r == float_gt(a, b),
{
    num_lt(b, a)
}

/// IEEE-754 negation of the encoded value: flips the sign bit and nothing
/// else, on NaN as on every other pattern.
pub fn num_neg(bits: u64) -> (r: u64)
    ensures
        r == float_neg(bits),
{
    if bits >= SIGN_MASK {
        bits - SIGN_MASK
    } else {
        bits + SIGN_MASK
    }
}

/// Equality of the encoded values is symmetric.
pub proof fn lemma_float_eq_symmetric(a: u64, b: u64)
    ensures
        float_eq(a, b) == float_eq(b, a),
{
}

/// Equality of the encoded values is reflexive exactly on the patterns that
/// are not NaN.
pub proof fn lemma_float_eq_reflexive(a: u64)
    ensures
        float_eq(a, a) == !is_nan_bits(a),
{
}

/// For two non-NaN patterns, the encoded values are equal exactly when
/// neither is less than nor greater than the other.
pub proof fn lemma_float_eq_trichotomy(a: u64, b: u64)
    requires
        !is_nan_bits(a),
        !is_nan_bits(b),
    ensures
        float_eq(a, b) == (!float_lt(a, b) && !float_gt(a, b)),
{
}

/// The bits that the sum of the two encoded values rounds to, to nearest,
/// ties to even.
pub uninterp spec fn add_bits(a: u64, b: u64) -> u64;

/// The bits that the difference of the two encoded values rounds to.
pub uninterp spec fn sub_bits(a: u64, b: u64) -> u64;

/// The bits that the product of the two encoded values rounds to.
pub uninterp spec fn mul_bits(a: u64, b: u64) -> u64;

/// The bits that the quotient of the two encoded values rounds to.
pub uninterp spec fn div_bits(a: u64, b: u64) -> u64;

/// The bits that a decimal literal parses to, or `None` where the text is
/// not a valid floating-point literal.
pub uninterp spec fn parse_bits(s: Seq<char>) -> Option<u64>;

/// The decimal rendering of the encoded value.
pub uninterp spec fn fmt_bits(bits: u64) -> Seq<char>;

/// The encoded value truncated toward zero and clamped into `usize`, with
/// NaN taken to zero.
pub uninterp spec fn trunc_bits(bits: u64) -> usize;

/// Relies on `rustc_apfloat::ieee::Double::add_r` with rounding to nearest,
/// ties to even: binary64 addition of the encoded values.
#[verifier::external_body]
pub fn num_add(a: u64, b: u64) -> (r: u64)
    ensures
        r == add_bits(a, b),
{
    let x = rustc_apfloat::ieee::Double::from_bits(a as u128);
    let y = rustc_apfloat::ieee::Double::from_bits(b as u128);
    x.add_r(y, rustc_apfloat::Round::NearestTiesToEven).value.to_bits() as u64
}

/// Relies on `rustc_apfloat::ieee::Double::sub_r` with rounding to nearest,
/// ties to even: binary64 subtraction of the encoded values.
#[verifier::external_body]
pub fn num_sub(a: u64, b: u64) -> (r: u64)
    ensures
        r == sub_bits(a, b),
{
    let x = rustc_apfloat::ieee::Double::from_bits(a as u128);
    let y = rustc_apfloat::ieee::Double::from_bits(b as u128);
    x.sub_r(y, rustc_apfloat::Round::NearestTiesToEven).value.to_bits() as u64
}

/// Relies on `rustc_apfloat::ieee::Double::mul_r` with rounding to nearest,
/// ties to even: binary64 multiplication of the encoded values.
#[verifier::external_body]
pub fn num_mul(a: u64, b: u64) -> (r: u64)
    ensures
        r == mul_bits(a, b),
{
    let x = rustc_apfloat::ieee::Double::from_bits(a as u128);
    let y = rustc_apfloat::ieee::Double::from_bits(b as u128);
    x.mul_r(y, rustc_apfloat::Round::NearestTiesToEven).value.to_bits() as u64
}

/// Relies on `rustc_apfloat::ieee::Double::div_r` with rounding to nearest,
/// ties to even: binary64 division of the encoded values.
#[verifier::external_body]
pub fn num_div(a: u64, b: u64) -> (r: u64)
    ensures
        r == div_bits(a, b),
{
    let x = rustc_apfloat::ieee::Double::from_bits(a as u128);
    let y = rustc_apfloat::ieee::Double::from_bits(b as u128);
    x.div_r(y, rustc_apfloat::Round::NearestTiesToEven).value.to_bits() as u64
}

/// Relies on `rustc_apfloat::ieee::Double`'s `FromStr`: correctly rounded
/// parsing of a decimal literal, `Err` on text that is not one.
#[verifier::external_body]
pub fn num_parse(s: &str) -> (r: Option<u64>)
    ensures
        r == parse_bits(s@),
{
    match s.parse::<rustc_apfloat::ieee::Double>() {
        Ok(v) => Some(v.to_bits() as u64),
        Err(_) => None,
    }
}

/// Relies on `rustc_apfloat::ieee::Double`'s `Display`: a decimal rendering
/// of the encoded value.
#[verifier::external_body]
pub fn num_format(bits: u64) -> (r: String)
    ensures
        r@ == fmt_bits(bits),
{
    format!("{}", rustc_apfloat::ieee::Double::from_bits(bits as u128))
}

/// Relies on `rustc_apfloat::ieee::Double::to_u128_r` rounding toward zero:
/// truncation of the encoded value into the 64-bit unsigned range, with NaN
/// taken to zero and out-of-range values clamped.
#[verifier::external_body]
pub fn num_trunc(bits: u64) -> (r: usize)
    ensures
        r == trunc_bits(bits),
{
    let mut exact = true;
    let v = rustc_apfloat::ieee::Double::from_bits(bits as u128);
    v.to_u128_r(64, rustc_apfloat::Round::TowardZero, &mut exact).value as usize
}

} // verus!
