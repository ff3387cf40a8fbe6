//! IEEE 754 binary32 values held as their bit patterns.
//!
//! Addition, subtraction, multiplication, division and the conversion from
//! an unsigned integer are computed by `rustc_apfloat` with rounding to
//! nearest, ties to even; their results are named by uninterpreted spec
//! functions. Comparison, absolute value, minimum and maximum are short
//! functions of the bits and are written and proved here.

use rustc_apfloat::ieee::Single;
use rustc_apfloat::Float;
use rustc_apfloat::Round;
use vstd::prelude::*;

verus! {

/// Bits of the binary32 value `+0.0`.
pub const ZERO: u32 = 0x0000_0000;

/// Bits of the binary32 value `1.0`.
pub const ONE: u32 = 0x3f80_0000;

/// Bits of the binary32 value `2.0`.
pub const TWO: u32 = 0x4000_0000;

/// Bits of the binary32 value `3.0`.
pub const THREE: u32 = 0x4040_0000;

/// Mask of the sign bit.
pub const SIGN_MASK: u32 = 0x8000_0000;

/// Mask of the magnitude (exponent and significand).
pub const MAGNITUDE_MASK: u32 = 0x7fff_ffff;

/// The correctly rounded sum `a + b`.
pub uninterp spec fn binary32_add(a: u32, b: u32) -> u32;

/// The correctly rounded difference `a - b`.
pub uninterp spec fn binary32_sub(a: u32, b: u32) -> u32;

/// The correctly rounded product `a * b`.
pub uninterp spec fn binary32_mul(a: u32, b: u32) -> u32;

/// The correctly rounded quotient `a / b`.
pub uninterp spec fn binary32_div(a: u32, b: u32) -> u32;

/// The binary32 value nearest to the integer `n` (ties to even).
pub uninterp spec fn binary32_from_int(n: u128) -> u32;

/// Whether `x` encodes a NaN: all exponent bits set and a non-zero significand.
pub open spec fn is_nan(x: u32) -> bool {
    (x & 0x7f80_0000u32) == 0x7f80_0000u32 && (x & 0x007f_ffffu32) != 0
}

/// The position of a non-NaN value on the number line, as an integer with the
/// same order: the magnitude bits, negated when the sign bit is set. Both
/// zeros map to `0`.
pub open spec fn ordinal(x: u32) -> int {
    if (x & SIGN_MASK) == 0 {
        (x & MAGNITUDE_MASK) as int
    } else {
        -((x & MAGNITUDE_MASK) as int)
    }
}

/// IEEE `a > b`: false when either side is NaN.
pub open spec fn binary32_gt(a: u32, b: u32) -> bool {
    !is_nan(a) && !is_nan(b) && ordinal(a) > ordinal(b)
}

/// `|x|`: the sign bit cleared.
pub open spec fn binary32_abs(x: u32) -> u32 {
    x & MAGNITUDE_MASK
}

/// IEEE maxNum: the other argument when one is NaN, else the larger one
/// (`a` when neither is larger).
pub open spec fn binary32_max(a: u32, b: u32) -> u32 {
    if is_nan(a) {
        b
    } else if is_nan(b) {
        a
    } else if binary32_gt(b, a) {
        b
    } else {
        a
    }
}

/// IEEE minNum: the other argument when one is NaN, else the smaller one
/// (`a` when neither is smaller).
pub open spec fn binary32_min(a: u32, b: u32) -> u32 {
    if is_nan(a) {
        b
    } else if is_nan(b) {
        a
    } else if binary32_gt(a, b) {
        b
    } else {
        a
    }
}

/// Sum of two binary32 values, computed by `rustc_apfloat`'s `Float::add_r`
/// on `ieee::Single` with rounding to nearest, ties to even. The contract
/// names the result (`binary32_add` of the two bit patterns) and states two
/// IEEE 754 identities of it: adding `+0.0` to a number other than `-0.0` gives
/// that number back (`add_r` returns the other operand when one is zero), and
/// the sum of two numbers does not depend on their order (the correctly
/// rounded exact sum, with the sign of a zero sum chosen symmetrically).
#[verifier::external_body]
pub(crate) fn sum(a: u32, b: u32) -> (r: u32)
    ensures
        r == binary32_add(a, b),
        !is_nan(a) && !is_nan(b) ==> r == binary32_add(b, a),
        !is_nan(a) && a != SIGN_MASK && b == ZERO ==> r == a,
        !is_nan(b) && b != SIGN_MASK && a == ZERO ==> r == b,
{
    let x = Single::from_bits(a as u128);
    let y = Single::from_bits(b as u128);
    x.add_r(y, Round::NearestTiesToEven).value.to_bits() as u32
}

/// Difference of two binary32 values, computed by `rustc_apfloat`'s
/// `Float::sub_r` on `ieee::Single` with rounding to nearest, ties to even.
/// The contract only names the result: it is `binary32_sub` of the bit patterns.
#[verifier::external_body]
pub(crate) fn difference(a: u32, b: u32) -> (r: u32)
    ensures
        r == binary32_sub(a, b),
{
    let x = Single::from_bits(a as u128);
    let y = Single::from_bits(b as u128);
    x.sub_r(y, Round::NearestTiesToEven).value.to_bits() as u32
}

/// Product of two binary32 values, computed by `rustc_apfloat`'s
/// `Float::mul_r` on `ieee::Single` with rounding to nearest, ties to even.
/// The contract names the result (`binary32_mul` of the bit patterns) and
/// states one IEEE 754 identity of it: a number times `1.0` is that number
/// (the exact product is representable, so no rounding occurs).
#[verifier::external_body]
pub(crate) fn product(a: u32, b: u32) -> (r: u32)
    ensures
        r == binary32_mul(a, b),
        !is_nan(a) && b == ONE ==> r == a,
{
    let x = Single::from_bits(a as u128);
    let y = Single::from_bits(b as u128);
    x.mul_r(y, Round::NearestTiesToEven).value.to_bits() as u32
}

/// Quotient of two binary32 values, computed by `rustc_apfloat`'s
/// `Float::div_r` on `ieee::Single` with rounding to nearest, ties to even.
/// The contract only names the result: it is `binary32_div` of the bit patterns.
#[verifier::external_body]
pub(crate) fn quotient(a: u32, b: u32) -> (r: u32)
    ensures
        r == binary32_div(a, b),
{
    let x = Single::from_bits(a as u128);
    let y = Single::from_bits(b as u128);
    x.div_r(y, Round::NearestTiesToEven).value.to_bits() as u32
}

/// The binary32 value nearest to `n`, computed by `rustc_apfloat`'s
/// `Float::from_u128_r` on `ieee::Single` with rounding to nearest, ties to
/// even. The contract only names the result: it is `binary32_from_int(n)`.
#[verifier::external_body]
pub(crate) fn from_int(n: u128) -> (r: u32)
    ensures
        r == binary32_from_int(n),
{
    Single::from_u128_r(n, Round::NearestTiesToEven).value.to_bits() as u32
}

/// Whether `x` is a NaN.
pub fn nan(x: u32) -> (r: bool)
    ensures
        r == is_nan(x),
{
    (x & 0x7f80_0000u32) == 0x7f80_0000u32 && (x & 0x007f_ffffu32) != 0
}

/// IEEE `a > b`.
pub fn gt(a: u32, b: u32) -> (r: bool)
    ensures
        r == binary32_gt(a, b),
{
    if nan(a) || nan(b) {
        return false;
    }
    let ma: u32 = a & MAGNITUDE_MASK;
    let mb: u32 = b & MAGNITUDE_MASK;
    let na: bool = (a & SIGN_MASK) != 0;
    let nb: bool = (b & SIGN_MASK) != 0;
    if !na && !nb {
        ma > mb
    } else if na && nb {
        mb > ma
    } else if !na {
        ma > 0 || mb > 0
    } else {
        false
    }
}

/// `|x|`.
pub fn abs(x: u32) -> (r: u32)
    ensures
        r == binary32_abs(x),
{
    x & MAGNITUDE_MASK
}

/// IEEE maxNum of `a` and `b`.
pub fn max(a: u32, b: u32) -> (r: u32)
    ensures
        r == binary32_max(a, b),
{
    if nan(a) {
        b
    } else if nan(b) {
        a
    } else if gt(b, a) {
        b
    } else {
        a
    }
}

/// IEEE minNum of `a` and `b`.
pub fn min(a: u32, b: u32) -> (r: u32)
    ensures
        r == binary32_min(a, b),
{
    if nan(a) {
        b
    } else if nan(b) {
        a
    } else if gt(a, b) {
        b
    } else {
        a
    }
}

} // verus!
