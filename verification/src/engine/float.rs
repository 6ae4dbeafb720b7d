//! IEEE 754 binary64 arithmetic on bit patterns.
//!
//! The engine carries floating-point values as their bits; the operations
//! below compute on those bits through `rustc_apfloat`'s software
//! implementation of IEEE 754, rounding to nearest, ties to even.

use rustc_apfloat::ieee::{Double, Single};
use rustc_apfloat::{Float, FloatConvert};
use vstd::prelude::*;

verus! {

/// Bits of the binary64 sum `a + b`.
pub uninterp spec fn f64_sum(a: u64, b: u64) -> u64;

/// Bits of the binary64 difference `a - b`.
pub uninterp spec fn f64_difference(a: u64, b: u64) -> u64;

/// Bits of the binary64 product `a * b`.
pub uninterp spec fn f64_product(a: u64, b: u64) -> u64;

/// Bits of the binary64 quotient `a / b`.
pub uninterp spec fn f64_quotient(a: u64, b: u64) -> u64;

/// Bits of the binary64 remainder of `a / b` truncated toward zero (C `fmod`).
pub uninterp spec fn f64_remainder(a: u64, b: u64) -> u64;

/// Bits of the binary64 value nearest to the integer `x`.
pub uninterp spec fn f64_from_i64(x: i64) -> u64;

/// Bits of the binary64 value nearest to the unsigned integer `x`.
pub uninterp spec fn f64_from_u64(x: u64) -> u64;

/// Bits of the binary64 value equal to the binary32 value with bits `x`.
pub uninterp spec fn f64_from_f32(x: u32) -> u64;

/// `<Double as Add>::add`: bits of the rounded sum.
#[verifier::external_body]
pub(crate) fn add_bits(a: u64, b: u64) -> (r: u64)
    ensures
        r == f64_sum(a, b),
{
    (Double::from_bits(a as u128) + Double::from_bits(b as u128)).value.to_bits() as u64
}

/// `<Double as Sub>::sub`: bits of the rounded difference.
#[verifier::external_body]
pub(crate) fn sub_bits(a: u64, b: u64) -> (r: u64)
    ensures
        r == f64_difference(a, b),
{
    (Double::from_bits(a as u128) - Double::from_bits(b as u128)).value.to_bits() as u64
}

/// `<Double as Mul>::mul`: bits of the rounded product.
#[verifier::external_body]
pub(crate) fn mul_bits(a: u64, b: u64) -> (r: u64)
    ensures
        r == f64_product(a, b),
{
    (Double::from_bits(a as u128) * Double::from_bits(b as u128)).value.to_bits() as u64
}

/// `<Double as Div>::div`: bits of the rounded quotient.
#[verifier::external_body]
pub(crate) fn div_bits(a: u64, b: u64) -> (r: u64)
    ensures
        r == f64_quotient(a, b),
{
    (Double::from_bits(a as u128) / Double::from_bits(b as u128)).value.to_bits() as u64
}

/// `<Double as Rem>::rem` (`c_fmod`): bits of the remainder.
#[verifier::external_body]
pub(crate) fn rem_bits(a: u64, b: u64) -> (r: u64)
    ensures
        r == f64_remainder(a, b),
{
    (Double::from_bits(a as u128) % Double::from_bits(b as u128)).value.to_bits() as u64
}

/// `Double::from_i128`: bits of the binary64 value nearest to `x`.
#[verifier::external_body]
pub(crate) fn from_i64_bits(x: i64) -> (r: u64)
    ensures
        r == f64_from_i64(x),
{
    Double::from_i128(x as i128).value.to_bits() as u64
}

/// `Double::from_u128`: bits of the binary64 value nearest to `x`.
#[verifier::external_body]
pub(crate) fn from_u64_bits(x: u64) -> (r: u64)
    ensures
        r == f64_from_u64(x),
{
    Double::from_u128(x as u128).value.to_bits() as u64
}

/// `<Single as FloatConvert<Double>>::convert`: bits of the widened value.
#[verifier::external_body]
pub(crate) fn from_f32_bits(x: u32) -> (r: u64)
    ensures
        r == f64_from_f32(x),
{
    let mut loses_info = false;
    let wide: Double = Single::from_bits(x as u128).convert(&mut loses_info).value;
    wide.to_bits() as u64
}

/// The key by which the IEEE total order (Rust's `f64` total ordering) ranks the value with bits `bits`:
/// the bits read as a signed integer, with all but the sign bit flipped
/// for negative values.
pub open spec fn total_key(bits: u64) -> int {
    if bits < 0x8000_0000_0000_0000u64 {
        bits as int
    } else {
        0x7FFF_FFFF_FFFF_FFFFint - bits as int
    }
}

/// The total-order key of the value with bits `bits`.
pub fn total_order_key(bits: u64) -> (key: i64)
    ensures
        key as int == total_key(bits),
{
    if bits < 0x8000_0000_0000_0000u64 {
        bits as i64
    } else {
        let magnitude: u64 = bits - 0x8000_0000_0000_0000u64;
        -(magnitude as i64) - 1
    }
}

} // verus!
