//! Double-precision arithmetic on raw bit patterns.
//!
//! Measurements travel through the library as the 64 bits of their IEEE 754
//! double-precision encoding. The operations below are the only way the
//! library combines them; each is a deterministic pure function of its
//! operand bit patterns, performed by `rustc_apfloat`'s software
//! implementation of IEEE 754 binary64 arithmetic with round-to-nearest-even,
//! and each result is named by an uninterpreted spec function so contracts
//! can pin results down without restating the arithmetic.

use rustc_apfloat::ieee::Double;
use rustc_apfloat::Float;
use vstd::prelude::*;

verus! {

/// Bit pattern of the double-precision sum of two bit patterns.
pub uninterp spec fn add_bits(a: u64, b: u64) -> u64;

/// Bit pattern of the double-precision difference of two bit patterns.
pub uninterp spec fn sub_bits(a: u64, b: u64) -> u64;

/// Bit pattern of the double-precision product of two bit patterns.
pub uninterp spec fn mul_bits(a: u64, b: u64) -> u64;

/// Bit pattern of the double-precision quotient of two bit patterns.
pub uninterp spec fn div_bits(a: u64, b: u64) -> u64;

/// Bit pattern of the double-precision absolute value.
pub uninterp spec fn abs_bits(a: u64) -> u64;

/// Whether the first double-precision value compares strictly greater than
/// the second; false whenever either is a NaN.
pub uninterp spec fn gt_bits(a: u64, b: u64) -> bool;

/// Bit pattern of the double-precision value nearest to the integer.
pub uninterp spec fn bits_of_int(x: int) -> u64;

/// The 64-bit unsigned integer a double-precision value converts to when
/// truncated toward zero, saturating at the type's bounds, zero for NaN.
pub uninterp spec fn usize_of_bits(a: u64) -> usize;

/// Bit pattern of positive zero, the starting accumulator of value sums.
pub const ZERO_BITS: u64 = 0;

/// Bit pattern of one half, the final factor of the triangle-area formula.
pub const HALF_BITS: u64 = 0x3FE0000000000000;

/// Bit pattern of minus one, the sentinel a running maximum area starts from.
pub const NEG_ONE_BITS: u64 = 0xBFF0000000000000;

/// Relies on rustc_apfloat's IEEE 754 binary64 addition (round to nearest
/// even): the sum's bits are a pure function of the operand bits.
#[verifier::external_body]
pub fn fadd(a: u64, b: u64) -> (r: u64)
    ensures
        r == add_bits(a, b),
{
    (Double::from_bits(a as u128) + Double::from_bits(b as u128)).value.to_bits() as u64
}

/// Relies on rustc_apfloat's IEEE 754 binary64 subtraction (round to nearest
/// even): the difference's bits are a pure function of the operand bits.
#[verifier::external_body]
pub fn fsub(a: u64, b: u64) -> (r: u64)
    ensures
        r == sub_bits(a, b),
{
    (Double::from_bits(a as u128) - Double::from_bits(b as u128)).value.to_bits() as u64
}

/// Relies on rustc_apfloat's IEEE 754 binary64 multiplication (round to
/// nearest even): the product's bits are a pure function of the operand bits.
#[verifier::external_body]
pub fn fmul(a: u64, b: u64) -> (r: u64)
    ensures
        r == mul_bits(a, b),
{
    (Double::from_bits(a as u128) * Double::from_bits(b as u128)).value.to_bits() as u64
}

/// Relies on rustc_apfloat's IEEE 754 binary64 division (round to nearest
/// even): the quotient's bits are a pure function of the operand bits.
#[verifier::external_body]
pub fn fdiv(a: u64, b: u64) -> (r: u64)
    ensures
        r == div_bits(a, b),
{
    (Double::from_bits(a as u128) / Double::from_bits(b as u128)).value.to_bits() as u64
}

/// Relies on rustc_apfloat's `Float::abs`: clears the sign, a pure function
/// of the operand bits.
#[verifier::external_body]
pub fn fabs(a: u64) -> (r: u64)
    ensures
        r == abs_bits(a),
{
    Double::from_bits(a as u128).abs().to_bits() as u64
}

/// Relies on rustc_apfloat's IEEE 754 binary64 comparison: strictly-greater
/// is a pure function of the operand bits, false on unordered (NaN) operands.
#[verifier::external_body]
pub fn fgt(a: u64, b: u64) -> (r: bool)
    ensures
        r == gt_bits(a, b),
{
    Double::from_bits(a as u128).partial_cmp(&Double::from_bits(b as u128)) == Some(
        core::cmp::Ordering::Greater,
    )
}

/// Relies on rustc_apfloat's `Float::from_i128` (round to nearest even): the
/// double nearest to an integer is a pure function of that integer.
#[verifier::external_body]
pub fn f_of_int(x: i128) -> (r: u64)
    ensures
        r == bits_of_int(x as int),
{
    Double::from_i128(x).value.to_bits() as u64
}

/// Relies on rustc_apfloat's `Float::to_u128` with width 64: conversion to an
/// unsigned integer truncating toward zero, saturating out-of-range values at
/// the bounds and NaN at zero — a pure function of the operand bits.
#[verifier::external_body]
pub fn f_to_usize(a: u64) -> (r: usize)
    ensures
        r == usize_of_bits(a),
{
    Double::from_bits(a as u128).to_u128(64).value as usize
}

} // verus!
