//! Arithmetic on IEEE 754 binary64 values, carried as their 64-bit patterns.
//!
//! The verified graph code never inspects a number: every value travels as the
//! `u64` bit pattern of an IEEE 754 binary64 number, and each arithmetic
//! operation is an outside call whose result is named by an uninterpreted
//! spec function of the operand bits. All of the operations below are pure:
//! the result bits depend on the argument bits alone, on every machine.

use vstd::prelude::*;
use rustc_apfloat::Float;
use rustc_apfloat::ieee::Double;

verus! {

/// The bit pattern of positive zero, the initial value of every gradient
/// accumulator.
pub const POS_ZERO_BITS: u64 = 0;

/// The bit pattern of one, the seed placed on the root of a reverse pass.
pub const ONE_BITS: u64 = 0x3FF0_0000_0000_0000;

/// The sum of the binary64 values encoded by `a` and `b`, rounded to nearest,
/// ties to even.
pub uninterp spec fn add_bits(a: u64, b: u64) -> u64;

/// The difference of the binary64 values encoded by `a` and `b`.
pub uninterp spec fn sub_bits(a: u64, b: u64) -> u64;

/// The product of the binary64 values encoded by `a` and `b`.
pub uninterp spec fn mul_bits(a: u64, b: u64) -> u64;

/// The quotient of the binary64 values encoded by `a` and `b`.
pub uninterp spec fn div_bits(a: u64, b: u64) -> u64;

/// The binary64 value encoded by `a`, raised to the binary64 value encoded by
/// `b`.
pub uninterp spec fn pow_bits(a: u64, b: u64) -> u64;

/// The exponential of the binary64 value encoded by `a`.
pub uninterp spec fn exp_bits(a: u64) -> u64;

/// The hyperbolic tangent of the binary64 value encoded by `a`.
pub uninterp spec fn tanh_bits(a: u64) -> u64;

/// The negation of a binary64 value flips exactly the sign bit.
pub open spec fn neg_bits(a: u64) -> u64 {
    a ^ 0x8000_0000_0000_0000
}

/// Relies on rustc_apfloat's binary64 addition (`IeeeFloat::add_r`, round to
/// nearest, ties to even): the sum's bits are a function of the operand bits
/// alone.
#[verifier::external_body]
pub(crate) fn fadd(a: u64, b: u64) -> (r: u64)
    ensures
        r == add_bits(a, b),
{
    (Double::from_bits(a as u128) + Double::from_bits(b as u128)).value.to_bits() as u64
}

/// Relies on rustc_apfloat's binary64 subtraction (`IeeeFloat::sub_r`, round
/// to nearest, ties to even).
#[verifier::external_body]
pub(crate) fn fsub(a: u64, b: u64) -> (r: u64)
    ensures
        r == sub_bits(a, b),
{
    (Double::from_bits(a as u128) - Double::from_bits(b as u128)).value.to_bits() as u64
}

/// Relies on rustc_apfloat's binary64 multiplication (`IeeeFloat::mul_r`,
/// round to nearest, ties to even).
#[verifier::external_body]
pub(crate) fn fmul(a: u64, b: u64) -> (r: u64)
    ensures
        r == mul_bits(a, b),
{
    (Double::from_bits(a as u128) * Double::from_bits(b as u128)).value.to_bits() as u64
}

/// Relies on rustc_apfloat's binary64 division (`IeeeFloat::div_r`, round to
/// nearest, ties to even). A zero divisor yields an infinity or a NaN, as the
/// IEEE rules say; it is not an error.
#[verifier::external_body]
pub(crate) fn fdiv(a: u64, b: u64) -> (r: u64)
    ensures
        r == div_bits(a, b),
{
    (Double::from_bits(a as u128) / Double::from_bits(b as u128)).value.to_bits() as u64
}

/// Relies on libm's `pow`: a deterministic, pure power function on binary64
/// values.
#[verifier::external_body]
pub(crate) fn fpow(a: u64, b: u64) -> (r: u64)
    ensures
        r == pow_bits(a, b),
{
    bytemuck::cast(libm::pow(bytemuck::cast(a), bytemuck::cast(b)))
}

/// Relies on libm's `exp`: a deterministic, pure exponential on binary64
/// values.
#[verifier::external_body]
pub(crate) fn fexp(a: u64) -> (r: u64)
    ensures
        r == exp_bits(a),
{
    bytemuck::cast(libm::exp(bytemuck::cast(a)))
}

/// Relies on libm's `tanh`: a deterministic, pure hyperbolic tangent on
/// binary64 values.
#[verifier::external_body]
pub(crate) fn ftanh(a: u64) -> (r: u64)
    ensures
        r == tanh_bits(a),
{
    bytemuck::cast(libm::tanh(bytemuck::cast(a)))
}

/// Negation needs no outside call: on binary64 values it flips the sign bit.
pub(crate) fn fneg(a: u64) -> (r: u64)
    ensures
        r == neg_bits(a),
{
    a ^ 0x8000_0000_0000_0000
}

} // verus!
