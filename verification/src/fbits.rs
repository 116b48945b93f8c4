//! The scalar domain of the engine: IEEE 754 single-precision values,
//! carried as their raw 32-bit patterns.
//!
//! Verified code never performs floating-point arithmetic itself.  Each
//! arithmetic primitive is delegated to `rustc_apfloat`'s software
//! implementation of IEEE 754 binary32 through a trusted wrapper from bit
//! pattern to bit pattern, and the result of each primitive is given a
//! name (an uninterpreted spec function).  Contracts throughout the
//! engine pin every output to a composition of these names, so the
//! structure of every computation — null propagation, window placement,
//! recurrence order — is verified exactly, while the rounding arithmetic
//! itself is trusted to the outside crate.

use vstd::prelude::*;

use rustc_apfloat::Float;
use rustc_apfloat::ieee::Single;

verus! {

/// Bit pattern of 0.0f32.
pub const F32_ZERO: u32 = 0x0000_0000;

/// Bit pattern of 1.0f32.
pub const F32_ONE: u32 = 0x3F80_0000;

/// Bit pattern of -1.0f32.
pub const F32_NEG_ONE: u32 = 0xBF80_0000;

/// Bit pattern of 2.0f32.
pub const F32_TWO: u32 = 0x4000_0000;

/// Bit pattern of 6.0f32.
pub const F32_SIX: u32 = 0x40C0_0000;

/// The bit pattern that rounded IEEE single-precision addition returns
/// for the two operand bit patterns.
pub uninterp spec fn add_bits(a: u32, b: u32) -> u32;

/// The bit pattern that rounded IEEE single-precision subtraction returns
/// for the two operand bit patterns.
pub uninterp spec fn sub_bits(a: u32, b: u32) -> u32;

/// The bit pattern that rounded IEEE single-precision multiplication
/// returns for the two operand bit patterns.
pub uninterp spec fn mul_bits(a: u32, b: u32) -> u32;

/// The bit pattern that rounded IEEE single-precision division returns
/// for the two operand bit patterns.
pub uninterp spec fn div_bits(a: u32, b: u32) -> u32;

/// The IEEE single-precision comparison verdict for two operand bit
/// patterns: -1 for less, 0 for equal, 1 for greater, 2 for unordered
/// (a NaN on either side).
pub uninterp spec fn cmp_bits(a: u32, b: u32) -> i8;

/// The single-precision bit pattern that an unsigned integer rounds to.
pub uninterp spec fn usize_bits(n: usize) -> u32;

/// IEEE negation flips the sign bit and leaves the rest of the pattern
/// unchanged, so it needs no outside call.
pub open spec fn neg_bits(a: u32) -> u32 {
    a ^ 0x8000_0000
}

/// Relies on `rustc_apfloat::ieee::Single`'s `Add` (IEEE 754 addition,
/// round to nearest, ties to even): the result depends on the operand bit
/// patterns alone.
#[verifier::external_body]
pub fn add_f32(a: u32, b: u32) -> (r: u32)
    ensures
        r == add_bits(a, b),
{
    (Single::from_bits(a as u128) + Single::from_bits(b as u128)).value.to_bits() as u32
}

/// Relies on `rustc_apfloat::ieee::Single`'s `Sub` (IEEE 754 subtraction,
/// round to nearest, ties to even): the result depends on the operand bit
/// patterns alone.
#[verifier::external_body]
pub fn sub_f32(a: u32, b: u32) -> (r: u32)
    ensures
        r == sub_bits(a, b),
{
    (Single::from_bits(a as u128) - Single::from_bits(b as u128)).value.to_bits() as u32
}

/// Relies on `rustc_apfloat::ieee::Single`'s `Mul` (IEEE 754
/// multiplication, round to nearest, ties to even): the result depends on
/// the operand bit patterns alone.
#[verifier::external_body]
pub fn mul_f32(a: u32, b: u32) -> (r: u32)
    ensures
        r == mul_bits(a, b),
{
    (Single::from_bits(a as u128) * Single::from_bits(b as u128)).value.to_bits() as u32
}

/// Relies on `rustc_apfloat::ieee::Single`'s `Div` (IEEE 754 division,
/// round to nearest, ties to even; a zero divisor yields an infinity or a
/// NaN, never a panic): the result depends on the operand bit patterns
/// alone.
#[verifier::external_body]
pub fn div_f32(a: u32, b: u32) -> (r: u32)
    ensures
        r == div_bits(a, b),
{
    (Single::from_bits(a as u128) / Single::from_bits(b as u128)).value.to_bits() as u32
}

/// Relies on `rustc_apfloat::ieee::Single`'s `PartialOrd` (IEEE 754
/// comparison: the two zeros compare equal, a NaN compares unordered with
/// everything): the verdict depends on the operand bit patterns alone.
#[verifier::external_body]
pub fn cmp_f32(a: u32, b: u32) -> (r: i8)
    ensures
        r == cmp_bits(a, b),
        r == -1 || r == 0 || r == 1 || r == 2,
{
    match Single::from_bits(a as u128).partial_cmp(&Single::from_bits(b as u128)) {
        Some(core::cmp::Ordering::Less) => -1,
        Some(core::cmp::Ordering::Equal) => 0,
        Some(core::cmp::Ordering::Greater) => 1,
        None => 2,
    }
}

/// Relies on `rustc_apfloat::Float::from_u128` (integer to
/// single-precision conversion, round to nearest, ties to even): the
/// result depends on the integer alone.
#[verifier::external_body]
pub fn usize_f32(n: usize) -> (r: u32)
    ensures
        r == usize_bits(n),
{
    Single::from_u128(n as u128).value.to_bits() as u32
}

/// IEEE negation of a single-precision bit pattern: flip the sign bit.
pub fn neg_f32(a: u32) -> (r: u32)
    ensures
        r == neg_bits(a),
{
    a ^ 0x8000_0000
}

} // verus!
