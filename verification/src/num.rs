//! Number primitives.
//!
//! A runtime number is an IEEE-754 double carried as its 64-bit pattern, so
//! that the rest of the library works on plain `u64` values.  The arithmetic
//! itself is done by `rustc_apfloat`'s software implementation of IEEE-754
//! behind the trusted wrappers below; each result is named by an
//! uninterpreted spec function of the operand bits, which the callers'
//! contracts then speak of.

use vstd::prelude::*;
use rustc_apfloat::Float;
use rustc_apfloat::Round;
use rustc_apfloat::Status;
use rustc_apfloat::ieee::Double;

verus! {

pub uninterp spec fn add_bits(a: u64, b: u64) -> u64;

pub uninterp spec fn sub_bits(a: u64, b: u64) -> u64;

pub uninterp spec fn mul_bits(a: u64, b: u64) -> u64;

pub uninterp spec fn div_bits(a: u64, b: u64) -> u64;

/// IEEE-754 negation is exactly a sign-bit flip.
pub open spec fn neg_bits(a: u64) -> u64 {
    a ^ 0x8000000000000000
}

/// Whether the bits read as a NaN: an all-ones exponent with a nonzero
/// mantissa.
pub open spec fn is_nan_bits(a: u64) -> bool {
    (a >> 52) & 0x7ff == 0x7ff && a & 0xfffffffffffff != 0
}

/// Whether the bits read as a zero of either sign.
pub open spec fn is_zero_bits(a: u64) -> bool {
    a & 0x7fffffffffffffff == 0
}

/// Whether the bits read as a finite value (neither infinity nor NaN).
pub open spec fn is_finite_bits(a: u64) -> bool {
    (a >> 52) & 0x7ff != 0x7ff
}

/// The bit patterns of the two infinities.
pub const INFINITY_BITS: u64 = 0x7ff0000000000000;

pub const NEG_INFINITY_BITS: u64 = 0xfff0000000000000;

pub uninterp spec fn eq_bits(a: u64, b: u64) -> bool;

pub uninterp spec fn lt_bits(a: u64, b: u64) -> bool;

pub uninterp spec fn bits_of_u64(v: u64) -> u64;

pub uninterp spec fn int_of(a: u64) -> Option<i64>;

pub uninterp spec fn parse_bits(s: Seq<char>) -> Option<u64>;

pub uninterp spec fn fmt_bits(a: u64) -> Seq<char>;

pub uninterp spec fn trim_of(s: Seq<char>) -> Seq<char>;

/// Relies on `rustc_apfloat::Float::add_r` (round to nearest, ties to even):
/// the IEEE-754 double sum depends on the operand bits alone.
#[verifier::external_body]
pub fn num_add(a: u64, b: u64) -> (r: u64)
    ensures
        r == add_bits(a, b),
{
    Double::from_bits(a as u128).add_r(Double::from_bits(b as u128), Round::NearestTiesToEven).value.to_bits() as u64
}

/// Relies on `rustc_apfloat::Float::sub_r` (round to nearest, ties to even):
/// the IEEE-754 double difference depends on the operand bits alone.
#[verifier::external_body]
pub fn num_sub(a: u64, b: u64) -> (r: u64)
    ensures
        r == sub_bits(a, b),
{
    Double::from_bits(a as u128).sub_r(Double::from_bits(b as u128), Round::NearestTiesToEven).value.to_bits() as u64
}

/// Relies on `rustc_apfloat::Float::mul_r` (round to nearest, ties to even):
/// the IEEE-754 double product depends on the operand bits alone.
#[verifier::external_body]
pub fn num_mul(a: u64, b: u64) -> (r: u64)
    ensures
        r == mul_bits(a, b),
{
    Double::from_bits(a as u128).mul_r(Double::from_bits(b as u128), Round::NearestTiesToEven).value.to_bits() as u64
}

/// Relies on `rustc_apfloat::Float::div_r` (round to nearest, ties to even):
/// the IEEE-754 double quotient depends on the operand bits alone; division
/// by zero never traps: zero over zero is NaN, and a nonzero finite value
/// over zero is the infinity whose sign combines the operands' signs.
#[verifier::external_body]
pub fn num_div(a: u64, b: u64) -> (r: u64)
    ensures
        r == div_bits(a, b),
        (is_zero_bits(a) && is_zero_bits(b)) ==> is_nan_bits(r),
        (is_finite_bits(a) && !is_zero_bits(a) && is_zero_bits(b)) ==> r == if (a ^ b) >> 63 == 1 {
            NEG_INFINITY_BITS
        } else {
            INFINITY_BITS
        },
{
    Double::from_bits(a as u128).div_r(Double::from_bits(b as u128), Round::NearestTiesToEven).value.to_bits() as u64
}

/// Relies on `rustc_apfloat`'s `Neg` impl for doubles: IEEE-754 negation,
/// exactly the sign-bit flip [`neg_bits`] spells out.
#[verifier::external_body]
pub fn num_neg(a: u64) -> (r: u64)
    ensures
        r == neg_bits(a),
{
    (-Double::from_bits(a as u128)).to_bits() as u64
}

/// Relies on `rustc_apfloat`'s `PartialEq` impl for doubles: IEEE-754
/// equality of the operand bits - NaN equals nothing, the two zeros are
/// equal, and identical non-NaN bits are equal.
#[verifier::external_body]
pub fn num_eq(a: u64, b: u64) -> (r: bool)
    ensures
        r == eq_bits(a, b),
        (is_nan_bits(a) || is_nan_bits(b)) ==> !r,
        (is_zero_bits(a) && is_zero_bits(b)) ==> r,
        (a == b && !is_nan_bits(a)) ==> r,
{
    Double::from_bits(a as u128) == Double::from_bits(b as u128)
}

/// Relies on `rustc_apfloat`'s `PartialOrd::lt` for doubles: IEEE-754
/// ordered less-than of the operand bits - false whenever either is NaN,
/// and never reflexive.
#[verifier::external_body]
pub fn num_lt(a: u64, b: u64) -> (r: bool)
    ensures
        r == lt_bits(a, b),
        (is_nan_bits(a) || is_nan_bits(b)) ==> !r,
        a == b ==> !r,
{
    Double::from_bits(a as u128) < Double::from_bits(b as u128)
}

/// Relies on `rustc_apfloat::Float::from_u128`: the IEEE-754 double nearest
/// to the given unsigned integer, a function of that integer alone.
#[verifier::external_body]
pub fn num_from_u64(v: u64) -> (r: u64)
    ensures
        r == bits_of_u64(v),
{
    Double::from_u128(v as u128).value.to_bits() as u64
}

/// Relies on `rustc_apfloat::Float::to_i128_r`: yields `Some(i)` when the
/// double is a whole number that a 64-bit signed integer can hold and the
/// conversion reports itself exact (negative zero is not such a value),
/// and `None` otherwise (NaN, infinities, fractions, out of range).
#[verifier::external_body]
pub fn num_to_int(a: u64) -> (r: Option<i64>)
    ensures
        r == int_of(a),
{
    let mut exact = false;
    let c = Double::from_bits(a as u128).to_i128_r(64, Round::TowardZero, &mut exact);
    if c.status == Status::OK && exact {
        Some(c.value as i64)
    } else {
        None
    }
}

/// Relies on `rustc_apfloat`'s `FromStr` impl for doubles: parses a decimal
/// or hexadecimal float literal, a function of the characters alone.
#[verifier::external_body]
pub fn num_parse(s: &str) -> (r: Option<u64>)
    ensures
        r == parse_bits(s@),
{
    match s.parse::<Double>() {
        Ok(d) => Some(d.to_bits() as u64),
        Err(_) => None,
    }
}

/// Relies on `rustc_apfloat`'s `Display` impl for doubles: a decimal
/// rendering of the value, a function of the bits alone.
#[verifier::external_body]
pub fn num_to_text(a: u64) -> (r: String)
    ensures
        r@ == fmt_bits(a),
{
    format!("{}", Double::from_bits(a as u128))
}

/// Relies on `str::trim`: the input without leading and trailing
/// whitespace, a function of the characters alone; an already-trimmed
/// string comes back unchanged.
#[verifier::external_body]
pub fn str_trim(s: &str) -> (r: &str)
    ensures
        r@ == trim_of(s@),
{
    s.trim()
}

} // verus!
