//! Arithmetic on 64-bit IEEE-754 doubles, represented by their bit
//! patterns.
//!
//! The library stores a double as its raw bit pattern (see
//! [`crate::value::Value::Double`]). The operations themselves are carried
//! out by the `rustc_apfloat` software implementation of IEEE-754, rounding
//! to nearest, ties to even. Each operation is a pure function of the
//! operand bit patterns alone; the named results below stand for those
//! functions.

use vstd::prelude::*;

use rustc_apfloat::Float;

verus! {

/// The bit pattern of the IEEE-754 sum of the doubles with bit patterns
/// `a` and `b`.
pub uninterp spec fn double_add_bits(a: u64, b: u64) -> u64;

/// The bit pattern of the IEEE-754 difference of the doubles with bit
/// patterns `a` and `b`.
pub uninterp spec fn double_sub_bits(a: u64, b: u64) -> u64;

/// The bit pattern of the IEEE-754 product of the doubles with bit
/// patterns `a` and `b`.
pub uninterp spec fn double_mul_bits(a: u64, b: u64) -> u64;

/// The bit pattern of the IEEE-754 quotient of the doubles with bit
/// patterns `a` and `b`.
pub uninterp spec fn double_div_bits(a: u64, b: u64) -> u64;

/// The bit pattern of the remainder (C `fmod`) of the doubles with bit
/// patterns `a` and `b`.
pub uninterp spec fn double_rem_bits(a: u64, b: u64) -> u64;

/// The double denoted by a decimal literal, as a bit pattern; `None` when
/// the text is not a valid literal.
pub uninterp spec fn double_of_literal(s: Seq<char>) -> Option<u64>;

/// Relies on `rustc_apfloat::ieee::Double::add_r` (through `+`): correctly
/// rounded IEEE-754 addition, nearest-ties-to-even, a function of the two
/// bit patterns alone.
#[verifier::external_body]
pub fn double_add(a: u64, b: u64) -> (r: u64)
    ensures
        r == double_add_bits(a, b),
{
    let x = rustc_apfloat::ieee::Double::from_bits(a as u128);
    let y = rustc_apfloat::ieee::Double::from_bits(b as u128);
    (x + y).value.to_bits() as u64
}

/// Relies on `rustc_apfloat::ieee::Double::sub_r` (through `-`): correctly
/// rounded IEEE-754 subtraction, nearest-ties-to-even, a function of the
/// two bit patterns alone.
#[verifier::external_body]
pub fn double_sub(a: u64, b: u64) -> (r: u64)
    ensures
        r == double_sub_bits(a, b),
{
    let x = rustc_apfloat::ieee::Double::from_bits(a as u128);
    let y = rustc_apfloat::ieee::Double::from_bits(b as u128);
    (x - y).value.to_bits() as u64
}

/// Relies on `rustc_apfloat::ieee::Double::mul_r` (through `*`): correctly
/// rounded IEEE-754 multiplication, nearest-ties-to-even, a function of the
/// two bit patterns alone.
#[verifier::external_body]
pub fn double_mul(a: u64, b: u64) -> (r: u64)
    ensures
        r == double_mul_bits(a, b),
{
    let x = rustc_apfloat::ieee::Double::from_bits(a as u128);
    let y = rustc_apfloat::ieee::Double::from_bits(b as u128);
    (x * y).value.to_bits() as u64
}

/// Relies on `rustc_apfloat::ieee::Double::div_r` (through `/`): correctly
/// rounded IEEE-754 division, nearest-ties-to-even, a function of the two
/// bit patterns alone.
#[verifier::external_body]
pub fn double_div(a: u64, b: u64) -> (r: u64)
    ensures
        r == double_div_bits(a, b),
{
    let x = rustc_apfloat::ieee::Double::from_bits(a as u128);
    let y = rustc_apfloat::ieee::Double::from_bits(b as u128);
    (x / y).value.to_bits() as u64
}

/// Relies on `rustc_apfloat::ieee::Double::c_fmod` (through `%`): the C
/// `fmod` remainder, a function of the two bit patterns alone.
#[verifier::external_body]
pub fn double_rem(a: u64, b: u64) -> (r: u64)
    ensures
        r == double_rem_bits(a, b),
{
    let x = rustc_apfloat::ieee::Double::from_bits(a as u128);
    let y = rustc_apfloat::ieee::Double::from_bits(b as u128);
    (x % y).value.to_bits() as u64
}

/// Relies on `rustc_apfloat::ieee::Double::from_str_r`: correctly rounded
/// decimal-to-double conversion, nearest-ties-to-even, a function of the
/// text alone; it errors exactly on text that is not a valid literal.
#[verifier::external_body]
pub fn double_parse(s: &str) -> (r: Option<u64>)
    ensures
        r == double_of_literal(s@),
{
    match rustc_apfloat::ieee::Double::from_str_r(s, rustc_apfloat::Round::NearestTiesToEven) {
        Ok(sv) => Some(sv.value.to_bits() as u64),
        Err(_) => None,
    }
}

} // verus!
