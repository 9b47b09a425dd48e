use vstd::prelude::*;

use rustc_apfloat::Float;
use rustc_apfloat::ieee::Double;

use crate::scanner::is_decimal_lexeme;

verus! {

// IEEE 754 binary64 numbers are carried through the library as their bit
// patterns (`u64`), because the evaluator's contracts speak only of plain
// values. The functions below name and compute the binary64 operations on
// those bit patterns; the arithmetic itself is done by rustc_apfloat, a pure
// software implementation of IEEE 754 with round-to-nearest-ties-to-even,
// the semantics of the corresponding native f64 operations.
/// The binary64 bit pattern a decimal literal (digits with at most one dot)
/// denotes, correctly rounded.
pub uninterp spec fn dec_float_bits(s: Seq<char>) -> u64;

/// The binary64 bit pattern nearest to a 64-bit signed integer.
pub uninterp spec fn int_float_bits(i: i64) -> u64;

/// The binary64 sum of two numbers given as bit patterns.
pub uninterp spec fn float_add_bits(a: u64, b: u64) -> u64;

/// The binary64 difference of two numbers given as bit patterns.
pub uninterp spec fn float_sub_bits(a: u64, b: u64) -> u64;

/// The binary64 product of two numbers given as bit patterns.
pub uninterp spec fn float_mul_bits(a: u64, b: u64) -> u64;

/// The binary64 quotient of two numbers given as bit patterns.
pub uninterp spec fn float_div_bits(a: u64, b: u64) -> u64;

/// IEEE equality of two numbers given as bit patterns (`NaN` equals nothing,
/// the two zeros are equal).
pub uninterp spec fn float_eq_bits(a: u64, b: u64) -> bool;

/// IEEE strict less-than of two numbers given as bit patterns (false whenever
/// either is `NaN`).
pub uninterp spec fn float_lt_bits(a: u64, b: u64) -> bool;

/// Relies on rustc_apfloat's `FromStr` for `ieee::Double`: a string of digits
/// with at most one dot parses to the correctly rounded binary64 value.
#[verifier::external_body]
pub(crate) fn dec_to_float_bits(s: &Vec<char>) -> (r: u64)
    requires
        is_decimal_lexeme(s@),
    ensures
        r == dec_float_bits(s@),
{
    let text: String = s.iter().collect();
    match text.parse::<Double>() {
        Ok(d) => d.to_bits() as u64,
        Err(_) => 0,
    }
}

/// Relies on rustc_apfloat's `Float::from_i128`, which rounds an integer to
/// the nearest binary64 value, ties to even.
#[verifier::external_body]
pub(crate) fn int_to_float_bits(i: i64) -> (r: u64)
    ensures
        r == int_float_bits(i),
{
    Double::from_i128(i as i128).value.to_bits() as u64
}

/// Relies on rustc_apfloat's `core::ops::Add` for `ieee::Double`.
#[verifier::external_body]
pub(crate) fn float_add(a: u64, b: u64) -> (r: u64)
    ensures
        r == float_add_bits(a, b),
{
    (Double::from_bits(a as u128) + Double::from_bits(b as u128)).value.to_bits() as u64
}

/// Relies on rustc_apfloat's `core::ops::Sub` for `ieee::Double`.
#[verifier::external_body]
pub(crate) fn float_sub(a: u64, b: u64) -> (r: u64)
    ensures
        r == float_sub_bits(a, b),
{
    (Double::from_bits(a as u128) - Double::from_bits(b as u128)).value.to_bits() as u64
}

/// Relies on rustc_apfloat's `core::ops::Mul` for `ieee::Double`.
#[verifier::external_body]
pub(crate) fn float_mul(a: u64, b: u64) -> (r: u64)
    ensures
        r == float_mul_bits(a, b),
{
    (Double::from_bits(a as u128) * Double::from_bits(b as u128)).value.to_bits() as u64
}

/// Relies on rustc_apfloat's `core::ops::Div` for `ieee::Double`.
#[verifier::external_body]
pub(crate) fn float_div(a: u64, b: u64) -> (r: u64)
    ensures
        r == float_div_bits(a, b),
{
    (Double::from_bits(a as u128) / Double::from_bits(b as u128)).value.to_bits() as u64
}

/// Relies on rustc_apfloat's `PartialEq` for `ieee::Double`, which implements
/// IEEE equality.
#[verifier::external_body]
pub(crate) fn float_eq(a: u64, b: u64) -> (r: bool)
    ensures
        r == float_eq_bits(a, b),
{
    Double::from_bits(a as u128) == Double::from_bits(b as u128)
}

/// Relies on rustc_apfloat's `PartialOrd` for `ieee::Double`, which implements
/// the IEEE partial order.
#[verifier::external_body]
pub(crate) fn float_lt(a: u64, b: u64) -> (r: bool)
    ensures
        r == float_lt_bits(a, b),
{
    Double::from_bits(a as u128) < Double::from_bits(b as u128)
}

} // verus!
