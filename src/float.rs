use rustc_apfloat::ieee::Double;
use rustc_apfloat::Float;
use crate::lexicon::is_digit;
use vstd::prelude::*;

verus! {

// Floating-point values are carried as the bit patterns of IEEE-754 binary64
// numbers. The arithmetic on them is done by rustc_apfloat's software
// implementation, whose results depend on the operands alone.

/// The binary64 number nearest to a decimal text, or `None` where the text is
/// not a number.
pub uninterp spec fn decimal_to_double(s: Seq<char>) -> Option<u64>;

/// The binary64 number nearest to an integer.
pub uninterp spec fn double_of_int(i: int) -> u64;

/// The rounded sum of two binary64 numbers.
pub uninterp spec fn double_sum(a: u64, b: u64) -> u64;

/// The rounded difference of two binary64 numbers.
pub uninterp spec fn double_difference(a: u64, b: u64) -> u64;

/// The rounded product of two binary64 numbers.
pub uninterp spec fn double_product(a: u64, b: u64) -> u64;

/// The rounded quotient of two binary64 numbers.
pub uninterp spec fn double_quotient(a: u64, b: u64) -> u64;

/// Relies on rustc_apfloat's `FromStr` for `ieee::Double` (round to nearest,
/// ties to even): the result depends on the text alone. Only texts of digits
/// and dots are handed to it.
#[verifier::external_body]
pub(crate) fn parse_double(s: &str) -> (r: Option<u64>)
    requires
        s@.len() > 0,
        forall|k: int| 0 <= k < s@.len() ==> is_digit(#[trigger] s@[k]) || s@[k] == '.',
    ensures
        r == decimal_to_double(s@),
{
    match s.parse::<Double>() {
        Ok(d) => Some(d.to_bits() as u64),
        Err(_) => None,
    }
}

/// Relies on rustc_apfloat's `Float::from_i128` for `ieee::Double`.
#[verifier::external_body]
pub(crate) fn double_from_int(i: i32) -> (r: u64)
    ensures
        r == double_of_int(i as int),
{
    Double::from_i128(i as i128).value.to_bits() as u64
}

/// Relies on rustc_apfloat's `Add` for `ieee::Double`.
#[verifier::external_body]
pub(crate) fn double_add(a: u64, b: u64) -> (r: u64)
    ensures
        r == double_sum(a, b),
{
    (Double::from_bits(a as u128) + Double::from_bits(b as u128)).value.to_bits() as u64
}

/// Relies on rustc_apfloat's `Sub` for `ieee::Double`.
#[verifier::external_body]
pub(crate) fn double_sub(a: u64, b: u64) -> (r: u64)
    ensures
        r == double_difference(a, b),
{
    (Double::from_bits(a as u128) - Double::from_bits(b as u128)).value.to_bits() as u64
}

/// Relies on rustc_apfloat's `Mul` for `ieee::Double`.
#[verifier::external_body]
pub(crate) fn double_mul(a: u64, b: u64) -> (r: u64)
    ensures
        r == double_product(a, b),
{
    (Double::from_bits(a as u128) * Double::from_bits(b as u128)).value.to_bits() as u64
}

/// Relies on rustc_apfloat's `Div` for `ieee::Double` (a zero divisor gives an
/// infinity or NaN, as IEEE-754 prescribes).
#[verifier::external_body]
pub(crate) fn double_div(a: u64, b: u64) -> (r: u64)
    ensures
        r == double_quotient(a, b),
{
    (Double::from_bits(a as u128) / Double::from_bits(b as u128)).value.to_bits() as u64
}

} // verus!
