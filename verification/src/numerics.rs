//! Numbers are IEEE 754 binary64 values, represented throughout the
//! library by their 64-bit patterns.  The operations on them are done in
//! software by outside crates, behind the trusted wrappers below; each
//! wrapper pins its result to an uninterpreted function of the operand
//! bits, so the whole pipeline is a function of its input text.

use vstd::prelude::*;
use rustc_apfloat::Float;

verus! {

/// The binary64 value denoted by a decimal literal, rounded to nearest,
/// ties to even.
pub uninterp spec fn literal_bits(s: Seq<char>) -> u64;

/// The binary64 sum of the values the two bit patterns encode.
pub uninterp spec fn add_bits(a: u64, b: u64) -> u64;

/// The binary64 difference of the values the two bit patterns encode.
pub uninterp spec fn sub_bits(a: u64, b: u64) -> u64;

/// The binary64 product of the values the two bit patterns encode.
pub uninterp spec fn mul_bits(a: u64, b: u64) -> u64;

/// The binary64 quotient of the values the two bit patterns encode.
pub uninterp spec fn div_bits(a: u64, b: u64) -> u64;

/// The first value raised to the power of the second.
pub uninterp spec fn pow_bits(a: u64, b: u64) -> u64;

/// IEEE 754 equality of the values the two bit patterns encode.
pub uninterp spec fn eq_bits(a: u64, b: u64) -> bool;

/// IEEE 754 less-than on the values the two bit patterns encode.
pub uninterp spec fn lt_bits(a: u64, b: u64) -> bool;

/// IEEE 754 less-than-or-equal on the values the two bit patterns encode.
pub uninterp spec fn le_bits(a: u64, b: u64) -> bool;

/// Whether a character has the Unicode `Alphabetic` property.
pub uninterp spec fn alphabetic(c: char) -> bool;

/// IEEE 754 negation flips the sign bit and leaves the rest unchanged.
pub open spec fn neg_bits(a: u64) -> u64 {
    a ^ 0x8000_0000_0000_0000
}

/// A decimal digit.
pub open spec fn is_digit_char(c: char) -> bool {
    '0' <= c && c <= '9'
}

/// A character that may stand in a numeric literal.
pub open spec fn is_lit_char(c: char) -> bool {
    is_digit_char(c) || c == '.'
}

/// How many decimal points a literal's text holds.
pub open spec fn dots_in(s: Seq<char>) -> nat
    decreases s.len(),
{
    if s.len() == 0 {
        0
    } else {
        dots_in(s.drop_last()) + if s.last() == '.' {
            1nat
        } else {
            0nat
        }
    }
}

/// Whether the text holds at least one decimal digit.
pub open spec fn has_digit(s: Seq<char>) -> bool {
    exists|i: int| 0 <= i < s.len() && is_digit_char(s[i])
}

/// The text of a well-formed numeric literal: digits and at most one
/// decimal point, with at least one digit.
pub open spec fn valid_literal(s: Seq<char>) -> bool {
    &&& s.len() > 0
    &&& forall|i: int| 0 <= i < s.len() ==> is_lit_char(s[i])
    &&& dots_in(s) <= 1
    &&& has_digit(s)
}

/// Relies on rustc_apfloat's `ieee::Double` for `FromStr`: a decimal
/// string of digits with at most one dot is converted to the nearest
/// binary64 value, ties to even, as IEEE 754 prescribes.
#[verifier::external_body]
pub(crate) fn parse_literal(s: &str) -> (r: u64)
    requires
        valid_literal(s@),
    ensures
        r == literal_bits(s@),
{
    let d: rustc_apfloat::ieee::Double = s.parse().unwrap();
    d.to_bits() as u64
}

/// Relies on rustc_apfloat's `ieee::Double::add_r`: binary64 addition,
/// rounded to nearest, ties to even.
#[verifier::external_body]
pub(crate) fn num_add(a: u64, b: u64) -> (r: u64)
    ensures
        r == add_bits(a, b),
{
    let x = rustc_apfloat::ieee::Double::from_bits(a as u128);
    let y = rustc_apfloat::ieee::Double::from_bits(b as u128);
    (x + y).value.to_bits() as u64
}

/// Relies on rustc_apfloat's `ieee::Double::sub_r`: binary64
/// subtraction, rounded to nearest, ties to even.
#[verifier::external_body]
pub(crate) fn num_sub(a: u64, b: u64) -> (r: u64)
    ensures
        r == sub_bits(a, b),
{
    let x = rustc_apfloat::ieee::Double::from_bits(a as u128);
    let y = rustc_apfloat::ieee::Double::from_bits(b as u128);
    (x - y).value.to_bits() as u64
}

/// Relies on rustc_apfloat's `ieee::Double::mul_r`: binary64
/// multiplication, rounded to nearest, ties to even.
#[verifier::external_body]
pub(crate) fn num_mul(a: u64, b: u64) -> (r: u64)
    ensures
        r == mul_bits(a, b),
{
    let x = rustc_apfloat::ieee::Double::from_bits(a as u128);
    let y = rustc_apfloat::ieee::Double::from_bits(b as u128);
    (x * y).value.to_bits() as u64
}

/// Relies on rustc_apfloat's `ieee::Double::div_r`: binary64 division,
/// rounded to nearest, ties to even; division by zero yields an
/// infinity or NaN, as IEEE 754 prescribes.
#[verifier::external_body]
pub(crate) fn num_div(a: u64, b: u64) -> (r: u64)
    ensures
        r == div_bits(a, b),
{
    let x = rustc_apfloat::ieee::Double::from_bits(a as u128);
    let y = rustc_apfloat::ieee::Double::from_bits(b as u128);
    (x / y).value.to_bits() as u64
}

/// Relies on libm's `pow`: the real-exponent power function on binary64
/// values, and on bytemuck's `cast` to move between a 64-bit float and
/// its bit pattern.
#[verifier::external_body]
pub(crate) fn num_pow(a: u64, b: u64) -> (r: u64)
    ensures
        r == pow_bits(a, b),
{
    bytemuck::cast(libm::pow(bytemuck::cast(a), bytemuck::cast(b)))
}

/// Relies on rustc_apfloat's `Neg` for `ieee::Double`, which flips the
/// sign bit and leaves the significand and exponent unchanged.
#[verifier::external_body]
pub(crate) fn num_neg(a: u64) -> (r: u64)
    ensures
        r == neg_bits(a),
{
    let x = rustc_apfloat::ieee::Double::from_bits(a as u128);
    (-x).to_bits() as u64
}

/// Relies on rustc_apfloat's `PartialEq` for `ieee::Double`: IEEE 754
/// equality, under which NaN equals nothing and the two zeros are equal.
#[verifier::external_body]
pub(crate) fn num_eq(a: u64, b: u64) -> (r: bool)
    ensures
        r == eq_bits(a, b),
{
    rustc_apfloat::ieee::Double::from_bits(a as u128) == rustc_apfloat::ieee::Double::from_bits(
        b as u128,
    )
}

/// Relies on rustc_apfloat's `PartialOrd` for `ieee::Double`: the IEEE
/// 754 partial order, under which NaN is unordered.
#[verifier::external_body]
pub(crate) fn num_lt(a: u64, b: u64) -> (r: bool)
    ensures
        r == lt_bits(a, b),
{
    rustc_apfloat::ieee::Double::from_bits(a as u128) < rustc_apfloat::ieee::Double::from_bits(
        b as u128,
    )
}

/// Relies on rustc_apfloat's `PartialOrd` for `ieee::Double`: the IEEE
/// 754 partial order, under which NaN is unordered.
#[verifier::external_body]
pub(crate) fn num_le(a: u64, b: u64) -> (r: bool)
    ensures
        r == le_bits(a, b),
{
    rustc_apfloat::ieee::Double::from_bits(a as u128) <= rustc_apfloat::ieee::Double::from_bits(
        b as u128,
    )
}

/// Relies on `char::is_alphabetic`: whether the character has the
/// Unicode `Alphabetic` property, a fixed classification of each
/// character.
#[verifier::external_body]
pub(crate) fn char_is_alphabetic(c: char) -> (r: bool)
    ensures
        r == alphabetic(c),
{
    c.is_alphabetic()
}

} // verus!
