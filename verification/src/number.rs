use vstd::prelude::*;

use rustc_apfloat::Float;
use rustc_apfloat::ieee::Double;

use crate::scanner::number_lexeme;

verus! {

/// The sign bit of an IEEE 754 double's 64-bit representation.
pub const SIGN_BIT: u64 = 0x8000_0000_0000_0000;

/// The bits of the IEEE 754 double that the given bits sum to, with
/// round-to-nearest-even.
pub uninterp spec fn ieee_add(a: u64, b: u64) -> u64;

/// The bits of the IEEE 754 double difference `a - b`.
pub uninterp spec fn ieee_sub(a: u64, b: u64) -> u64;

/// The bits of the IEEE 754 double product `a * b`.
pub uninterp spec fn ieee_mul(a: u64, b: u64) -> u64;

/// The bits of the IEEE 754 double quotient `a / b`.
pub uninterp spec fn ieee_div(a: u64, b: u64) -> u64;

/// IEEE 754 less-than on the doubles the given bits denote; false
/// whenever either operand is a NaN.
pub uninterp spec fn ieee_lt(a: u64, b: u64) -> bool;

/// IEEE 754 less-or-equal on the doubles the given bits denote; false
/// whenever either operand is a NaN.
pub uninterp spec fn ieee_le(a: u64, b: u64) -> bool;

/// The bits of the IEEE 754 double that a decimal literal (digits with at
/// most one interior dot) denotes, correctly rounded to nearest-even.
pub uninterp spec fn ieee_of_decimal(s: Seq<u8>) -> u64;

/// IEEE 754 greater-than, which holds exactly when the mirrored
/// less-than does.
pub open spec fn ieee_gt(a: u64, b: u64) -> bool {
    ieee_lt(b, a)
}

/// IEEE 754 greater-or-equal, which holds exactly when the mirrored
/// less-or-equal does.
pub open spec fn ieee_ge(a: u64, b: u64) -> bool {
    ieee_le(b, a)
}

/// IEEE 754 negation: the sign bit flips and nothing else changes.
pub open spec fn ieee_neg(a: u64) -> u64 {
    a ^ SIGN_BIT
}

/// Relies on `rustc_apfloat::ieee::Double`'s `Add` (via `add_r` with
/// round-to-nearest-even): the sum's bits depend on the operand bits alone.
#[verifier::external_body]
pub(crate) fn add_bits(a: u64, b: u64) -> (r: u64)
    ensures
        r == ieee_add(a, b),
{
    (Double::from_bits(a as u128) + Double::from_bits(b as u128)).value.to_bits() as u64
}

/// Relies on `rustc_apfloat::ieee::Double`'s `Sub` (via `sub_r` with
/// round-to-nearest-even): the difference's bits depend on the operand
/// bits alone.
#[verifier::external_body]
pub(crate) fn sub_bits(a: u64, b: u64) -> (r: u64)
    ensures
        r == ieee_sub(a, b),
{
    (Double::from_bits(a as u128) - Double::from_bits(b as u128)).value.to_bits() as u64
}

/// Relies on `rustc_apfloat::ieee::Double`'s `Mul` (via `mul_r` with
/// round-to-nearest-even): the product's bits depend on the operand bits
/// alone.
#[verifier::external_body]
pub(crate) fn mul_bits(a: u64, b: u64) -> (r: u64)
    ensures
        r == ieee_mul(a, b),
{
    (Double::from_bits(a as u128) * Double::from_bits(b as u128)).value.to_bits() as u64
}

/// Relies on `rustc_apfloat::ieee::Double`'s `Div` (via `div_r` with
/// round-to-nearest-even): the quotient's bits depend on the operand bits
/// alone; division by zero follows IEEE 754 (infinity or NaN, no trap).
#[verifier::external_body]
pub(crate) fn div_bits(a: u64, b: u64) -> (r: u64)
    ensures
        r == ieee_div(a, b),
{
    (Double::from_bits(a as u128) / Double::from_bits(b as u128)).value.to_bits() as u64
}

/// Relies on `rustc_apfloat`'s `PartialOrd for IeeeFloat`: `<` on two
/// `Double`s is IEEE 754 less-than, false on NaN operands, and depends
/// on the operand bits alone.
#[verifier::external_body]
pub(crate) fn lt_bits(a: u64, b: u64) -> (r: bool)
    ensures
        r == ieee_lt(a, b),
{
    Double::from_bits(a as u128) < Double::from_bits(b as u128)
}

/// Relies on `rustc_apfloat`'s `PartialOrd for IeeeFloat`: `<=` on two
/// `Double`s is IEEE 754 less-or-equal, false on NaN operands, and
/// depends on the operand bits alone.
#[verifier::external_body]
pub(crate) fn le_bits(a: u64, b: u64) -> (r: bool)
    ensures
        r == ieee_le(a, b),
{
    Double::from_bits(a as u128) <= Double::from_bits(b as u128)
}

/// IEEE 754 greater-than, computed as the mirrored less-than.
pub(crate) fn gt_bits(a: u64, b: u64) -> (r: bool)
    ensures
        r == ieee_gt(a, b),
{
    lt_bits(b, a)
}

/// IEEE 754 greater-or-equal, computed as the mirrored less-or-equal.
pub(crate) fn ge_bits(a: u64, b: u64) -> (r: bool)
    ensures
        r == ieee_ge(a, b),
{
    le_bits(b, a)
}

/// IEEE 754 negation: flip the sign bit.
pub(crate) fn neg_bits(a: u64) -> (r: u64)
    ensures
        r == ieee_neg(a),
{
    a ^ SIGN_BIT
}

/// Relies on `rustc_apfloat::ieee::Double`'s `FromStr` (`from_str_r` with
/// round-to-nearest-even): parsing a non-empty string of decimal digits
/// with at most one interior dot succeeds, and the resulting bits depend
/// on the text alone.
#[verifier::external_body]
pub(crate) fn decimal_to_bits(s: &[u8]) -> (r: u64)
    requires
        number_lexeme(s@),
    ensures
        r == ieee_of_decimal(s@),
{
    match core::str::from_utf8(s) {
        Ok(text) => match text.parse::<Double>() {
            Ok(d) => d.to_bits() as u64,
            Err(_) => 0,
        },
        Err(_) => 0,
    }
}

} // verus!
