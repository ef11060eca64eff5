//! Arithmetic on the language's numbers.
//!
//! A number is an IEEE-754 double-precision value, carried everywhere as its
//! 64-bit pattern. The arithmetic itself is performed by `rustc_apfloat`'s
//! software implementation of IEEE-754; each operation's result is a function
//! of the operand patterns alone, and is named by one of the uninterpreted
//! spec functions below.

use rustc_apfloat::Float;
use rustc_apfloat::ieee::Double;
use vstd::prelude::*;

verus! {

/// The bit pattern of the IEEE-754 sum `a + b` (round to nearest even).
pub uninterp spec fn num_add(a: u64, b: u64) -> u64;

/// The bit pattern of the IEEE-754 difference `a - b` (round to nearest even).
pub uninterp spec fn num_sub(a: u64, b: u64) -> u64;

/// The bit pattern of the IEEE-754 product `a * b` (round to nearest even).
pub uninterp spec fn num_mul(a: u64, b: u64) -> u64;

/// The bit pattern of the IEEE-754 quotient `a / b` (round to nearest even).
pub uninterp spec fn num_div(a: u64, b: u64) -> u64;

/// The bit pattern of the IEEE-754 negation `-a`.
pub uninterp spec fn num_neg(a: u64) -> u64;

/// The IEEE-754 comparison `a < b` (false when either operand is NaN).
pub uninterp spec fn num_lt(a: u64, b: u64) -> bool;

/// The IEEE-754 comparison `a > b` (false when either operand is NaN).
pub uninterp spec fn num_gt(a: u64, b: u64) -> bool;

/// The IEEE-754 equality `a == b` (false when either operand is NaN; the two
/// zeroes are equal).
pub uninterp spec fn num_eq(a: u64, b: u64) -> bool;

/// The decimal rendering of the number whose bit pattern is `a`.
pub uninterp spec fn num_text(a: u64) -> Seq<char>;

/// The bit pattern the text `s` parses to, or `None` when `s` parses to no
/// number.
pub uninterp spec fn num_of_text(s: Seq<char>) -> Option<u64>;

/// Relies on `rustc_apfloat::ieee::Double`'s `Add` (IEEE-754 addition,
/// round to nearest even), a function of the operand bit patterns alone.
#[verifier::external_body]
pub(crate) fn num_add_exec(a: u64, b: u64) -> (r: u64)
    ensures
        r == num_add(a, b),
{
    let x = Double::from_bits(a as u128);
    let y = Double::from_bits(b as u128);
    (x + y).value.to_bits() as u64
}

/// Relies on `rustc_apfloat::ieee::Double`'s `Sub` (IEEE-754 subtraction,
/// round to nearest even), a function of the operand bit patterns alone.
#[verifier::external_body]
pub(crate) fn num_sub_exec(a: u64, b: u64) -> (r: u64)
    ensures
        r == num_sub(a, b),
{
    let x = Double::from_bits(a as u128);
    let y = Double::from_bits(b as u128);
    (x - y).value.to_bits() as u64
}

/// Relies on `rustc_apfloat::ieee::Double`'s `Mul` (IEEE-754 multiplication,
/// round to nearest even), a function of the operand bit patterns alone.
#[verifier::external_body]
pub(crate) fn num_mul_exec(a: u64, b: u64) -> (r: u64)
    ensures
        r == num_mul(a, b),
{
    let x = Double::from_bits(a as u128);
    let y = Double::from_bits(b as u128);
    (x * y).value.to_bits() as u64
}

/// Relies on `rustc_apfloat::ieee::Double`'s `Div` (IEEE-754 division, round
/// to nearest even; division by zero yields an infinity or NaN), a function
/// of the operand bit patterns alone.
#[verifier::external_body]
pub(crate) fn num_div_exec(a: u64, b: u64) -> (r: u64)
    ensures
        r == num_div(a, b),
{
    let x = Double::from_bits(a as u128);
    let y = Double::from_bits(b as u128);
    (x / y).value.to_bits() as u64
}

/// Relies on `rustc_apfloat::ieee::Double`'s `Neg` (IEEE-754 negation, which
/// flips the sign bit), a function of the operand bit pattern alone.
#[verifier::external_body]
pub(crate) fn num_neg_exec(a: u64) -> (r: u64)
    ensures
        r == num_neg(a),
{
    (-Double::from_bits(a as u128)).to_bits() as u64
}

/// Relies on `rustc_apfloat::ieee::Double`'s `PartialOrd` (the IEEE-754
/// ordering: NaN is unordered, the two zeroes are equal).
#[verifier::external_body]
pub(crate) fn num_lt_exec(a: u64, b: u64) -> (r: bool)
    ensures
        r == num_lt(a, b),
{
    Double::from_bits(a as u128) < Double::from_bits(b as u128)
}

/// Relies on `rustc_apfloat::ieee::Double`'s `PartialOrd` (the IEEE-754
/// ordering: NaN is unordered, the two zeroes are equal).
#[verifier::external_body]
pub(crate) fn num_gt_exec(a: u64, b: u64) -> (r: bool)
    ensures
        r == num_gt(a, b),
{
    Double::from_bits(a as u128) > Double::from_bits(b as u128)
}

/// Relies on `rustc_apfloat::ieee::Double`'s `PartialEq` (IEEE-754 equality:
/// NaN equals nothing, the two zeroes are equal).
#[verifier::external_body]
pub(crate) fn num_eq_exec(a: u64, b: u64) -> (r: bool)
    ensures
        r == num_eq(a, b),
{
    Double::from_bits(a as u128) == Double::from_bits(b as u128)
}

/// Relies on `rustc_apfloat::ieee::Double`'s `Display`, which renders the
/// value in decimal (an integral value prints without a decimal point, so
/// `1` rather than `1.0`).
#[verifier::external_body]
pub(crate) fn num_text_exec(a: u64) -> (r: String)
    ensures
        r@ == num_text(a),
{
    format!("{}", Double::from_bits(a as u128))
}

/// Relies on `rustc_apfloat::ieee::Double`'s `FromStr`: the parsed value —
/// the nearest representable value of the numeral, in the forms the crate
/// accepts — is a function of the text alone, and text it cannot parse is
/// rejected with a `ParseError`, never a panic.
#[verifier::external_body]
pub(crate) fn num_of_text_exec(s: &str) -> (r: Option<u64>)
    ensures
        r == num_of_text(s@),
{
    match s.parse::<Double>() {
        Ok(d) => Some(d.to_bits() as u64),
        Err(_) => None,
    }
}

} // verus!
