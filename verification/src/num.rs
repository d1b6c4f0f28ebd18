//! Runtime numbers.
//!
//! The language's numbers are IEEE-754 binary64 values, carried everywhere
//! as their 64-bit patterns. Negation, equality and ordering are implemented
//! here directly on the bit patterns, against bit-level definitions of the
//! IEEE-754 comparison rules (NaN compares unordered, the two zeros are
//! equal, otherwise distinct patterns denote distinct values). The rounding
//! arithmetic, decimal parsing and decimal rendering are delegated to
//! rustc_apfloat's software implementation of binary64.

use vstd::prelude::*;

verus! {

/// The biased exponent field of a binary64 bit pattern.
pub open spec fn exp_field(b: u64) -> u64 {
    (b >> 52) & 0x7ff
}

/// The fraction (significand) field of a binary64 bit pattern.
pub open spec fn frac_field(b: u64) -> u64 {
    b & 0x000f_ffff_ffff_ffff
}

/// A pattern is a NaN when the exponent is all ones and the fraction is
/// not zero.
pub open spec fn is_nan_bits(b: u64) -> bool {
    exp_field(b) == 0x7ff && frac_field(b) != 0
}

/// Both `+0.0` and `-0.0`: everything but the sign bit is zero.
pub open spec fn is_zero_bits(b: u64) -> bool {
    b & 0x7fff_ffff_ffff_ffff == 0
}

/// The sign bit of a binary64 bit pattern.
pub open spec fn sign_bit(b: u64) -> bool {
    (b >> 63) == 1
}

/// IEEE-754 negation flips the sign bit and nothing else.
pub open spec fn neg_bits(b: u64) -> u64 {
    b ^ 0x8000_0000_0000_0000
}

/// IEEE-754 equality: NaN is equal to nothing (itself included), the two
/// zeros are equal, and otherwise two values are equal exactly when their
/// patterns coincide.
pub open spec fn eq_bits(a: u64, b: u64) -> bool {
    &&& !is_nan_bits(a)
    &&& !is_nan_bits(b)
    &&& (a == b || (is_zero_bits(a) && is_zero_bits(b)))
}

/// Maps a bit pattern to a key whose unsigned order is the IEEE-754 order:
/// negative values are complemented (so that larger magnitudes come first)
/// and non-negative values are moved above them.
pub open spec fn order_key(b: u64) -> u64 {
    if sign_bit(b) {
        !b
    } else {
        b | 0x8000_0000_0000_0000
    }
}

/// IEEE-754 `<`: false whenever a NaN is involved, and otherwise the order
/// of the keys, except that equal values (the two zeros) are not below one
/// another.
pub open spec fn lt_bits(a: u64, b: u64) -> bool {
    &&& !is_nan_bits(a)
    &&& !is_nan_bits(b)
    &&& !eq_bits(a, b)
    &&& order_key(a) < order_key(b)
}

pub open spec fn le_bits(a: u64, b: u64) -> bool {
    eq_bits(a, b) || lt_bits(a, b)
}

pub open spec fn gt_bits(a: u64, b: u64) -> bool {
    lt_bits(b, a)
}

pub open spec fn ge_bits(a: u64, b: u64) -> bool {
    eq_bits(a, b) || gt_bits(a, b)
}

pub fn num_neg(b: u64) -> (r: u64)
    ensures
        r == neg_bits(b),
{
    b ^ 0x8000_0000_0000_0000
}

pub fn num_eq(a: u64, b: u64) -> (r: bool)
    ensures
        r == eq_bits(a, b),
{
    let nan_a: bool = ((a >> 52) & 0x7ff) == 0x7ff && (a & 0x000f_ffff_ffff_ffff) != 0;
    let nan_b: bool = ((b >> 52) & 0x7ff) == 0x7ff && (b & 0x000f_ffff_ffff_ffff) != 0;
    let zero_a: bool = (a & 0x7fff_ffff_ffff_ffff) == 0;
    let zero_b: bool = (b & 0x7fff_ffff_ffff_ffff) == 0;
    !nan_a && !nan_b && (a == b || (zero_a && zero_b))
}

fn exec_order_key(b: u64) -> (r: u64)
    ensures
        r == order_key(b),
{
    if (b >> 63) == 1 {
        !b
    } else {
        b | 0x8000_0000_0000_0000
    }
}

pub fn num_lt(a: u64, b: u64) -> (r: bool)
    ensures
        r == lt_bits(a, b),
{
    let nan_a: bool = ((a >> 52) & 0x7ff) == 0x7ff && (a & 0x000f_ffff_ffff_ffff) != 0;
    let nan_b: bool = ((b >> 52) & 0x7ff) == 0x7ff && (b & 0x000f_ffff_ffff_ffff) != 0;
    !nan_a && !nan_b && !num_eq(a, b) && exec_order_key(a) < exec_order_key(b)
}

pub fn num_le(a: u64, b: u64) -> (r: bool)
    ensures
        r == le_bits(a, b),
{
    num_eq(a, b) || num_lt(a, b)
}

pub fn num_gt(a: u64, b: u64) -> (r: bool)
    ensures
        r == gt_bits(a, b),
{
    num_lt(b, a)
}

pub fn num_ge(a: u64, b: u64) -> (r: bool)
    ensures
        r == ge_bits(a, b),
{
    num_eq(a, b) || num_lt(b, a)
}

/// The binary64 sum of two bit patterns, rounded to nearest, ties to even.
pub uninterp spec fn add_bits(a: u64, b: u64) -> u64;

/// The binary64 difference, rounded to nearest, ties to even.
pub uninterp spec fn sub_bits(a: u64, b: u64) -> u64;

/// The binary64 product, rounded to nearest, ties to even.
pub uninterp spec fn mul_bits(a: u64, b: u64) -> u64;

/// The binary64 quotient, rounded to nearest, ties to even. Division by
/// zero follows IEEE-754: it yields an infinity or NaN pattern, never an
/// error.
pub uninterp spec fn div_bits(a: u64, b: u64) -> u64;

/// The binary64 value of a decimal literal, rounded to nearest, ties to
/// even.
pub uninterp spec fn parse_bits(s: Seq<char>) -> u64;

/// The decimal rendering of a binary64 value.
pub uninterp spec fn render_bits(b: u64) -> Seq<char>;

/// Relies on rustc_apfloat: `<ieee::Double as Add>::add` is IEEE-754
/// binary64 addition (round to nearest, ties to even), a deterministic
/// function of the two operand bit patterns.
#[verifier::external_body]
pub fn num_add(a: u64, b: u64) -> (r: u64)
    ensures
        r == add_bits(a, b),
{
    let x = <rustc_apfloat::ieee::Double as rustc_apfloat::Float>::from_bits(a as u128);
    let y = <rustc_apfloat::ieee::Double as rustc_apfloat::Float>::from_bits(b as u128);
    rustc_apfloat::Float::to_bits((x + y).value) as u64
}

/// Relies on rustc_apfloat: `<ieee::Double as Sub>::sub` is IEEE-754
/// binary64 subtraction, a deterministic function of the operand bits.
#[verifier::external_body]
pub fn num_sub(a: u64, b: u64) -> (r: u64)
    ensures
        r == sub_bits(a, b),
{
    let x = <rustc_apfloat::ieee::Double as rustc_apfloat::Float>::from_bits(a as u128);
    let y = <rustc_apfloat::ieee::Double as rustc_apfloat::Float>::from_bits(b as u128);
    rustc_apfloat::Float::to_bits((x - y).value) as u64
}

/// Relies on rustc_apfloat: `<ieee::Double as Mul>::mul` is IEEE-754
/// binary64 multiplication, a deterministic function of the operand bits.
#[verifier::external_body]
pub fn num_mul(a: u64, b: u64) -> (r: u64)
    ensures
        r == mul_bits(a, b),
{
    let x = <rustc_apfloat::ieee::Double as rustc_apfloat::Float>::from_bits(a as u128);
    let y = <rustc_apfloat::ieee::Double as rustc_apfloat::Float>::from_bits(b as u128);
    rustc_apfloat::Float::to_bits((x * y).value) as u64
}

/// Relies on rustc_apfloat: `<ieee::Double as Div>::div` is IEEE-754
/// binary64 division, a deterministic function of the operand bits;
/// division by zero yields an infinity or NaN value, never a failure.
#[verifier::external_body]
pub fn num_div(a: u64, b: u64) -> (r: u64)
    ensures
        r == div_bits(a, b),
{
    let x = <rustc_apfloat::ieee::Double as rustc_apfloat::Float>::from_bits(a as u128);
    let y = <rustc_apfloat::ieee::Double as rustc_apfloat::Float>::from_bits(b as u128);
    rustc_apfloat::Float::to_bits((x / y).value) as u64
}

/// A nonempty run of decimal digits, optionally followed by `.` and a
/// second nonempty run of digits: the shape of the scanner's number
/// lexemes.
pub open spec fn spec_is_digit(c: char) -> bool {
    '0' <= c && c <= '9'
}

pub open spec fn all_digits(s: Seq<char>) -> bool {
    forall|i: int| 0 <= i < s.len() ==> spec_is_digit(#[trigger] s[i])
}

pub open spec fn is_number_lexeme(s: Seq<char>) -> bool {
    ||| (s.len() > 0 && all_digits(s))
    ||| (exists|k: int|
        1 <= k < s.len() - 1 && #[trigger] s[k] == '.' && all_digits(s.subrange(0, k))
            && all_digits(s.subrange(k + 1, s.len() as int)))
}

/// Relies on rustc_apfloat: `<ieee::Double as FromStr>::from_str` parses a
/// decimal string with correct rounding (nearest, ties to even) and
/// accepts every string made of digits with at most one interior point.
#[verifier::external_body]
pub fn num_parse(s: &str) -> (r: Option<u64>)
    ensures
        r matches Some(b) ==> b == parse_bits(s@),
        is_number_lexeme(s@) ==> r is Some,
{
    match <rustc_apfloat::ieee::Double as core::str::FromStr>::from_str(s) {
        Ok(v) => Some(rustc_apfloat::Float::to_bits(v) as u64),
        Err(_) => None,
    }
}

/// Relies on rustc_apfloat: `<ieee::Double as Display>::fmt` renders a
/// binary64 value as a decimal string, a deterministic function of the bit
/// pattern.
#[verifier::external_body]
pub fn num_render(b: u64) -> (r: String)
    ensures
        r@ == render_bits(b),
{
    format!("{}", <rustc_apfloat::ieee::Double as rustc_apfloat::Float>::from_bits(b as u128))
}

} // verus!
