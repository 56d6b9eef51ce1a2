//! Double-precision number support for the virtual machine.
//!
//! The language's numbers are IEEE 754 binary64 values. Inside the verified
//! library a number is carried as its bit pattern, a `u64`; the arithmetic,
//! comparisons, decimal parsing and decimal formatting are delegated to
//! `rustc_apfloat`, a software implementation of IEEE 754 with the same
//! round-to-nearest-even semantics as hardware doubles. Each such operation
//! is a pure function of its argument bits, so its result is given a name
//! that the callers' contracts can speak of. Negation alone needs no
//! delegation: it is exactly a flip of the sign bit, defined and proved
//! here.

use vstd::prelude::*;

use rustc_apfloat::Float;
use rustc_apfloat::ieee::Double;

verus! {

/// The bit pattern of the double closest to 1e-9, the tolerance used when
/// two numbers are compared for equality.
pub const NUM_TOL_BITS: u64 = 0x3e11_2e0b_e826_d695;

/// The bits of the double that a decimal numeral denotes, or `None` where
/// the text is not a numeral the parser accepts.
pub uninterp spec fn parse_num_of(s: Seq<char>) -> Option<u64>;

/// The bits of the correctly rounded sum of two doubles given by bits.
pub uninterp spec fn add_bits(a: u64, b: u64) -> u64;

/// The bits of the correctly rounded difference of two doubles given by bits.
pub uninterp spec fn sub_bits(a: u64, b: u64) -> u64;

/// The bits of the correctly rounded product of two doubles given by bits.
pub uninterp spec fn mul_bits(a: u64, b: u64) -> u64;

/// The bits of the correctly rounded quotient of two doubles given by bits.
pub uninterp spec fn div_bits(a: u64, b: u64) -> u64;

/// The bits of a double with its sign flipped: IEEE 754 negation is
/// exactly a flip of the sign bit.
pub open spec fn neg_bits(a: u64) -> u64 {
    a ^ 0x8000_0000_0000_0000
}

/// Whether the double `a` is strictly less than the double `b`.
pub uninterp spec fn lt_bits(a: u64, b: u64) -> bool;

/// Whether the double `a` is strictly greater than the double `b`.
pub uninterp spec fn gt_bits(a: u64, b: u64) -> bool;

/// The decimal text of the double given by bits.
pub uninterp spec fn num_text_of(a: u64) -> Seq<char>;

/// A numeral as the scanner produces it: one or more digits, optionally
/// followed by a dot and one or more digits.
pub open spec fn is_numeral(s: Seq<char>) -> bool {
    &&& s.len() > 0
    &&& '0' <= s[0] <= '9'
    &&& forall|i: int| 0 <= i < s.len() ==> ('0' <= s[i] <= '9' || s[i] == '.')
    &&& forall|i: int, j: int| 0 <= i < j < s.len() && s[i] == '.' ==> s[j] != '.'
    &&& s[s.len() - 1] != '.'
}

/// Relies on `rustc_apfloat`'s `FromStr` for `ieee::Double`: correctly
/// rounded decimal-to-binary conversion, a pure function of the text, which
/// accepts every plain numeral of digits with an optional fraction.
#[verifier::external_body]
pub(crate) fn num_parse(s: &str) -> (r: Option<u64>)
    ensures
        r == parse_num_of(s@),
        is_numeral(s@) ==> r.is_some(),
{
    s.parse::<Double>().ok().map(|d| d.to_bits() as u64)
}

/// Relies on `rustc_apfloat`'s `ops::Add` for `ieee::Double`: the correctly
/// rounded IEEE 754 sum, a pure function of the operand bits.
#[verifier::external_body]
pub(crate) fn num_add(a: u64, b: u64) -> (r: u64)
    ensures
        r == add_bits(a, b),
{
    (Double::from_bits(a as u128) + Double::from_bits(b as u128)).value.to_bits() as u64
}

/// Relies on `rustc_apfloat`'s `ops::Sub` for `ieee::Double`: the correctly
/// rounded IEEE 754 difference, a pure function of the operand bits.
#[verifier::external_body]
pub(crate) fn num_sub(a: u64, b: u64) -> (r: u64)
    ensures
        r == sub_bits(a, b),
{
    (Double::from_bits(a as u128) - Double::from_bits(b as u128)).value.to_bits() as u64
}

/// Relies on `rustc_apfloat`'s `ops::Mul` for `ieee::Double`: the correctly
/// rounded IEEE 754 product, a pure function of the operand bits.
#[verifier::external_body]
pub(crate) fn num_mul(a: u64, b: u64) -> (r: u64)
    ensures
        r == mul_bits(a, b),
{
    (Double::from_bits(a as u128) * Double::from_bits(b as u128)).value.to_bits() as u64
}

/// Relies on `rustc_apfloat`'s `ops::Div` for `ieee::Double`: the correctly
/// rounded IEEE 754 quotient, a pure function of the operand bits.
#[verifier::external_body]
pub(crate) fn num_div(a: u64, b: u64) -> (r: u64)
    ensures
        r == div_bits(a, b),
{
    (Double::from_bits(a as u128) / Double::from_bits(b as u128)).value.to_bits() as u64
}

/// Negates a double by flipping its sign bit, the whole of IEEE 754
/// negation.
pub(crate) fn num_neg(a: u64) -> (r: u64)
    ensures
        r == neg_bits(a),
{
    a ^ 0x8000_0000_0000_0000
}

/// Relies on `rustc_apfloat`'s `PartialOrd` for `ieee::Double`: the IEEE 754
/// ordering, under which comparisons with NaN are false.
#[verifier::external_body]
pub(crate) fn num_lt(a: u64, b: u64) -> (r: bool)
    ensures
        r == lt_bits(a, b),
{
    Double::from_bits(a as u128) < Double::from_bits(b as u128)
}

/// Relies on `rustc_apfloat`'s `PartialOrd` for `ieee::Double`: the IEEE 754
/// ordering, under which comparisons with NaN are false.
#[verifier::external_body]
pub(crate) fn num_gt(a: u64, b: u64) -> (r: bool)
    ensures
        r == gt_bits(a, b),
{
    Double::from_bits(a as u128) > Double::from_bits(b as u128)
}

/// Relies on `rustc_apfloat`'s `fmt::Display` for `ieee::Double`: a decimal
/// rendering determined by the bits alone.
#[verifier::external_body]
pub(crate) fn num_to_text(a: u64) -> (r: String)
    ensures
        r@ == num_text_of(a),
{
    format!("{}", Double::from_bits(a as u128))
}

} // verus!
