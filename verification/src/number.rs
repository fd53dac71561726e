//! Numbers: IEEE 754 double-precision values, held by their 64 bits.
//!
//! What can be read off the bits is computed here: the sign, whether the
//! value is zero or not a number, equality and order. Arithmetic and the
//! reading of decimal text are done by a software implementation of IEEE 754.

use vstd::prelude::*;
use rustc_apfloat::ieee::Double;
use rustc_apfloat::Float;

verus! {

/// The bit that holds the sign.
pub const SIGN_BIT: u64 = 0x8000_0000_0000_0000;

/// The bits of positive infinity: the largest magnitude that is a number.
pub const INFINITY_BITS: u64 = 0x7FF0_0000_0000_0000;

/// The bits without the sign.
pub open spec fn magnitude(bits: u64) -> u64 {
    if bits >= SIGN_BIT {
        (bits - SIGN_BIT) as u64
    } else {
        bits
    }
}

/// Whether the sign bit is set.
pub open spec fn is_negative(bits: u64) -> bool {
    bits >= SIGN_BIT
}

/// Whether the bits hold no number (NaN).
pub open spec fn is_nan(bits: u64) -> bool {
    magnitude(bits) > INFINITY_BITS
}

/// Whether the bits hold zero, positive or negative.
pub open spec fn is_zero(bits: u64) -> bool {
    magnitude(bits) == 0
}

/// The bits with the sign flipped.
pub open spec fn negated(bits: u64) -> u64 {
    if bits >= SIGN_BIT {
        (bits - SIGN_BIT) as u64
    } else {
        (bits + SIGN_BIT) as u64
    }
}

/// The place of a number in the order of all numbers: its magnitude, taken
/// negative under a set sign. Both zeros have the place 0.
pub open spec fn ordinal(bits: u64) -> int {
    if is_negative(bits) {
        -(magnitude(bits) as int)
    } else {
        magnitude(bits) as int
    }
}

/// IEEE equality: no NaN equals anything, the two zeros are equal.
pub open spec fn numbers_equal(a: u64, b: u64) -> bool {
    !is_nan(a) && !is_nan(b) && ordinal(a) == ordinal(b)
}

/// IEEE order: no NaN is less than anything, nor anything less than it.
pub open spec fn number_less(a: u64, b: u64) -> bool {
    !is_nan(a) && !is_nan(b) && ordinal(a) < ordinal(b)
}

/// Whether `c` is one of the digits `0` to `9`.
pub open spec fn is_digit_char(c: char) -> bool {
    '0' <= c && c <= '9'
}

/// How many decimal points `text` holds.
pub open spec fn count_dots(text: Seq<char>) -> nat
    decreases text.len(),
{
    if text.len() == 0 {
        0
    } else {
        count_dots(text.drop_last()) + if text.last() == '.' {
            1nat
        } else {
            0nat
        }
    }
}

/// Whether `text` has the shape of a number literal: digits, with one
/// decimal point at most.
pub open spec fn is_decimal_text(text: Seq<char>) -> bool {
    (forall|i: int| 0 <= i < text.len() ==> is_digit_char(#[trigger] text[i]) || text[i] == '.')
        && count_dots(text) <= 1
}

/// Whether `text` holds a digit.
pub open spec fn has_digit(text: Seq<char>) -> bool {
    exists|i: int| 0 <= i < text.len() && is_digit_char(#[trigger] text[i])
}

/// The sum of two doubles, rounded to the nearest, ties to even.
pub uninterp spec fn double_sum(a: u64, b: u64) -> u64;

/// The difference of two doubles, rounded to the nearest, ties to even.
pub uninterp spec fn double_difference(a: u64, b: u64) -> u64;

/// The product of two doubles, rounded to the nearest, ties to even.
pub uninterp spec fn double_product(a: u64, b: u64) -> u64;

/// The quotient of two doubles, rounded to the nearest, ties to even.
pub uninterp spec fn double_quotient(a: u64, b: u64) -> u64;

/// The double nearest to the number that a decimal text denotes.
pub uninterp spec fn decimal_value(text: Seq<char>) -> Option<u64>;

/// The bits of the number that `text` denotes, where `text` has the shape of
/// a number literal (digits, with one decimal point at most) and holds a
/// digit.
pub open spec fn number_of_text(text: Seq<char>) -> Option<u64> {
    if is_decimal_text(text) && has_digit(text) {
        decimal_value(text)
    } else {
        None
    }
}

/// `a + b` on doubles given by their bits.
///
/// Not verified: the body calls `Add::add` of `rustc_apfloat::ieee::Double`.
/// The contract only names the result.
#[verifier::external_body]
pub(crate) fn add_bits(a: u64, b: u64) -> (r: u64)
    ensures
        r == double_sum(a, b),
{
    (Double::from_bits(a as u128) + Double::from_bits(b as u128)).value.to_bits() as u64
}

/// `a - b` on doubles given by their bits.
///
/// Not verified: the body calls `Sub::sub` of `rustc_apfloat::ieee::Double`.
/// The contract only names the result.
#[verifier::external_body]
pub(crate) fn sub_bits(a: u64, b: u64) -> (r: u64)
    ensures
        r == double_difference(a, b),
{
    (Double::from_bits(a as u128) - Double::from_bits(b as u128)).value.to_bits() as u64
}

/// `a * b` on doubles given by their bits.
///
/// Not verified: the body calls `Mul::mul` of `rustc_apfloat::ieee::Double`.
/// The contract only names the result.
#[verifier::external_body]
pub(crate) fn mul_bits(a: u64, b: u64) -> (r: u64)
    ensures
        r == double_product(a, b),
{
    (Double::from_bits(a as u128) * Double::from_bits(b as u128)).value.to_bits() as u64
}

/// `a / b` on doubles given by their bits.
///
/// Not verified: the body calls `Div::div` of `rustc_apfloat::ieee::Double`.
/// The contract only names the result.
#[verifier::external_body]
pub(crate) fn div_bits(a: u64, b: u64) -> (r: u64)
    ensures
        r == double_quotient(a, b),
{
    (Double::from_bits(a as u128) / Double::from_bits(b as u128)).value.to_bits() as u64
}

/// The bits of the double that the decimal text `text` denotes.
///
/// Not verified: the body calls `FromStr::from_str` of
/// `rustc_apfloat::ieee::Double`. The contract names the result, and claims
/// that a text of digits and at most one decimal point is refused exactly
/// where it holds no digit.
#[verifier::external_body]
pub(crate) fn parse_decimal(text: &str) -> (r: Option<u64>)
    requires
        is_decimal_text(text@),
    ensures
        r == decimal_value(text@),
        r is Some <==> has_digit(text@),
{
    match text.parse::<Double>() {
        Ok(value) => Some(value.to_bits() as u64),
        Err(_) => None,
    }
}

/// A number.
#[derive(Debug, Clone, Copy, PartialEq, Eq, Structural)]
pub struct Number {
    /// The 64 bits of the double.
    pub bits: u64,
}

impl Number {
    /// The number with the given bits.
    pub fn from_bits(bits: u64) -> (r: Number)
        ensures
            r.bits == bits,
    {
        Number { bits }
    }

    /// The bits of the number.
    pub fn to_bits(self) -> (r: u64)
        ensures
            r == self.bits,
    {
        self.bits
    }

    /// Positive zero.
    pub fn zero() -> (r: Number)
        ensures
            r.bits == 0,
    {
        Number { bits: 0 }
    }

    /// The bits without the sign.
    fn magnitude(self) -> (r: u64)
        ensures
            r == magnitude(self.bits),
    {
        if self.bits >= SIGN_BIT {
            self.bits - SIGN_BIT
        } else {
            self.bits
        }
    }

    /// Whether this is no number (NaN).
    pub fn is_nan(self) -> (r: bool)
        ensures
            r == is_nan(self.bits),
    {
        self.magnitude() > INFINITY_BITS
    }

    /// Whether this is zero, positive or negative.
    pub fn is_zero(self) -> (r: bool)
        ensures
            r == is_zero(self.bits),
    {
        self.magnitude() == 0
    }

    /// The number with the opposite sign.
    pub fn negate(self) -> (r: Number)
        ensures
            r.bits == negated(self.bits),
    {
        if self.bits >= SIGN_BIT {
            Number { bits: self.bits - SIGN_BIT }
        } else {
            Number { bits: self.bits + SIGN_BIT }
        }
    }

    /// Whether the two numbers are equal as IEEE 754 has it.
    pub fn equals(self, other: Number) -> (r: bool)
        ensures
            r == numbers_equal(self.bits, other.bits),
    {
        if self.is_nan() || other.is_nan() {
            false
        } else if self.is_zero() || other.is_zero() {
            self.is_zero() && other.is_zero()
        } else {
            self.bits == other.bits
        }
    }

    /// Whether this number is less than `other` as IEEE 754 has it.
    pub fn less_than(self, other: Number) -> (r: bool)
        ensures
            r == number_less(self.bits, other.bits),
    {
        if self.is_nan() || other.is_nan() {
            false
        } else {
            let a = self.magnitude();
            let b = other.magnitude();
            if self.bits >= SIGN_BIT {
                if other.bits >= SIGN_BIT {
                    b < a
                } else {
                    a > 0 || b > 0
                }
            } else {
                if other.bits >= SIGN_BIT {
                    false
                } else {
                    a < b
                }
            }
        }
    }

    /// The sum of the two numbers.
    pub fn add(self, other: Number) -> (r: Number)
        ensures
            r.bits == double_sum(self.bits, other.bits),
    {
        Number { bits: add_bits(self.bits, other.bits) }
    }

    /// The difference of the two numbers.
    pub fn subtract(self, other: Number) -> (r: Number)
        ensures
            r.bits == double_difference(self.bits, other.bits),
    {
        Number { bits: sub_bits(self.bits, other.bits) }
    }

    /// The product of the two numbers.
    pub fn multiply(self, other: Number) -> (r: Number)
        ensures
            r.bits == double_product(self.bits, other.bits),
    {
        Number { bits: mul_bits(self.bits, other.bits) }
    }

    /// The quotient of the two numbers.
    pub fn divide(self, other: Number) -> (r: Number)
        ensures
            r.bits == double_quotient(self.bits, other.bits),
    {
        Number { bits: div_bits(self.bits, other.bits) }
    }

    /// The number that `text` denotes, where `text` has the shape of a number
    /// literal (digits, with one decimal point at most) and holds a digit;
    /// `None` otherwise.
    pub fn parse(text: &str) -> (r: Option<Number>)
        ensures
            match r {
                Some(number) => number_of_text(text@) == Some(number.bits),
                None => number_of_text(text@) is None,
            },
            r is Some <==> is_decimal_text(text@) && has_digit(text@),
    {
        if is_decimal(text) {
            match parse_decimal(text) {
                Some(bits) => Some(Number { bits }),
                None => None,
            }
        } else {
            None
        }
    }
}

/// Whether `text` has the shape of a number literal.
fn is_decimal(text: &str) -> (r: bool)
    ensures
        r == is_decimal_text(text@),
{
    let n = text.unicode_len();
    let mut dots: usize = 0;
    let mut i: usize = 0;
    while i < n
        invariant
            n == text@.len(),
            i <= n,
            dots <= i,
            dots == count_dots(text@.take(i as int)),
            forall|k: int| 0 <= k < i ==> is_digit_char(#[trigger] text@[k]) || text@[k] == '.',
        decreases n - i,
    {
        let c = text.get_char(i);
        proof {
            assert(text@.take(i + 1).drop_last() =~= text@.take(i as int));
        }
        if c == '.' {
            dots = dots + 1;
        } else if !('0' <= c && c <= '9') {
            return false;
        }
        i = i + 1;
    }
    proof {
        assert(text@.take(n as int) =~= text@);
    }
    dots <= 1
}

} // verus!
