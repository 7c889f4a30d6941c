//! Numbers of the language: IEEE 754 double-precision values, carried as
//! their 64-bit patterns. Arithmetic, decimal conversion and decimal
//! formatting go through `rustc_apfloat`, a software implementation of the
//! IEEE operations; negation and the zero test are pure bit manipulation and
//! are implemented and verified here.

use vstd::prelude::*;

verus! {

use rustc_apfloat::Float;

/// The sign bit of a double-precision bit pattern.
pub const SIGN_BIT: u64 = 0x8000_0000_0000_0000;

/// All bits of a double-precision pattern except the sign.
pub const MAGNITUDE_BITS: u64 = 0x7FFF_FFFF_FFFF_FFFF;

/// IEEE 754 negation flips the sign bit and leaves everything else alone.
pub open spec fn negate_bits(b: u64) -> u64 {
    b ^ SIGN_BIT
}

/// A pattern compares equal to zero exactly when its magnitude bits are all
/// clear (this holds for both `+0.0` and `-0.0`).
pub open spec fn is_zero_bits(b: u64) -> bool {
    b & MAGNITUDE_BITS == 0
}

/// Negate a number given as its bit pattern.
pub fn negate(b: u64) -> (r: u64)
    ensures
        r == negate_bits(b),
{
    b ^ SIGN_BIT
}

/// Whether the pattern denotes a zero (of either sign).
pub fn is_zero(b: u64) -> (r: bool)
    ensures
        r == is_zero_bits(b),
{
    b & MAGNITUDE_BITS == 0
}

/// The sum of two doubles, rounding to nearest even, as bit patterns.
pub uninterp spec fn add_bits(a: u64, b: u64) -> u64;

/// The difference of two doubles, rounding to nearest even, as bit patterns.
pub uninterp spec fn sub_bits(a: u64, b: u64) -> u64;

/// The product of two doubles, rounding to nearest even, as bit patterns.
pub uninterp spec fn mul_bits(a: u64, b: u64) -> u64;

/// The quotient of two doubles, rounding to nearest even, as bit patterns.
pub uninterp spec fn div_bits(a: u64, b: u64) -> u64;

/// The double denoted by a decimal string, correctly rounded, or `None` for
/// text that is not a decimal number.
pub uninterp spec fn bits_of_decimal(s: Seq<char>) -> Option<u64>;

/// The decimal rendering of a double at a given number of significant digits.
pub uninterp spec fn decimal_digits_of(b: u64, digits: usize) -> Seq<char>;

/// One decimal digit.
pub open spec fn is_digit_char(c: char) -> bool {
    '0' <= c && c <= '9'
}

pub open spec fn all_digit_chars(s: Seq<char>) -> bool {
    forall|i: int| 0 <= i < s.len() ==> is_digit_char(#[trigger] s[i])
}

/// The shape of a number lexeme: one or more digits, optionally followed by
/// a dot and one or more digits.
pub open spec fn is_number_lexeme(s: Seq<char>) -> bool {
    ||| (s.len() >= 1 && all_digit_chars(s))
    ||| (exists|k: int|
        1 <= k <= s.len() - 2 && #[trigger] s[k] == '.' && all_digit_chars(s.subrange(0, k))
            && all_digit_chars(s.subrange(k + 1, s.len() as int)))
}

/// Relies on `rustc_apfloat::ieee::Double`'s addition (`Add::add`, which
/// rounds to nearest even), applied to raw bit patterns.
#[verifier::external_body]
pub fn num_add(a: u64, b: u64) -> (r: u64)
    ensures
        r == add_bits(a, b),
{
    let x = rustc_apfloat::ieee::Double::from_bits(a as u128);
    let y = rustc_apfloat::ieee::Double::from_bits(b as u128);
    rustc_apfloat::Float::to_bits((x + y).value) as u64
}

/// Relies on `rustc_apfloat::ieee::Double`'s subtraction (`Sub::sub`, which
/// rounds to nearest even), applied to raw bit patterns.
#[verifier::external_body]
pub fn num_sub(a: u64, b: u64) -> (r: u64)
    ensures
        r == sub_bits(a, b),
{
    let x = rustc_apfloat::ieee::Double::from_bits(a as u128);
    let y = rustc_apfloat::ieee::Double::from_bits(b as u128);
    rustc_apfloat::Float::to_bits((x - y).value) as u64
}

/// Relies on `rustc_apfloat::ieee::Double`'s multiplication (`Mul::mul`,
/// which rounds to nearest even), applied to raw bit patterns.
#[verifier::external_body]
pub fn num_mul(a: u64, b: u64) -> (r: u64)
    ensures
        r == mul_bits(a, b),
{
    let x = rustc_apfloat::ieee::Double::from_bits(a as u128);
    let y = rustc_apfloat::ieee::Double::from_bits(b as u128);
    rustc_apfloat::Float::to_bits((x * y).value) as u64
}

/// Relies on `rustc_apfloat::ieee::Double`'s division (`Div::div`, which
/// rounds to nearest even), applied to raw bit patterns.
#[verifier::external_body]
pub fn num_div(a: u64, b: u64) -> (r: u64)
    ensures
        r == div_bits(a, b),
{
    let x = rustc_apfloat::ieee::Double::from_bits(a as u128);
    let y = rustc_apfloat::ieee::Double::from_bits(b as u128);
    rustc_apfloat::Float::to_bits((x / y).value) as u64
}

/// Relies on `rustc_apfloat::ieee::Double::from_str`, a correctly rounded
/// decimal-to-double conversion; it accepts every string of digits with an
/// optional fractional part, so on a number lexeme the result is `Some`.
#[verifier::external_body]
pub fn num_parse(s: &str) -> (r: Option<u64>)
    ensures
        r == bits_of_decimal(s@),
        is_number_lexeme(s@) ==> r is Some,
{
    match <rustc_apfloat::ieee::Double as core::str::FromStr>::from_str(s) {
        Ok(d) => Some(rustc_apfloat::Float::to_bits(d) as u64),
        Err(_) => None,
    }
}

/// Relies on `rustc_apfloat::ieee::Double`'s `Display`: a decimal rendering
/// determined by the bit pattern and the requested number of significant
/// digits alone (plain notation while at most thirty zeros of padding are
/// needed, scientific notation beyond that).
#[verifier::external_body]
pub fn num_format_digits(b: u64, digits: usize) -> (r: String)
    ensures
        r@ == decimal_digits_of(b, digits),
{
    format!("{:30.1$}", rustc_apfloat::ieee::Double::from_bits(b as u128), digits)
}

/// Whether the rendering of `b` at `digits` significant digits reads back as
/// exactly `b`.
pub open spec fn roundtrips_at(b: u64, digits: usize) -> bool {
    bits_of_decimal(decimal_digits_of(b, digits)) == Some(b)
}

/// The rendering of `b` at the fewest significant digits (at least `p`) that
/// read back as exactly `b`, falling back to seventeen digits, which are
/// always enough for a double.
pub open spec fn number_text_from(b: u64, p: usize) -> Seq<char>
    decreases 17 - p,
{
    if p >= 17 {
        decimal_digits_of(b, 17)
    } else if roundtrips_at(b, p) {
        decimal_digits_of(b, p)
    } else {
        number_text_from(b, (p + 1) as usize)
    }
}

/// The decimal text of a number value: the shortest rendering that reads
/// back as the same bit pattern.
pub open spec fn number_text(b: u64) -> Seq<char> {
    number_text_from(b, 1)
}

/// Render a number as decimal text, using the fewest significant digits that
/// still read back as the same value.
pub fn format_number(b: u64) -> (r: String)
    ensures
        r@ == number_text(b),
{
    let mut p: usize = 1;
    while p < 17
        invariant
            1 <= p <= 17,
            number_text(b) == number_text_from(b, p),
        decreases 17 - p,
    {
        let s = num_format_digits(b, p);
        match num_parse(s.as_str()) {
            Some(x) => {
                if x == b {
                    return s;
                }
            },
            None => {},
        }
        p = p + 1;
    }
    num_format_digits(b, 17)
}

} // verus!
