//! Decimal numbers in text, and their conversion to `u8`.

use std::num::ParseIntError;
use vstd::prelude::*;

verus! {

/// Whether `c` is one of the ASCII decimal digits.
pub open spec fn is_digit(c: char) -> bool {
    '0' <= c <= '9'
}

/// The number that the digit `c` stands for.
pub open spec fn digit_value(c: char) -> nat
    recommends
        is_digit(c),
{
    (c as nat - '0' as nat) as nat
}

/// Whether every character of `s` is a digit. The empty text qualifies.
pub open spec fn all_digits(s: Seq<char>) -> bool {
    forall|i: int| 0 <= i < s.len() ==> is_digit(#[trigger] s[i])
}

/// Whether `s` is one or more digits.
pub open spec fn is_digits(s: Seq<char>) -> bool {
    s.len() > 0 && all_digits(s)
}

/// The number that a run of digits denotes in base ten, leading zeros allowed.
pub open spec fn decimal(s: Seq<char>) -> nat
    decreases s.len(),
{
    if s.len() == 0 {
        0
    } else {
        10 * decimal(s.drop_last()) + digit_value(s.last())
    }
}

/// `s` without the plus sign that may stand in front of a number.
pub open spec fn unsigned(s: Seq<char>) -> Seq<char> {
    if s.len() > 0 && s[0] == '+' {
        s.drop_first()
    } else {
        s
    }
}

/// Whether `s` is the text of a number between 0 and 255: an optional plus
/// sign, then one or more digits whose value fits.
pub open spec fn is_u8_text(s: Seq<char>) -> bool {
    is_digits(unsigned(s)) && decimal(unsigned(s)) <= u8::MAX
}

/// The number that a text accepted by [`is_u8_text`] denotes.
pub open spec fn u8_text_value(s: Seq<char>) -> nat {
    decimal(unsigned(s))
}

/// `std::num::ParseIntError`, the error of a conversion from text. It is
/// carried through as it is; the proofs know nothing of what it holds.
#[verifier::external_type_specification]
#[verifier::external_body]
pub struct ExParseIntError(ParseIntError);

/// Converts text to a `u8` with `str::parse`.
///
/// The contract restates the documentation of `u8::from_str`: the text must
/// be an optional `+` followed by decimal digits only, and the value must
/// fit; anything else, the empty text included, is an error.
#[verifier::external_body]
pub(crate) fn parse_u8(s: &str) -> (r: Result<u8, ParseIntError>)
    ensures
        r is Ok <==> is_u8_text(s@),
        r is Ok ==> r->Ok_0 == u8_text_value(s@),
{
    s.parse::<u8>()
}

} // verus!
