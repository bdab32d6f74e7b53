//! The parser that splits the text at its delimiters.

use crate::error::{outcome, ParseSpecificationError};
use crate::model::{Failure, Specification};
use crate::number::{is_u8_text, parse_u8, u8_text_value};
use crate::text::{after, before, chars_of, find, lemma_first_index, trimmed};
use std::str::FromStr;
use vstd::prelude::*;
use vstd::string::StrSliceExecFns;

verus! {

/// Dice notation as read by splitting at `+` and at `d`.
#[derive(Copy, Clone, Debug, Eq, PartialEq)]
pub struct SplitSpecification {
    pub count: u8,
    pub size: u8,
    pub modifier: u8,
}

impl View for SplitSpecification {
    type V = Specification;

    open spec fn view(&self) -> Specification {
        Specification {
            count: self.count as nat,
            size: self.size as nat,
            modifier: self.modifier as nat,
        }
    }
}

/// How the splitting parser reads what follows the first `+`: nothing there
/// means 0; else the piece up to the next `+` must be a number, and no
/// further `+` may follow it.
pub open spec fn split_modifier(rest: Option<Seq<char>>) -> Result<nat, Failure> {
    match rest {
        None => Ok(0),
        Some(rest) => if !is_u8_text(before(rest, '+')) {
            Err(Failure::NumericFormat)
        } else if after(rest, '+') is Some {
            Err(Failure::Invalid)
        } else {
            Ok(u8_text_value(before(rest, '+')))
        },
    }
}

/// How the splitting parser reads the dice term once its first piece, up to
/// the first `d`, has given the number `left`: alone it is the size of one
/// die; followed by one more piece it is the count, and that piece the size.
pub open spec fn split_dice(left: nat, rest: Option<Seq<char>>, modifier: nat) -> Result<
    Specification,
    Failure,
> {
    match rest {
        None => Ok(Specification { count: 1, size: left, modifier }),
        Some(rest) => if after(rest, 'd') is Some {
            Err(Failure::Invalid)
        } else if !is_u8_text(rest) {
            Err(Failure::NumericFormat)
        } else {
            Ok(Specification { count: left, size: u8_text_value(rest), modifier })
        },
    }
}

/// What the splitting parser makes of `s`.
///
/// The text is trimmed; an empty text is invalid. The dice term is what
/// stands before the first `+`, and its first piece what stands before the
/// first `d`. That piece is converted first, then the modifier; only then
/// are surplus delimiters turned down and the second piece converted.
pub open spec fn split_outcome(s: Seq<char>) -> Result<Specification, Failure> {
    let text = trimmed(s);
    let dice = before(text, '+');
    let left = before(dice, 'd');
    if text.len() == 0 {
        Err(Failure::Invalid)
    } else if !is_u8_text(left) {
        Err(Failure::NumericFormat)
    } else {
        match split_modifier(after(text, '+')) {
            Err(failure) => Err(failure),
            Ok(modifier) => split_dice(u8_text_value(left), after(dice, 'd'), modifier),
        }
    }
}

impl FromStr for SplitSpecification {
    type Err = ParseSpecificationError;

    /// Reads dice notation by splitting the trimmed text once at `+` and the
    /// dice term once at `d`.
    fn from_str(s: &str) -> (r: Result<Self, Self::Err>)
        ensures
            outcome(r) == split_outcome(s@),
    {
        let text = s.trim();
        let chars = chars_of(text);
        let n = chars.len();
        if n == 0 {
            return Err(ParseSpecificationError::Invalid);
        }
        let plus = find(&chars, 0, n, '+');
        let d = find(&chars, 0, plus, 'd');
        proof {
            lemma_first_index(text@, '+');
            lemma_first_index(text@.take(plus as int), 'd');
            assert(chars@.subrange(0, n as int) == text@);
            assert(chars@.subrange(0, plus as int) == before(text@, '+'));
            assert(text@.subrange(0, d as int) == before(before(text@, '+'), 'd'));
        }
        let left = match parse_u8(text.substring_char(0, d)) {
            Ok(value) => value,
            Err(e) => {
                return Err(ParseSpecificationError::from(e));
            },
        };
        let modifier = if plus < n {
            let next = find(&chars, plus + 1, n, '+');
            let ghost rest = text@.skip(plus + 1);
            proof {
                lemma_first_index(rest, '+');
                assert(chars@.subrange(plus + 1, n as int) == rest);
                assert(text@.subrange(plus + 1, next as int) == before(rest, '+'));
            }
            let value = match parse_u8(text.substring_char(plus + 1, next)) {
                Ok(value) => value,
                Err(e) => {
                    return Err(ParseSpecificationError::from(e));
                },
            };
            if next < n {
                return Err(ParseSpecificationError::Invalid);
            }
            value
        } else {
            0
        };
        if d == plus {
            return Ok(SplitSpecification { count: 1, size: left, modifier });
        }
        let more = find(&chars, d + 1, plus, 'd');
        let ghost rest = before(text@, '+').skip(d + 1);
        proof {
            lemma_first_index(rest, 'd');
            assert(chars@.subrange(d + 1, plus as int) == rest);
            assert(text@.subrange(d + 1, plus as int) == rest);
        }
        if more < plus {
            return Err(ParseSpecificationError::Invalid);
        }
        match parse_u8(text.substring_char(d + 1, plus)) {
            Ok(size) => Ok(SplitSpecification { count: left, size, modifier }),
            Err(e) => Err(ParseSpecificationError::from(e)),
        }
    }
}

} // verus!
