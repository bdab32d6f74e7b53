//! The parser that matches the text against one regular expression.

use crate::error::{outcome, ParseSpecificationError};
use crate::grammar::{piece_view, Pieces, Reading};
use crate::model::{Failure, Specification};
use regex::Regex;
use std::str::FromStr;
use vstd::prelude::*;

verus! {

/// The regular expression of dice notation, anchored at both ends: either
/// count, `d` and size (groups 1 and 2) or the size alone (group 3), then
/// optionally `+` and the modifier (group 4). `\d` also matches the decimal
/// digits of other scripts, which the conversion then turns down.
pub const PATTERN: &'static str = r"^(?:(\d+)d(\d+)|(\d+))(?:\+(\d+))?$";

/// `regex::Error`, the error of `Regex::new` for a pattern that it refuses.
/// The proofs know nothing of what it holds.
#[verifier::external_type_specification]
#[verifier::external_body]
pub struct ExRegexError(regex::Error);

/// Whether `Regex::new` accepts `pattern` as a regular expression.
pub uninterp spec fn pattern_compiles(pattern: Seq<char>) -> bool;

/// What `Regex::captures` finds in `text` for the regular expression
/// `pattern`: nothing where `text` holds no match, else the groups of the
/// first match, the whole match at index 0 and a group that took no part in
/// the match as `None`.
pub uninterp spec fn pattern_captures(pattern: Seq<char>, text: Seq<char>) -> Option<
    Seq<Option<Seq<char>>>,
>;

/// Compiles `pattern` with `Regex::new` and searches `text` with
/// `Regex::captures`. The groups of the match are copied out in the order of
/// `Captures::iter`, each as the text of `Match::as_str`.
///
/// The contract names what the two calls return and claims no more: an error
/// means that the pattern was refused, and the groups are those of the
/// search.
#[verifier::external_body]
fn captures(pattern: &str, text: &str) -> (r: Result<Option<Vec<Option<String>>>, regex::Error>)
    ensures
        r is Ok <==> pattern_compiles(pattern@),
        r matches Ok(groups) ==> groups.deep_view() == pattern_captures(pattern@, text@),
{
    let regex = Regex::new(pattern)?;
    Ok(
        regex.captures(text).map(
            |found| found.iter().map(|group| group.map(|m| m.as_str().to_string())).collect(),
        ),
    )
}

/// Group `i` of a match: `None` where the match has no such group or the
/// group took no part.
pub open spec fn group(groups: Seq<Option<Seq<char>>>, i: int) -> Option<Seq<char>> {
    if 0 <= i < groups.len() {
        groups[i]
    } else {
        None
    }
}

/// The pieces that the groups of a match hold. Where group 3 took part it is
/// the size and there is no count; else groups 1 and 2 are count and size.
/// Group 4 is the modifier. Groups that fit neither alternative give nothing.
pub open spec fn captures_reading(groups: Seq<Option<Seq<char>>>) -> Option<Reading> {
    if group(groups, 3) is Some {
        Some(Reading { count: None, size: group(groups, 3)->0, modifier: group(groups, 4) })
    } else if group(groups, 1) is Some && group(groups, 2) is Some {
        Some(
            Reading {
                count: group(groups, 1),
                size: group(groups, 2)->0,
                modifier: group(groups, 4),
            },
        )
    } else {
        None
    }
}

/// What the groups of a match give: invalid where they fit neither
/// alternative of the pattern, else what their pieces convert to.
pub open spec fn captures_outcome(groups: Seq<Option<Seq<char>>>) -> Result<
    Specification,
    Failure,
> {
    match captures_reading(groups) {
        None => Err(Failure::Invalid),
        Some(r) => r.outcome(),
    }
}

/// What the pattern parser makes of `s`: invalid where the pattern finds no
/// match in `s`, else what the groups of the match give. Were the pattern
/// itself refused, every text would be invalid.
pub open spec fn pattern_outcome(s: Seq<char>) -> Result<Specification, Failure> {
    if !pattern_compiles(PATTERN@) {
        Err(Failure::Invalid)
    } else {
        match pattern_captures(PATTERN@, s) {
            None => Err(Failure::Invalid),
            Some(groups) => captures_outcome(groups),
        }
    }
}

/// Dice notation as read by the regular expression [`PATTERN`].
#[derive(Copy, Clone, Debug)]
pub struct RegexSpecification {
    count: u8,
    size: u8,
    modifier: u8,
}

impl View for RegexSpecification {
    type V = Specification;

    closed spec fn view(&self) -> Specification {
        Specification {
            count: self.count as nat,
            size: self.size as nat,
            modifier: self.modifier as nat,
        }
    }
}

/// Two values with the same view are the same value.
pub proof fn lemma_view_is_value(a: RegexSpecification, b: RegexSpecification)
    requires
        a@ == b@,
    ensures
        a == b,
{
}

/// Group `i` of a match as text.
fn group_text(groups: &Vec<Option<String>>, i: usize) -> (r: Option<&str>)
    ensures
        piece_view(r) == group(groups.deep_view(), i as int),
{
    if i < groups.len() {
        match &groups[i] {
            Some(text) => Some(text.as_str()),
            None => None,
        }
    } else {
        None
    }
}

impl RegexSpecification {
    /// One die of the given size, nothing added.
    pub fn single(size: u8) -> (r: RegexSpecification)
        ensures
            r@ == (Specification { count: 1, size: size as nat, modifier: 0 }),
    {
        RegexSpecification { size, count: 1, modifier: 0 }
    }

    /// `count` dice of the given size, nothing added.
    pub fn multiple(count: u8, size: u8) -> (r: RegexSpecification)
        ensures
            r@ == (Specification { count: count as nat, size: size as nat, modifier: 0 }),
    {
        RegexSpecification { count, size, modifier: 0 }
    }

    /// The same dice with `modifier` added to the roll.
    pub fn with_modifier(self, modifier: u8) -> (r: RegexSpecification)
        ensures
            r@ == (Specification { modifier: modifier as nat, ..self@ }),
    {
        RegexSpecification { count: self.count, size: self.size, modifier }
    }

    /// The number of dice.
    pub fn count(&self) -> (r: u8)
        ensures
            r == self@.count,
    {
        self.count
    }

    /// The number of sides of each die.
    pub fn size(&self) -> (r: u8)
        ensures
            r == self@.size,
    {
        self.size
    }

    /// What is added to the roll.
    pub fn modifier(&self) -> (r: u8)
        ensures
            r == self@.modifier,
    {
        self.modifier
    }

    /// Builds the value from the groups of a match of [`PATTERN`]: the whole
    /// match at index 0, then the four groups of the pattern.
    pub fn from_captures(groups: &Vec<Option<String>>) -> (r: Result<
        RegexSpecification,
        ParseSpecificationError,
    >)
        ensures
            outcome(r) == captures_outcome(groups.deep_view()),
    {
        let modifier = group_text(groups, 4);
        let pieces = match group_text(groups, 3) {
            Some(size) => Pieces { count: None, size, modifier },
            None => match (group_text(groups, 1), group_text(groups, 2)) {
                (Some(count), Some(size)) => Pieces { count: Some(count), size, modifier },
                _ => {
                    return Err(ParseSpecificationError::Invalid);
                },
            },
        };
        let (count, size, modifier) = match pieces.convert() {
            Ok(numbers) => numbers,
            Err(e) => {
                return Err(e);
            },
        };
        let dice = match pieces.count {
            None => RegexSpecification::single(size),
            Some(_) => RegexSpecification::multiple(count, size),
        };
        Ok(dice.with_modifier(modifier))
    }
}

impl FromStr for RegexSpecification {
    type Err = ParseSpecificationError;

    /// Reads dice notation by matching the whole text against [`PATTERN`].
    fn from_str(s: &str) -> (r: Result<Self, Self::Err>)
        ensures
            outcome(r) == pattern_outcome(s@),
    {
        match captures(PATTERN, s) {
            Ok(Some(groups)) => RegexSpecification::from_captures(&groups),
            Ok(None) => Err(ParseSpecificationError::Invalid),
            Err(_) => Err(ParseSpecificationError::Invalid),
        }
    }
}

} // verus!
