//! The grammar of dice notation, and what a text of the grammar stands for.
//!
//! ```text
//! FullSpec     := DiceTerm ModifierTerm? END
//! DiceTerm     := (Digits "d")? Digits
//! ModifierTerm := "+" Digits
//! Digits       := digit+
//! ```

use crate::error::ParseSpecificationError;
use crate::model::{Failure, Specification};
use crate::number::{
    all_digits, decimal, is_digit, is_digits, is_u8_text, parse_u8, u8_text_value,
};
use vstd::prelude::*;

verus! {

/// The number that a run of digits stands for, with `default` for a piece
/// that is missing.
pub open spec fn piece_number(piece: Option<Seq<char>>, default: nat) -> nat {
    match piece {
        Some(digits) => decimal(digits),
        None => default,
    }
}

/// The pieces that a parser has cut a text into: the count before the `d`, if
/// there is one, the size, and the modifier after the `+`, if there is one.
pub struct Reading {
    pub count: Option<Seq<char>>,
    pub size: Seq<char>,
    pub modifier: Option<Seq<char>>,
}

impl Reading {
    /// Whether every piece is `Digits`.
    pub open spec fn well_formed(self) -> bool {
        &&& is_digits(self.size)
        &&& self.count is Some ==> is_digits(self.count->0)
        &&& self.modifier is Some ==> is_digits(self.modifier->0)
    }

    /// The dice term that the pieces spell.
    pub open spec fn dice_term(self) -> Seq<char> {
        match self.count {
            Some(count) => count + seq!['d'] + self.size,
            None => self.size,
        }
    }

    /// The modifier term that the pieces spell: nothing where there is no
    /// modifier.
    pub open spec fn modifier_term(self) -> Seq<char> {
        match self.modifier {
            Some(modifier) => seq!['+'] + modifier,
            None => Seq::empty(),
        }
    }

    /// The full text that the pieces spell.
    pub open spec fn text(self) -> Seq<char> {
        self.dice_term() + self.modifier_term()
    }

    /// What well-formed pieces say to a reader: count, size and modifier are
    /// the decimal values of the digits before the `d`, after it and after
    /// the `+`, with 1 for a missing count and 0 for a missing modifier.
    /// Each of the three may be 255 at most; one that is larger is a numeric
    /// failure.
    pub open spec fn numbers(self) -> Result<Specification, Failure> {
        let count = piece_number(self.count, 1);
        let size = decimal(self.size);
        let modifier = piece_number(self.modifier, 0);
        if count <= 255 && size <= 255 && modifier <= 255 {
            Ok(Specification { count, size, modifier })
        } else {
            Err(Failure::NumericFormat)
        }
    }

    /// Whether every piece is the text of a number between 0 and 255.
    pub open spec fn converts(self) -> bool {
        &&& is_u8_text(self.size)
        &&& self.count is Some ==> is_u8_text(self.count->0)
        &&& self.modifier is Some ==> is_u8_text(self.modifier->0)
    }

    /// The numbers of the pieces: a missing count is 1, a missing modifier 0.
    pub open spec fn specification(self) -> Specification {
        Specification {
            count: match self.count {
                Some(count) => u8_text_value(count),
                None => 1,
            },
            size: u8_text_value(self.size),
            modifier: match self.modifier {
                Some(modifier) => u8_text_value(modifier),
                None => 0,
            },
        }
    }

    /// What the pieces give once converted, whatever text they hold: their
    /// numbers, or a numeric failure where one of them is no number between
    /// 0 and 255.
    pub open spec fn outcome(self) -> Result<Specification, Failure> {
        if self.converts() {
            Ok(self.specification())
        } else {
            Err(Failure::NumericFormat)
        }
    }
}

/// An optional piece of text by its characters.
pub open spec fn piece_view(piece: Option<&str>) -> Option<Seq<char>> {
    match piece {
        Some(text) => Some(text@),
        None => None,
    }
}

/// The pieces of a text as a parser holds them, before they are converted.
pub struct Pieces<'a> {
    pub count: Option<&'a str>,
    pub size: &'a str,
    pub modifier: Option<&'a str>,
}

impl<'a> View for Pieces<'a> {
    type V = Reading;

    open spec fn view(&self) -> Reading {
        Reading {
            count: piece_view(self.count),
            size: self.size@,
            modifier: piece_view(self.modifier),
        }
    }
}

/// What a conversion's result says: the three numbers as a specification, or
/// the error by its view.
pub open spec fn numbers_outcome(r: Result<(u8, u8, u8), ParseSpecificationError>) -> Result<
    Specification,
    Failure,
> {
    match r {
        Ok((count, size, modifier)) => Ok(
            Specification { count: count as nat, size: size as nat, modifier: modifier as nat },
        ),
        Err(e) => Err(e@),
    }
}

impl<'a> Pieces<'a> {
    /// Converts the pieces to the numbers `(count, size, modifier)`: the
    /// count first, then the size, then the modifier. A missing count is 1, a
    /// missing modifier 0. The first piece that is no number between 0 and
    /// 255 ends the conversion with its error.
    pub fn convert(&self) -> (r: Result<(u8, u8, u8), ParseSpecificationError>)
        ensures
            numbers_outcome(r) == self@.outcome(),
    {
        let count = match self.count {
            None => 1,
            Some(text) => match parse_u8(text) {
                Ok(value) => value,
                Err(e) => {
                    return Err(ParseSpecificationError::from(e));
                },
            },
        };
        let size = match parse_u8(self.size) {
            Ok(value) => value,
            Err(e) => {
                return Err(ParseSpecificationError::from(e));
            },
        };
        let modifier = match self.modifier {
            None => 0,
            Some(text) => match parse_u8(text) {
                Ok(value) => value,
                Err(e) => {
                    return Err(ParseSpecificationError::from(e));
                },
            },
        };
        Ok((count, size, modifier))
    }
}

/// Whether `s` is a text of the grammar: whether well-formed pieces spell it.
pub open spec fn in_grammar(s: Seq<char>) -> bool {
    exists|r: Reading| r.well_formed() && #[trigger] r.text() == s
}

/// The pieces of a text of the grammar. [`lemma_reading_unique`] shows that
/// there is one choice only.
pub open spec fn reading_of(s: Seq<char>) -> Option<Reading> {
    if in_grammar(s) {
        Some(choose|r: Reading| r.well_formed() && #[trigger] r.text() == s)
    } else {
        None
    }
}

/// What the grammar makes of `s`: invalid where `s` is no text of the
/// grammar, else the numbers that its pieces say, which must each fit in
/// eight bits.
pub open spec fn grammar_outcome(s: Seq<char>) -> Result<Specification, Failure> {
    match reading_of(s) {
        None => Err(Failure::Invalid),
        Some(r) => r.numbers(),
    }
}

/// Where the run of digits that starts at `from` ends.
pub open spec fn digits_end(s: Seq<char>, from: int) -> int
    decreases s.len() - from,
{
    if 0 <= from < s.len() && is_digit(s[from]) {
        digits_end(s, from + 1)
    } else {
        from
    }
}

/// The pieces of `s` as one pass from left to right finds them: a run of
/// digits; if a `d` follows, a second run; then the end, or a `+` and a last
/// run that reaches the end.
pub open spec fn scan(s: Seq<char>) -> Option<Reading> {
    let first = digits_end(s, 0);
    let counted = first < s.len() && s[first] == 'd';
    let size_from = if counted { first + 1 } else { 0 };
    let size_to = if counted { digits_end(s, first + 1) } else { first };
    let count = if counted { Some(s.subrange(0, first)) } else { None };
    let size = s.subrange(size_from, size_to);
    if first == 0 || size_from == size_to {
        None
    } else if size_to == s.len() {
        Some(Reading { count, size, modifier: None })
    } else if s[size_to] == '+' && size_to + 1 < s.len() && digits_end(s, size_to + 1) == s.len() {
        Some(Reading { count, size, modifier: Some(s.subrange(size_to + 1, s.len() as int)) })
    } else {
        None
    }
}

/// The run of digits from `from` stays within `s`, holds digits only and
/// stops at the end or at a character that is no digit.
pub proof fn lemma_digits_end(s: Seq<char>, from: int)
    requires
        0 <= from <= s.len(),
    ensures
        from <= digits_end(s, from) <= s.len(),
        all_digits(s.subrange(from, digits_end(s, from))),
        digits_end(s, from) < s.len() ==> !is_digit(s[digits_end(s, from)]),
    decreases s.len() - from,
{
    if from < s.len() && is_digit(s[from]) {
        lemma_digits_end(s, from + 1);
        let end = digits_end(s, from);
        assert forall|i: int| 0 <= i < end - from implies is_digit(
            #[trigger] s.subrange(from, end)[i],
        ) by {
            if i > 0 {
                assert(s.subrange(from, end)[i] == s.subrange(from + 1, end)[i - 1]);
            }
        }
    }
}

/// A stretch of digits that stops at the end or at a character that is no
/// digit is the run of digits from its start.
pub proof fn lemma_digits_end_is(s: Seq<char>, from: int, end: int)
    requires
        0 <= from <= end <= s.len(),
        all_digits(s.subrange(from, end)),
        end < s.len() ==> !is_digit(s[end]),
    ensures
        digits_end(s, from) == end,
    decreases end - from,
{
    if from < end {
        assert(s[from] == s.subrange(from, end)[0]);
        assert forall|i: int| 0 <= i < end - from - 1 implies is_digit(
            #[trigger] s.subrange(from + 1, end)[i],
        ) by {
            assert(s.subrange(from + 1, end)[i] == s.subrange(from, end)[i + 1]);
        }
        lemma_digits_end_is(s, from + 1, end);
    }
}

/// What the scan finds is well formed and spells the text.
pub proof fn lemma_scan_sound(s: Seq<char>)
    ensures
        scan(s) matches Some(r) ==> r.well_formed() && r.text() == s,
{
    lemma_digits_end(s, 0);
    let first = digits_end(s, 0);
    if first < s.len() {
        lemma_digits_end(s, first + 1);
    }
    if let Some(r) = scan(s) {
        let counted = first < s.len() && s[first] == 'd';
        let size_to = if counted { digits_end(s, first + 1) } else { first };
        if size_to < s.len() {
            lemma_digits_end(s, size_to + 1);
        }
        assert(r.text() =~= s);
    }
}

/// The scan of what well-formed pieces spell finds these very pieces.
pub proof fn lemma_scan_complete(r: Reading)
    requires
        r.well_formed(),
    ensures
        scan(r.text()) == Some(r),
{
    let s = r.text();
    let dice = r.dice_term();
    let size_from: int = match r.count {
        Some(count) => count.len() as int + 1,
        None => 0,
    };
    let size_to = size_from + r.size.len();
    assert(dice.len() == size_to);
    assert(s.subrange(size_from, size_to) =~= r.size);
    match r.count {
        Some(count) => {
            assert(s.subrange(0, count.len() as int) =~= count);
            assert(s[count.len() as int] == 'd');
            lemma_digits_end_is(s, 0, count.len() as int);
        },
        None => {},
    }
    match r.modifier {
        Some(modifier) => {
            assert(s[size_to] == '+');
            assert(s.subrange(size_to + 1, s.len() as int) =~= modifier);
            lemma_digits_end_is(s, size_to + 1, s.len() as int);
        },
        None => {},
    }
    lemma_digits_end_is(s, size_from, size_to);
    let found = scan(s);
    assert(found is Some);
    assert(found->0.size =~= r.size);
    assert(found->0.count == r.count);
    assert(found->0.modifier == r.modifier);
}

/// A text of the grammar has one reading: well-formed pieces that spell `s`
/// are the pieces of `s`.
pub proof fn lemma_reading_unique(s: Seq<char>, r: Reading)
    requires
        r.well_formed(),
        r.text() == s,
    ensures
        in_grammar(s),
        reading_of(s) == Some(r),
{
    let chosen = choose|c: Reading| c.well_formed() && #[trigger] c.text() == s;
    lemma_scan_complete(r);
    lemma_scan_complete(chosen);
}

/// The grammar's reading is the one that the scan finds.
pub proof fn lemma_reading_is_scan(s: Seq<char>)
    ensures
        reading_of(s) == scan(s),
{
    lemma_scan_sound(s);
    if let Some(r) = scan(s) {
        lemma_reading_unique(s, r);
    } else if in_grammar(s) {
        let chosen = choose|c: Reading| c.well_formed() && #[trigger] c.text() == s;
        lemma_scan_complete(chosen);
    }
}

/// For a run of digits, to be the text of a `u8` is to have a value of at
/// most 255, and that value is the run's decimal value.
pub proof fn lemma_digits_as_u8(s: Seq<char>)
    requires
        is_digits(s),
    ensures
        is_u8_text(s) <==> decimal(s) <= 255,
        u8_text_value(s) == decimal(s),
{
    assert(is_digit(s[0]));
}

/// Well-formed pieces convert to the numbers that they say.
pub proof fn lemma_outcome_is_numbers(r: Reading)
    requires
        r.well_formed(),
    ensures
        r.outcome() == r.numbers(),
{
    lemma_digits_as_u8(r.size);
    if let Some(count) = r.count {
        lemma_digits_as_u8(count);
    }
    if let Some(modifier) = r.modifier {
        lemma_digits_as_u8(modifier);
    }
}

} // verus!
