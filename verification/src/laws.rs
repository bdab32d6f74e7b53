//! What holds of the parsers together: they agree on the texts of the
//! grammar, they turn down what lies outside it, and the limit of every
//! number is 255.

use crate::error::{outcome, ParseSpecificationError};
use crate::grammar::{
    grammar_outcome, in_grammar, lemma_outcome_is_numbers, lemma_reading_unique, piece_number,
    reading_of, Reading,
};
use crate::model::{Failure, Specification};
use crate::number::{decimal, is_digit, is_digits, is_u8_text};
use crate::pattern::{
    captures_outcome, captures_reading, lemma_view_is_value, pattern_outcome, RegexSpecification,
};
use crate::peg::PestSpecification;
use crate::split::{split_outcome, SplitSpecification};
use crate::text::{
    after, before, lemma_first_index, lemma_first_index_is, lemma_trimmed_twice,
    lemma_trimmed_unchanged, trimmed,
};
use vstd::prelude::*;

verus! {

/// The grammar reads from the text that well-formed pieces spell the numbers
/// that the pieces say, and fails on a number above 255.
pub proof fn lemma_grammar_reads_pieces(r: Reading)
    requires
        r.well_formed(),
    ensures
        in_grammar(r.text()),
        grammar_outcome(r.text()) == r.numbers(),
{
    lemma_reading_unique(r.text(), r);
}

/// The splitting parser reads from the text that well-formed pieces spell
/// the numbers that the pieces say, and fails on a number above 255.
pub proof fn lemma_split_reads_pieces(r: Reading)
    requires
        r.well_formed(),
    ensures
        split_outcome(r.text()) == r.numbers(),
{
    lemma_grammar_reads_pieces(r);
    lemma_split_agrees_with_grammar(r.text());
}

/// The groups that the two alternatives of the pattern mark in the text that
/// the pieces spell: the whole text, count and size around the `d` or else
/// the size alone, and the modifier.
pub open spec fn groups_of(r: Reading) -> Seq<Option<Seq<char>>> {
    seq![
        Some(r.text()),
        r.count,
        if r.count is Some { Some(r.size) } else { None },
        if r.count is Some { None } else { Some(r.size) },
        r.modifier,
    ]
}

/// From the groups that the pattern marks in the text that well-formed
/// pieces spell, the pattern parser builds the numbers that the pieces say,
/// and fails on a number above 255. Whether the search returns these groups
/// is not part of this statement.
pub proof fn lemma_captures_read_pieces(r: Reading)
    requires
        r.well_formed(),
    ensures
        captures_outcome(groups_of(r)) == r.numbers(),
        captures_outcome(groups_of(r)) == grammar_outcome(r.text()),
{
    lemma_grammar_reads_pieces(r);
    lemma_outcome_is_numbers(r);
    let groups = groups_of(r);
    assert(captures_reading(groups) == Some(r));
}

/// The parsers converge: from the text that well-formed pieces spell, the
/// grammar, the splitting parser and the pattern parser, which is given the
/// groups that its pattern marks in that text, all read the same numbers or
/// all fail in the same way.
pub proof fn lemma_parsers_converge(r: Reading)
    requires
        r.well_formed(),
    ensures
        split_outcome(r.text()) == grammar_outcome(r.text()),
        captures_outcome(groups_of(r)) == grammar_outcome(r.text()),
{
    lemma_grammar_reads_pieces(r);
    lemma_split_reads_pieces(r);
    lemma_captures_read_pieces(r);
}

/// The limit of count, size and modifier is 255: the text that well-formed
/// pieces spell is accepted exactly where none of the three numbers is above
/// 255, and is a numeric failure where one of them is.
pub proof fn lemma_limit_is_255(r: Reading)
    requires
        r.well_formed(),
    ensures
        ({
            let fits = piece_number(r.count, 1) <= 255 && decimal(r.size) <= 255 && piece_number(
                r.modifier,
                0,
            ) <= 255;
            &&& fits ==> grammar_outcome(r.text()) is Ok
            &&& fits ==> split_outcome(r.text()) is Ok
            &&& fits ==> captures_outcome(groups_of(r)) is Ok
            &&& !fits ==> grammar_outcome(r.text()) == Err::<Specification, Failure>(
                Failure::NumericFormat,
            )
            &&& !fits ==> split_outcome(r.text()) == Err::<Specification, Failure>(
                Failure::NumericFormat,
            )
            &&& !fits ==> captures_outcome(groups_of(r)) == Err::<Specification, Failure>(
                Failure::NumericFormat,
            )
        }),
{
    lemma_parsers_converge(r);
}

/// A run of digits holds neither delimiter, so nothing stands after one and
/// the whole run stands before it.
proof fn lemma_digits_hold_no_delimiter(digits: Seq<char>, sep: char)
    requires
        is_digits(digits),
        sep == '+' || sep == 'd',
    ensures
        before(digits, sep) == digits,
        after(digits, sep) is None,
{
    lemma_first_index_is(digits, sep, digits.len() as int);
    assert(digits.take(digits.len() as int) =~= digits);
}

/// A piece without a `+` that is the text of a `u8` is a run of digits.
proof fn lemma_unsigned_piece(piece: Seq<char>)
    requires
        is_u8_text(piece),
        forall|i: int| 0 <= i < piece.len() ==> piece[i] != '+',
    ensures
        is_digits(piece),
{
}

/// On a text of the grammar the splitting parser and the grammar agree, on
/// the numbers and on the failure.
pub proof fn lemma_split_agrees_with_grammar(s: Seq<char>)
    requires
        in_grammar(s),
    ensures
        split_outcome(s) == grammar_outcome(s),
{
    let r = reading_of(s)->0;
    lemma_reading_unique(s, r);
    let dice = r.dice_term();
    assert(is_digit(r.size[0]));
    assert(is_digit(r.size.last()));
    assert(is_digit(s[0])) by {
        if let Some(count) = r.count {
            assert(s[0] == count[0]);
        }
    }
    assert(is_digit(s.last())) by {
        if let Some(modifier) = r.modifier {
            assert(s.last() == modifier.last());
        }
    }
    lemma_trimmed_unchanged(s);
    // The dice term holds no `+`, so the first `+` is the one of the modifier.
    assert forall|j: int| 0 <= j < dice.len() implies dice[j] != '+' by {
        if let Some(count) = r.count {
            if j < count.len() {
                assert(dice[j] == count[j]);
            } else if j > count.len() {
                assert(dice[j] == r.size[j - count.len() - 1]);
            }
        } else {
            assert(is_digit(r.size[j]));
        }
    }
    assert forall|j: int| 0 <= j < dice.len() implies s[j] != '+' by {
        assert(s[j] == dice[j]);
    }
    lemma_first_index_is(s, '+', dice.len() as int);
    assert(before(s, '+') =~= dice);
    match r.modifier {
        Some(modifier) => {
            assert(s.skip(dice.len() as int + 1) =~= modifier);
            lemma_digits_hold_no_delimiter(modifier, '+');
        },
        None => {},
    }
    match r.count {
        Some(count) => {
            assert forall|j: int| 0 <= j < count.len() implies dice[j] != 'd' by {
                assert(dice[j] == count[j]);
            }
            lemma_first_index_is(dice, 'd', count.len() as int);
            assert(before(dice, 'd') =~= count);
            assert(dice.skip(count.len() as int + 1) =~= r.size);
            lemma_digits_hold_no_delimiter(r.size, 'd');
        },
        None => {
            lemma_digits_hold_no_delimiter(r.size, 'd');
        },
    }
}

/// What the splitting parser accepts is, once trimmed, a text of the
/// grammar, and the grammar reads the same numbers from it.
pub proof fn lemma_split_accepts_grammar_only(s: Seq<char>)
    requires
        split_outcome(s) is Ok,
    ensures
        in_grammar(trimmed(s)),
        split_outcome(s) == grammar_outcome(trimmed(s)),
{
    let text = trimmed(s);
    let dice = before(text, '+');
    let left = before(dice, 'd');
    lemma_first_index(text, '+');
    lemma_first_index(dice, 'd');
    lemma_unsigned_piece(left);
    let modifier = match after(text, '+') {
        None => None,
        Some(rest) => {
            lemma_first_index(rest, '+');
            lemma_unsigned_piece(before(rest, '+'));
            assert(before(rest, '+') =~= rest);
            Some(rest)
        },
    };
    let r = match after(dice, 'd') {
        None => {
            assert(left =~= dice);
            Reading { count: None, size: left, modifier }
        },
        Some(size) => {
            lemma_first_index(size, 'd');
            lemma_unsigned_piece(size);
            Reading { count: Some(left), size, modifier }
        },
    };
    assert(r.text() =~= text);
    lemma_reading_unique(text, r);
}

/// The splitting parser and the grammar accept the same texts up to the
/// white space around them, and read the same numbers where they accept.
pub proof fn lemma_split_converges(s: Seq<char>)
    ensures
        split_outcome(s) is Ok <==> grammar_outcome(trimmed(s)) is Ok,
        split_outcome(s) is Ok ==> split_outcome(s) == grammar_outcome(trimmed(s)),
{
    if split_outcome(s) is Ok {
        lemma_split_accepts_grammar_only(s);
    }
    if grammar_outcome(trimmed(s)) is Ok {
        lemma_split_agrees_with_grammar(trimmed(s));
        lemma_trimmed_twice(s);
    }
}

/// Where the splitting parser and the grammar both accept a text, they read
/// the same numbers from it.
pub proof fn lemma_accepted_by_both(s: Seq<char>)
    requires
        split_outcome(s) is Ok,
        grammar_outcome(s) is Ok,
    ensures
        split_outcome(s) == grammar_outcome(s),
{
    lemma_split_agrees_with_grammar(s);
}

/// Reading one text twice with the splitting parser gives the same value or
/// the same failure.
pub proof fn lemma_split_is_deterministic(
    s: Seq<char>,
    first: Result<SplitSpecification, ParseSpecificationError>,
    second: Result<SplitSpecification, ParseSpecificationError>,
)
    requires
        outcome(first) == split_outcome(s),
        outcome(second) == split_outcome(s),
    ensures
        outcome(first) == outcome(second),
        first is Ok ==> second is Ok && first->Ok_0 == second->Ok_0,
        first is Err ==> second is Err && first->Err_0@ == second->Err_0@,
{
}

/// Reading one text twice with the tree parser gives the same value or the
/// same failure.
pub proof fn lemma_tree_is_deterministic(
    s: Seq<char>,
    first: Result<PestSpecification, ParseSpecificationError>,
    second: Result<PestSpecification, ParseSpecificationError>,
)
    requires
        outcome(first) == grammar_outcome(s),
        outcome(second) == grammar_outcome(s),
    ensures
        outcome(first) == outcome(second),
        first is Ok ==> second is Ok && first->Ok_0 == second->Ok_0,
        first is Err ==> second is Err && first->Err_0@ == second->Err_0@,
{
}

/// Reading one text twice with the pattern parser gives the same value or
/// the same failure.
pub proof fn lemma_pattern_is_deterministic(
    s: Seq<char>,
    first: Result<RegexSpecification, ParseSpecificationError>,
    second: Result<RegexSpecification, ParseSpecificationError>,
)
    requires
        outcome(first) == pattern_outcome(s),
        outcome(second) == pattern_outcome(s),
    ensures
        outcome(first) == outcome(second),
        first is Ok ==> second is Ok && first->Ok_0 == second->Ok_0,
        first is Err ==> second is Err && first->Err_0@ == second->Err_0@,
{
    if first is Ok {
        lemma_view_is_value(first->Ok_0, second->Ok_0);
    }
}

} // verus!
