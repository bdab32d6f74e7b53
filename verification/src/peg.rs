//! The parser that matches the text against the grammar rule by rule, builds
//! a parse tree and reads the pieces off the tree.

use crate::error::{outcome, ParseSpecificationError};
use crate::grammar::{
    digits_end, grammar_outcome, in_grammar, lemma_digits_end, lemma_outcome_is_numbers,
    lemma_reading_is_scan, piece_view, reading_of, Pieces, Reading,
};
use crate::model::{Failure, Specification};
use crate::text::chars_of;
use std::str::FromStr;
use vstd::prelude::*;
use vstd::string::StrSliceExecFns;

verus! {

/// The rules of the grammar: the kind of a node in the parse tree.
#[derive(Clone, Copy, Debug, PartialEq, Eq, Structural)]
pub enum Rule {
    FullSpec,
    DiceTerm,
    ModifierTerm,
    Digits,
}

/// A node of the parse tree: the rule that matched, the characters
/// `start..end` of the text that it matched, and the nodes of the rules that
/// matched within it.
#[derive(Debug, PartialEq, Eq)]
pub struct Node {
    pub rule: Rule,
    pub start: usize,
    pub end: usize,
    pub children: Vec<Node>,
}

impl Node {
    /// Whether this is the leaf that `Digits` leaves for the characters
    /// `start..end`.
    pub open spec fn is_digits(self, start: int, end: int) -> bool {
        &&& self.rule == Rule::Digits
        &&& self.start == start
        &&& self.end == end
        &&& self.children@.len() == 0
    }

    /// Whether this is the node that `DiceTerm` leaves for the pieces `count`
    /// and `size` where the term starts at `start`: one leaf for each piece.
    pub open spec fn is_dice_term(
        self,
        start: int,
        count: Option<Seq<char>>,
        size: Seq<char>,
    ) -> bool {
        let size_from = match count {
            Some(count) => start + count.len() + 1,
            None => start,
        };
        &&& self.rule == Rule::DiceTerm
        &&& self.start == start
        &&& self.end == size_from + size.len()
        &&& match count {
            Some(count) => {
                &&& self.children@.len() == 2
                &&& self.children@[0].is_digits(start, start + count.len())
                &&& self.children@[1].is_digits(size_from, size_from + size.len())
            },
            None => {
                &&& self.children@.len() == 1
                &&& self.children@[0].is_digits(size_from, size_from + size.len())
            },
        }
    }

    /// Whether this is the node that `ModifierTerm` leaves for the piece
    /// `modifier` where the term starts at `start`: one leaf behind the `+`.
    pub open spec fn is_modifier_term(self, start: int, modifier: Seq<char>) -> bool {
        &&& self.rule == Rule::ModifierTerm
        &&& self.start == start
        &&& self.end == start + 1 + modifier.len()
        &&& self.children@.len() == 1
        &&& self.children@[0].is_digits(start + 1, start + 1 + modifier.len())
    }

    /// Whether this is the parse tree of the text that the pieces `r` spell:
    /// the root spans the text and holds the dice term and, where there is a
    /// modifier, the modifier term behind it.
    pub open spec fn is_tree_of(self, r: Reading) -> bool {
        &&& self.rule == Rule::FullSpec
        &&& self.start == 0
        &&& self.end == r.text().len()
        &&& self.children@.len() == (if r.modifier is Some { 2nat } else { 1nat })
        &&& self.children@[0].is_dice_term(0, r.count, r.size)
        &&& r.modifier is Some ==> self.children@[1].is_modifier_term(
            r.dice_term().len() as int,
            r.modifier->0,
        )
    }

    /// The text under a node, where the node is a `Digits` that lies within
    /// `s`.
    pub open spec fn digits_piece(self, s: Seq<char>) -> Option<Seq<char>> {
        if self.rule == Rule::Digits && self.start <= self.end <= s.len() {
            Some(s.subrange(self.start as int, self.end as int))
        } else {
            None
        }
    }

    /// The count, if any, and the size under a node, where the node is a
    /// `DiceTerm` that holds one or two `Digits` within `s`.
    pub open spec fn dice_pieces(self, s: Seq<char>) -> Option<(Option<Seq<char>>, Seq<char>)> {
        if self.rule == Rule::DiceTerm && self.children@.len() == 1 {
            match self.children@[0].digits_piece(s) {
                Some(size) => Some((None, size)),
                None => None,
            }
        } else if self.rule == Rule::DiceTerm && self.children@.len() == 2 {
            match (self.children@[0].digits_piece(s), self.children@[1].digits_piece(s)) {
                (Some(count), Some(size)) => Some((Some(count), size)),
                _ => None,
            }
        } else {
            None
        }
    }

    /// The modifier under a node, where the node is a `ModifierTerm` that
    /// holds one `Digits` within `s`.
    pub open spec fn modifier_piece(self, s: Seq<char>) -> Option<Seq<char>> {
        if self.rule == Rule::ModifierTerm && self.children@.len() == 1 {
            self.children@[0].digits_piece(s)
        } else {
            None
        }
    }

    /// The pieces that a walk of the tree finds in `s`, where the tree has
    /// the shape of a `FullSpec`: a dice term, and at most a modifier term
    /// behind it.
    pub open spec fn pieces(self, s: Seq<char>) -> Option<Reading> {
        if self.rule == Rule::FullSpec && self.children@.len() == 1 {
            match self.children@[0].dice_pieces(s) {
                Some((count, size)) => Some(Reading { count, size, modifier: None }),
                None => None,
            }
        } else if self.rule == Rule::FullSpec && self.children@.len() == 2 {
            match (self.children@[0].dice_pieces(s), self.children@[1].modifier_piece(s)) {
                (Some((count, size)), Some(modifier)) => Some(
                    Reading { count, size, modifier: Some(modifier) },
                ),
                _ => None,
            }
        } else {
            None
        }
    }
}

/// What a walk of `tree` over the text `s` gives: invalid where the tree has
/// not the shape of a `FullSpec` within `s`, else what its pieces convert to.
pub open spec fn tree_outcome(tree: Node, s: Seq<char>) -> Result<Specification, Failure> {
    match tree.pieces(s) {
        None => Err(Failure::Invalid),
        Some(r) => r.outcome(),
    }
}

/// A walk of the parse tree of a text finds the pieces of that text.
pub proof fn lemma_tree_pieces(tree: Node, r: Reading)
    requires
        tree.is_tree_of(r),
    ensures
        tree.pieces(r.text()) == Some(r),
{
    let s = r.text();
    let size_from: int = match r.count {
        Some(count) => count.len() as int + 1,
        None => 0,
    };
    assert(s.subrange(size_from, size_from + r.size.len()) =~= r.size);
    if let Some(count) = r.count {
        assert(s.subrange(0, count.len() as int) =~= count);
    }
    if let Some(modifier) = r.modifier {
        let from = r.dice_term().len() as int + 1;
        assert(s.subrange(from, from + modifier.len()) =~= modifier);
    }
}

/// `Digits`: matches the run of digits that starts at `from`, which must
/// hold a digit at least.
fn match_digits(chars: &Vec<char>, from: usize) -> (r: Option<Node>)
    requires
        from <= chars@.len(),
    ensures
        r is Some <==> from < digits_end(chars@, from as int),
        r matches Some(node) ==> node.is_digits(from as int, digits_end(chars@, from as int)),
{
    let mut end: usize = from;
    while end < chars.len() && '0' <= chars[end] && chars[end] <= '9'
        invariant
            from <= end <= chars@.len(),
            digits_end(chars@, from as int) == digits_end(chars@, end as int),
        decreases chars@.len() - end,
    {
        end += 1;
    }
    if end == from {
        None
    } else {
        Some(Node { rule: Rule::Digits, start: from, end, children: Vec::new() })
    }
}

/// `DiceTerm := (Digits "d")? Digits`, from the start of the text. A run of
/// digits with a `d` behind it is the count, and a second run must follow;
/// without the `d` the run is the size.
fn match_dice_term(chars: &Vec<char>) -> (r: Option<Node>)
    ensures
        ({
            let s = chars@;
            let first = digits_end(s, 0);
            let counted = first < s.len() && s[first] == 'd';
            let end = if counted { digits_end(s, first + 1) } else { first };
            &&& r is Some <==> 0 < first && (counted ==> first + 1 < end)
            &&& r matches Some(node) ==> node.is_dice_term(
                0,
                if counted { Some(s.subrange(0, first)) } else { None },
                if counted { s.subrange(first + 1, end) } else { s.subrange(0, first) },
            )
        }),
{
    proof {
        lemma_digits_end(chars@, 0);
    }
    let first = match match_digits(chars, 0) {
        Some(node) => node,
        None => {
            return None;
        },
    };
    let mut children: Vec<Node> = Vec::new();
    if first.end < chars.len() && chars[first.end] == 'd' {
        proof {
            lemma_digits_end(chars@, first.end + 1);
        }
        let second = match match_digits(chars, first.end + 1) {
            Some(node) => node,
            None => {
                return None;
            },
        };
        let end = second.end;
        children.push(first);
        children.push(second);
        Some(Node { rule: Rule::DiceTerm, start: 0, end, children })
    } else {
        let end = first.end;
        children.push(first);
        Some(Node { rule: Rule::DiceTerm, start: 0, end, children })
    }
}

/// `ModifierTerm := "+" Digits`, at `from`.
fn match_modifier_term(chars: &Vec<char>, from: usize) -> (r: Option<Node>)
    requires
        from <= chars@.len(),
    ensures
        ({
            let s = chars@;
            let end = digits_end(s, from + 1);
            &&& r is Some <==> from < s.len() && s[from as int] == '+' && from + 1 < end
            &&& r matches Some(node) ==> node.is_modifier_term(
                from as int,
                s.subrange(from + 1, end),
            )
        }),
{
    if from < chars.len() && chars[from] == '+' {
        proof {
            lemma_digits_end(chars@, from + 1);
        }
        let digits = match match_digits(chars, from + 1) {
            Some(node) => node,
            None => {
                return None;
            },
        };
        let end = digits.end;
        let mut children: Vec<Node> = Vec::new();
        children.push(digits);
        Some(Node { rule: Rule::ModifierTerm, start: from, end, children })
    } else {
        None
    }
}

/// `FullSpec := DiceTerm ModifierTerm? END` on the characters of a text.
fn match_full_spec(chars: &Vec<char>) -> (r: Option<Node>)
    ensures
        r is Some <==> in_grammar(chars@),
        r matches Some(tree) ==> tree.is_tree_of(reading_of(chars@)->0),
{
    proof {
        lemma_reading_is_scan(chars@);
        lemma_digits_end(chars@, 0);
        if digits_end(chars@, 0) < chars@.len() {
            lemma_digits_end(chars@, digits_end(chars@, 0) + 1);
        }
    }
    let dice = match match_dice_term(chars) {
        Some(node) => node,
        None => {
            return None;
        },
    };
    let mut children: Vec<Node> = Vec::new();
    if dice.end == chars.len() {
        children.push(dice);
        return Some(Node { rule: Rule::FullSpec, start: 0, end: chars.len(), children });
    }
    proof {
        lemma_digits_end(chars@, dice.end + 1);
    }
    let modifier = match match_modifier_term(chars, dice.end) {
        Some(node) => node,
        None => {
            return None;
        },
    };
    if modifier.end != chars.len() {
        return None;
    }
    children.push(dice);
    children.push(modifier);
    Some(Node { rule: Rule::FullSpec, start: 0, end: chars.len(), children })
}

/// Matches `s` against the grammar and returns its parse tree. There is one
/// exactly where `s` is a text of the grammar.
pub fn parse_tree(s: &str) -> (r: Option<Node>)
    ensures
        r is Some <==> in_grammar(s@),
        r matches Some(tree) ==> tree.is_tree_of(reading_of(s@)->0),
{
    let chars = chars_of(s);
    match_full_spec(&chars)
}

/// The text under a `Digits` node; `len` is the length of `s`.
fn digits_piece<'a>(s: &'a str, len: usize, node: &Node) -> (r: Option<&'a str>)
    requires
        len == s@.len(),
    ensures
        piece_view(r) == node.digits_piece(s@),
{
    match node.rule {
        Rule::Digits => if node.start <= node.end && node.end <= len {
            Some(s.substring_char(node.start, node.end))
        } else {
            None
        },
        Rule::FullSpec | Rule::DiceTerm | Rule::ModifierTerm => None,
    }
}

/// The count, if any, and the size under a `DiceTerm` node.
fn dice_pieces<'a>(s: &'a str, len: usize, node: &Node) -> (r: Option<(Option<&'a str>, &'a str)>)
    requires
        len == s@.len(),
    ensures
        r is Some <==> node.dice_pieces(s@) is Some,
        r matches Some((count, size)) ==> node.dice_pieces(s@) == Some((piece_view(count), size@)),
{
    match node.rule {
        Rule::DiceTerm => if node.children.len() == 1 {
            match digits_piece(s, len, &node.children[0]) {
                Some(size) => Some((None, size)),
                None => None,
            }
        } else if node.children.len() == 2 {
            let count = digits_piece(s, len, &node.children[0]);
            let size = digits_piece(s, len, &node.children[1]);
            match (count, size) {
                (Some(count), Some(size)) => Some((Some(count), size)),
                _ => None,
            }
        } else {
            None
        },
        Rule::FullSpec | Rule::ModifierTerm | Rule::Digits => None,
    }
}

/// The modifier under a `ModifierTerm` node.
fn modifier_piece<'a>(s: &'a str, len: usize, node: &Node) -> (r: Option<&'a str>)
    requires
        len == s@.len(),
    ensures
        piece_view(r) == node.modifier_piece(s@),
{
    match node.rule {
        Rule::ModifierTerm => if node.children.len() == 1 {
            digits_piece(s, len, &node.children[0])
        } else {
            None
        },
        Rule::FullSpec | Rule::DiceTerm | Rule::Digits => None,
    }
}

/// Walks a tree over the text `s` and returns the pieces that it marks, or
/// nothing where the tree has not the shape of a `FullSpec` within `s`.
pub fn tree_pieces<'a>(s: &'a str, tree: &Node) -> (r: Option<Pieces<'a>>)
    ensures
        r is Some <==> tree.pieces(s@) is Some,
        r matches Some(pieces) ==> tree.pieces(s@) == Some(pieces@),
{
    let len = s.unicode_len();
    match tree.rule {
        Rule::FullSpec => if tree.children.len() == 1 {
            match dice_pieces(s, len, &tree.children[0]) {
                Some((count, size)) => Some(Pieces { count, size, modifier: None }),
                None => None,
            }
        } else if tree.children.len() == 2 {
            let dice = dice_pieces(s, len, &tree.children[0]);
            let modifier = modifier_piece(s, len, &tree.children[1]);
            match (dice, modifier) {
                (Some((count, size)), Some(modifier)) => Some(
                    Pieces { count, size, modifier: Some(modifier) },
                ),
                _ => None,
            }
        } else {
            None
        },
        Rule::DiceTerm | Rule::ModifierTerm | Rule::Digits => None,
    }
}

/// Dice notation as read off the parse tree of the text.
#[derive(Copy, Clone, Debug, Eq, PartialEq)]
pub struct PestSpecification {
    pub count: u8,
    pub size: u8,
    pub modifier: u8,
}

impl View for PestSpecification {
    type V = Specification;

    open spec fn view(&self) -> Specification {
        Specification {
            count: self.count as nat,
            size: self.size as nat,
            modifier: self.modifier as nat,
        }
    }
}

impl PestSpecification {
    /// Reads the pieces off a tree over the text `s` and converts them. A
    /// tree that has not the shape of a `FullSpec` within `s` is invalid.
    pub fn from_tree(s: &str, tree: &Node) -> (r: Result<Self, ParseSpecificationError>)
        ensures
            outcome(r) == tree_outcome(*tree, s@),
    {
        let pieces = match tree_pieces(s, tree) {
            Some(pieces) => pieces,
            None => {
                return Err(ParseSpecificationError::Invalid);
            },
        };
        match pieces.convert() {
            Ok((count, size, modifier)) => Ok(PestSpecification { count, size, modifier }),
            Err(e) => Err(e),
        }
    }
}

impl FromStr for PestSpecification {
    type Err = ParseSpecificationError;

    /// Reads dice notation by matching the whole text against the grammar
    /// and walking the parse tree.
    fn from_str(s: &str) -> (r: Result<Self, Self::Err>)
        ensures
            outcome(r) == grammar_outcome(s@),
    {
        match parse_tree(s) {
            None => Err(ParseSpecificationError::Invalid),
            Some(tree) => {
                proof {
                    lemma_tree_pieces(tree, reading_of(s@)->0);
                    lemma_outcome_is_numbers(reading_of(s@)->0);
                }
                PestSpecification::from_tree(s, &tree)
            },
        }
    }
}

} // verus!
