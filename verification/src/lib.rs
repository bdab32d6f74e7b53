//! Parsers for short dice notation such as `2d6+3`, `17` or `1d20`.
//!
//! Three parsers read the same small grammar in three different ways:
//!
//! - [`SplitSpecification`] trims the text and splits it at `+` and at `d`;
//! - [`RegexSpecification`] matches it against one regular expression;
//! - [`PestSpecification`] matches it rule by rule, builds a parse tree and
//!   reads the pieces off the tree.
//!
//! Each one is built with `str::parse` and holds the fields `count`, `size`
//! and `modifier`, every one of them a `u8`. A text is turned down with a
//! [`ParseSpecificationError`]: `Invalid` where it has not the shape of dice
//! notation, `ParseInt` where a piece of it is no number between 0 and 255.
//!
//! The contracts are stated over sequences of characters. [`grammar`] says
//! which texts are dice notation and what they stand for, [`laws`] what the
//! three parsers have in common.

pub mod error;
pub mod grammar;
pub mod laws;
pub mod model;
pub mod number;
pub mod pattern;
pub mod peg;
pub mod split;
pub mod text;

pub use error::ParseSpecificationError;
pub use pattern::RegexSpecification;
pub use peg::PestSpecification;
pub use split::SplitSpecification;
