//! The mathematical values that the parsers' contracts speak of.

use vstd::prelude::*;

verus! {

/// What a piece of dice notation stands for: roll `count` dice with `size`
/// sides each and add `modifier`.
pub struct Specification {
    pub count: nat,
    pub size: nat,
    pub modifier: nat,
}

/// Why a text was turned down.
pub enum Failure {
    /// The text does not have the shape of dice notation.
    Invalid,
    /// A piece that should be a number is not one that fits in eight bits.
    NumericFormat,
}

} // verus!
