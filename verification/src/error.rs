//! The error that all three parsers return.

use crate::model::Failure;
use std::num::ParseIntError;
use vstd::prelude::*;
use vstd::std_specs::convert::FromSpecImpl;

verus! {

/// Why a text could not be read as dice notation.
#[derive(Debug)]
pub enum ParseSpecificationError {
    /// The text does not have the shape of dice notation.
    Invalid,
    /// A piece of the text stands where a number belongs, and is not a number
    /// between 0 and 255. The error of the conversion is kept as the cause.
    ParseInt(ParseIntError),
}

impl View for ParseSpecificationError {
    type V = Failure;

    open spec fn view(&self) -> Failure {
        match self {
            ParseSpecificationError::Invalid => Failure::Invalid,
            ParseSpecificationError::ParseInt(_) => Failure::NumericFormat,
        }
    }
}

impl From<ParseIntError> for ParseSpecificationError {
    fn from(e: ParseIntError) -> (r: Self) {
        ParseSpecificationError::ParseInt(e)
    }
}

impl FromSpecImpl<ParseIntError> for ParseSpecificationError {
    open spec fn obeys_from_spec() -> bool {
        true
    }

    open spec fn from_spec(e: ParseIntError) -> Self {
        ParseSpecificationError::ParseInt(e)
    }
}

/// What a parser's result says, with the parsed value and the error each
/// taken by its view.
pub open spec fn outcome<T: View<V = crate::model::Specification>>(
    r: Result<T, ParseSpecificationError>,
) -> Result<crate::model::Specification, Failure> {
    match r {
        Ok(v) => Ok(v@),
        Err(e) => Err(e@),
    }
}

} // verus!
