//! The interface between the scanner and the parser that consumes its tokens.

use crate::interfaces::error::Error;
use vstd::prelude::*;

/// The operators of expressions.
pub mod nodes;
/// What a parser can find wrong with a token.
pub mod parse_errors;

verus! {

/// Marks the diagnostics that a parser reports.
pub trait ParseError: Error {

}

} // verus!
