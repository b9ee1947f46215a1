//! Tokens and the scanner interface.

use crate::interfaces::error::Error;
use vstd::prelude::*;

/// The diagnostics of a scanner.
pub mod lexer_errors;
/// The output vocabulary of a scanner.
pub mod token;

verus! {

/// Marks the diagnostics that a scanner reports.
pub trait LexerError: Error {

}

} // verus!
