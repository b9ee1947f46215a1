//! What a parser can find wrong with a token.

use crate::interfaces::lexer::token::Token;
use vstd::prelude::*;

verus! {

/// An error found while the tokens are parsed.
#[derive(Debug)]
pub enum ParseError {
    /// A token that the grammar does not allow where it stands.
    UnexpectedToken(Token),
    /// A token that was left over.
    UnusedToken(Token),
}

} // verus!
