//! The rule for blanks.

use crate::interfaces::lexer::lexer_errors::LexicalError;
use crate::interfaces::lexer::token::{KindView, Token, TokenKind};
use crate::lexer::lexer_state::LexerState;
use crate::lexer::scan::{lemma_first, rule_post, token_to_here, Outcome};
use vstd::prelude::*;

verus! {

/// A space, a tab, a line feed or a carriage return is one token; anything else is
/// declined.
pub open spec fn whitespace_outcome(rest: Seq<char>) -> Outcome {
    if rest.len() == 0 {
        Outcome::Decline
    } else if rest[0] == ' ' {
        Outcome::Accept { taken: 1, kind: KindView::WhiteSpace }
    } else if rest[0] == '\t' {
        Outcome::Accept { taken: 1, kind: KindView::Tabulation }
    } else if rest[0] == '\n' {
        Outcome::Accept { taken: 1, kind: KindView::NewLine }
    } else if rest[0] == '\r' {
        Outcome::Accept { taken: 1, kind: KindView::CarriageReturn }
    } else {
        Outcome::Decline
    }
}

/// Reads one blank. Whether the token is kept is for the driver to decide.
pub fn default_whitespace(c: char, state: &mut LexerState) -> (result: Result<
    Option<Token>,
    LexicalError,
>)
    requires
        old(state).wf(),
        old(state).rest().len() > 0,
        old(state).rest()[0] == c,
    ensures
        rule_post(*old(state), *final(state), whitespace_outcome(old(state).rest()), result),
{
    let start = state.position();
    let kind = match c {
        ' ' => TokenKind::WhiteSpace,
        '\t' => TokenKind::Tabulation,
        '\n' => TokenKind::NewLine,
        '\r' => TokenKind::CarriageReturn,
        _ => {
            return Ok(None);
        },
    };
    proof {
        lemma_first(state.rest());
    }
    state.next();
    Ok(Some(token_to_here(start, state, kind)))
}

} // verus!
