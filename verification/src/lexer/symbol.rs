//! The rule for one- and two-character symbols.

use crate::interfaces::lexer::lexer_errors::LexicalError;
use crate::interfaces::lexer::token::{KindView, Token, TokenKind};
use crate::lexer::config::{either_lookup, single_lookup, ConfigView, LexerConfig};
use crate::lexer::lexer_state::LexerState;
use crate::lexer::scan::{lemma_advance, lemma_first, rule_post, token_to_here, Outcome};
use vstd::prelude::*;

verus! {

/// A character that opens a pair is read together with the character after it when
/// that is the pair's second, and alone otherwise. A character of the single table
/// is read alone. Anything else is declined.
pub open spec fn symbol_outcome(config: ConfigView, rest: Seq<char>) -> Outcome {
    if rest.len() == 0 {
        Outcome::Decline
    } else if let Some(pair) = either_lookup(config.either, rest[0]) {
        if rest.len() > 1 && rest[1] == pair.second {
            Outcome::Accept { taken: 2, kind: KindView::Symbol(pair.combined) }
        } else {
            Outcome::Accept { taken: 1, kind: KindView::Symbol(pair.fallback) }
        }
    } else if let Some(symbol) = single_lookup(config.single, rest[0]) {
        Outcome::Accept { taken: 1, kind: KindView::Symbol(symbol) }
    } else {
        Outcome::Decline
    }
}

/// Reads a symbol, looking one character ahead and no further.
pub fn default_symbol(c: char, state: &mut LexerState, config: &LexerConfig) -> (result: Result<
    Option<Token>,
    LexicalError,
>)
    requires
        old(state).wf(),
        old(state).rest().len() > 0,
        old(state).rest()[0] == c,
    ensures
        rule_post(
            *old(state),
            *final(state),
            symbol_outcome(config@, old(state).rest()),
            result,
        ),
{
    let start = state.position();
    let ghost rest = state.rest();
    proof {
        lemma_first(rest);
    }
    let kind = match config.either_symbol(c) {
        Some(pair) => {
            state.next();
            let follows: bool = match state.peek() {
                Some(next) => *next == pair.second,
                None => false,
            };
            if follows {
                proof {
                    lemma_first(rest.skip(1));
                    lemma_advance(rest, 1, 1);
                }
                state.next();
                TokenKind::Symbol(pair.combined)
            } else {
                TokenKind::Symbol(pair.fallback)
            }
        },
        None => match config.single_symbol(c) {
            Some(symbol) => {
                state.next();
                TokenKind::Symbol(symbol)
            },
            None => {
                return Ok(None);
            },
        },
    };
    Ok(Some(token_to_here(start, state, kind)))
}

} // verus!
