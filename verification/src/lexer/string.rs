//! The rule for quoted strings.

use crate::interfaces::lexer::lexer_errors::{Fault, LexicalError};
use crate::interfaces::lexer::token::{KindView, Literal, LiteralView, Token, TokenKind};
use crate::intern::intern_string;
use crate::lexer::config::{ConfigView, LexerConfig};
use crate::lexer::lexer_state::LexerState;
use crate::lexer::scan::{
    error_to_here, lemma_advance, lemma_first, lemma_run_len_maximal, rule_post, run_len,
    take_run, token_to_here, CharClass, Outcome,
};
use crate::utils::chars::to_text;
use vstd::prelude::*;

verus! {

/// Number of characters between the opening quote at the start of `rest` and the
/// next quote, or the end of the input.
pub open spec fn body_len(quote: char, rest: Seq<char>) -> nat
    recommends
        rest.len() > 0,
{
    run_len(rest.drop_first(), CharClass::Except(quote))
}

/// Input that starts with the quote is read up to the next quote; the token carries
/// what stands between the two, as it is. Where no second quote follows, all that is
/// left of the input is in error. Anything else is declined.
pub open spec fn string_outcome(config: ConfigView, rest: Seq<char>) -> Outcome {
    if rest.len() > 0 && rest[0] == config.quote {
        let body = body_len(config.quote, rest);
        if body + 1 < rest.len() {
            Outcome::Accept {
                taken: body + 2,
                kind: KindView::Literal(
                    LiteralView::StringLiteral(rest.subrange(1, body as int + 1)),
                ),
            }
        } else {
            Outcome::Fail { taken: rest.len(), fault: Fault::UnterminatedString }
        }
    } else {
        Outcome::Decline
    }
}

/// Reads a quoted string and interns its body.
pub fn default_string(c: char, state: &mut LexerState, config: &LexerConfig) -> (result: Result<
    Option<Token>,
    LexicalError,
>)
    requires
        old(state).wf(),
        old(state).rest().len() > 0,
        old(state).rest()[0] == c,
    ensures
        rule_post(
            *old(state),
            *final(state),
            string_outcome(config@, old(state).rest()),
            result,
        ),
{
    let quote = config.quote();
    if c != quote {
        return Ok(None);
    }
    let start = state.position();
    let ghost rest = state.rest();
    let ghost body = body_len(quote, rest) as int;
    let mut text: Vec<char> = Vec::new();
    state.next();
    take_run(state, CharClass::Except(quote), &mut text);
    proof {
        lemma_first(rest);
        lemma_run_len_maximal(rest.drop_first(), CharClass::Except(quote));
        lemma_advance(rest, 1, body);
        assert(text@ =~= rest.subrange(1, body + 1));
    }
    match state.next() {
        Some(_) => {
            proof {
                lemma_first(rest.skip(1 + body));
                lemma_advance(rest, 1 + body, 1);
            }
            let handle = intern_string(to_text(text.as_slice()));
            Ok(Some(token_to_here(start, state, TokenKind::Literal(Literal::StringLiteral(handle)))))
        },
        None => {
            proof {
                assert(rest.take(rest.len() as int) =~= rest.take(1 + body));
            }
            Err(error_to_here(start, state, Fault::UnterminatedString))
        },
    }
}

} // verus!
