//! The rule for words: keywords and identifiers.

use crate::interfaces::lexer::lexer_errors::LexicalError;
use crate::interfaces::lexer::token::{KindView, Literal, LiteralView, Token, TokenKind};
use crate::intern::intern_string;
use crate::lexer::config::{ConfigView, LexerConfig};
use crate::lexer::lexer_state::LexerState;
use crate::lexer::scan::{
    lemma_advance, lemma_first, lemma_run_len_maximal, rule_post, run_len, take_run,
    token_to_here, CharClass, Outcome,
};
use crate::utils::chars::{is_word_start, to_text, word_start};
use vstd::prelude::*;

verus! {

/// The word at the start of `rest`: its first character and the longest run of word
/// characters after it.
pub open spec fn word_len(rest: Seq<char>) -> nat
    recommends
        rest.len() > 0,
{
    1 + run_len(rest.drop_first(), CharClass::WordPart)
}

/// Input that starts a word is read up to the end of the word: as a keyword when the
/// word is reserved, as an identifier otherwise. Anything else is declined.
pub open spec fn keyword_outcome(config: ConfigView, rest: Seq<char>) -> Outcome {
    if rest.len() > 0 && is_word_start(rest[0]) {
        let word = rest.take(word_len(rest) as int);
        Outcome::Accept {
            taken: word_len(rest),
            kind: if config.keywords.contains(word) {
                KindView::Keyword(word)
            } else {
                KindView::Literal(LiteralView::Identifier(word))
            },
        }
    } else {
        Outcome::Decline
    }
}

/// Reads a word, interns it, and looks it up among the reserved words.
pub fn default_keyword(c: char, state: &mut LexerState, config: &LexerConfig) -> (result: Result<
    Option<Token>,
    LexicalError,
>)
    requires
        old(state).wf(),
        old(state).rest().len() > 0,
        old(state).rest()[0] == c,
    ensures
        rule_post(
            *old(state),
            *final(state),
            keyword_outcome(config@, old(state).rest()),
            result,
        ),
{
    if !word_start(c) {
        return Ok(None);
    }
    let start = state.position();
    let ghost rest = state.rest();
    let mut word: Vec<char> = Vec::new();
    word.push(c);
    state.next();
    take_run(state, CharClass::WordPart, &mut word);
    proof {
        let n = run_len(rest.drop_first(), CharClass::WordPart) as int;
        lemma_first(rest);
        lemma_run_len_maximal(rest.drop_first(), CharClass::WordPart);
        lemma_advance(rest, 1, n);
        assert(rest.take(1) =~= seq![c]);
        assert(word@ =~= rest.take(1 + n));
    }
    let handle = intern_string(to_text(word.as_slice()));
    let kind = if config.is_keyword(handle) {
        TokenKind::Keyword(handle)
    } else {
        TokenKind::Literal(Literal::Identifier(handle))
    };
    Ok(Some(token_to_here(start, state, kind)))
}

} // verus!
