//! What a rule can answer, and how a run of like characters is consumed.

use crate::interfaces::lexer::lexer_errors::{Fault, LexicalError, LexicalErrorView};
use crate::interfaces::lexer::token::{KindView, Token, TokenKind, TokenView};
use crate::lexer::lexer_state::LexerState;
use crate::utils::chars::{
    decimal_digit, is_digit, is_word_part, lemma_text_width_concat, lemma_text_width_push,
    text_width, utf8_width, word_part,
};
use crate::utils::span::{BytePos, Span};
use vstd::prelude::*;

verus! {

/// The answer of a rule to the input in front of it.
pub enum Outcome {
    /// The rule does not apply.
    Decline,
    /// The rule reads the first `taken` characters as one token of kind `kind`.
    Accept { taken: nat, kind: KindView },
    /// The rule applies, but the first `taken` characters are in error.
    Fail { taken: nat, fault: Fault },
}

/// How the result of a rule and the cursor it leaves behind relate to the outcome
/// that the rule's model gives for the cursor it was handed.
///
/// A rule that declines leaves the cursor as it was. A rule that accepts returns one
/// token that spans exactly what it consumed. A rule that fails reports an error that
/// is not recoverable and spans the text in error.
pub open spec fn rule_post(
    before: LexerState,
    after: LexerState,
    outcome: Outcome,
    result: Result<Option<Token>, LexicalError>,
) -> bool {
    match outcome {
        Outcome::Decline => result == Ok::<Option<Token>, LexicalError>(None) && after == before,
        Outcome::Accept { taken, kind } => {
            &&& result matches Ok(Some(token))
            &&& token@ == (TokenView {
                start: before.pos(),
                end: before.pos() + text_width(before.rest().take(taken as int)),
                path: before.source(),
                kind,
            })
            &&& after.wf()
            &&& after.source() == before.source()
            &&& after.rest() == before.rest().skip(taken as int)
            &&& after.pos() == before.pos() + text_width(before.rest().take(taken as int))
        },
        Outcome::Fail { taken, fault } => {
            &&& result matches Err(error)
            &&& error@ == (LexicalErrorView {
                fault,
                start: before.pos(),
                end: before.pos() + text_width(before.rest().take(taken as int)),
                path: before.source(),
                recoverable: false,
            })
        },
    }
}

/// Reading `a` characters and then `b` more is reading `a + b` characters.
pub proof fn lemma_advance(rest: Seq<char>, a: int, b: int)
    requires
        0 <= a,
        0 <= b,
        a + b <= rest.len(),
    ensures
        rest.take(a + b) == rest.take(a) + rest.skip(a).take(b),
        rest.skip(a).skip(b) == rest.skip(a + b),
        text_width(rest.take(a + b)) == text_width(rest.take(a)) + text_width(
            rest.skip(a).take(b),
        ),
{
    assert(rest.take(a + b) =~= rest.take(a) + rest.skip(a).take(b));
    assert(rest.skip(a).skip(b) =~= rest.skip(a + b));
    lemma_text_width_concat(rest.take(a), rest.skip(a).take(b));
}

/// Reading the first character moves the position by its width.
pub proof fn lemma_first(rest: Seq<char>)
    requires
        rest.len() > 0,
    ensures
        rest.drop_first() == rest.skip(1),
        text_width(rest.take(1)) == utf8_width(rest[0]),
        text_width(rest.take(0)) == 0,
{
    assert(rest.drop_first() =~= rest.skip(1));
    assert(rest.take(1) =~= Seq::<char>::empty().push(rest[0]));
    lemma_text_width_push(Seq::<char>::empty(), rest[0]);
    assert(rest.take(0) =~= Seq::<char>::empty());
}

/// The token of kind `kind` that reaches from `start` to where `state` stands.
pub fn token_to_here(start: BytePos, state: &LexerState, kind: TokenKind) -> (token: Token)
    ensures
        token@ == (TokenView {
            start: start@,
            end: state.pos(),
            path: state.source(),
            kind: kind@,
        }),
{
    Token::new(Span { start, end: state.position(), path: state.path() }, kind)
}

/// The error `fault` that reaches from `start` to where `state` stands.
pub fn error_to_here(start: BytePos, state: &LexerState, fault: Fault) -> (error: LexicalError)
    ensures
        error@ == (LexicalErrorView {
            fault,
            start: start@,
            end: state.pos(),
            path: state.source(),
            recoverable: false,
        }),
{
    LexicalError::new(fault, Span { start, end: state.position(), path: state.path() }, false)
}

/// A set of characters that a rule consumes a run of.
#[derive(Debug, Clone, Copy, PartialEq, Eq, Structural)]
pub enum CharClass {
    /// The ten decimal digits.
    Digit,
    /// What can continue a word.
    WordPart,
    /// Every character but the one given.
    Except(char),
}

impl CharClass {
    /// Whether `c` belongs to the class.
    pub open spec fn holds(self, c: char) -> bool {
        match self {
            CharClass::Digit => is_digit(c),
            CharClass::WordPart => is_word_part(c),
            CharClass::Except(stop) => c != stop,
        }
    }

    /// Whether `c` belongs to the class.
    pub fn has(&self, c: char) -> (has: bool)
        ensures
            has == self.holds(c),
    {
        match self {
            CharClass::Digit => decimal_digit(c),
            CharClass::WordPart => word_part(c),
            CharClass::Except(stop) => c != *stop,
        }
    }
}

/// Length of the longest prefix of `text` made of characters of `class`.
pub open spec fn run_len(text: Seq<char>, class: CharClass) -> nat
    decreases text.len(),
{
    if text.len() > 0 && class.holds(text[0]) {
        1 + run_len(text.drop_first(), class)
    } else {
        0
    }
}

/// A run is a prefix, lies in the class, and cannot be extended.
pub proof fn lemma_run_len_maximal(text: Seq<char>, class: CharClass)
    ensures
        run_len(text, class) <= text.len(),
        forall|j: int| 0 <= j < run_len(text, class) ==> class.holds(#[trigger] text[j]),
        run_len(text, class) < text.len() ==> !class.holds(text[run_len(text, class) as int]),
    decreases text.len(),
{
    if text.len() > 0 && class.holds(text[0]) {
        let tail = text.drop_first();
        lemma_run_len_maximal(tail, class);
        assert forall|j: int| 0 <= j < run_len(text, class) implies class.holds(
            #[trigger] text[j],
        ) by {
            if j > 0 {
                assert(text[j] == tail[j - 1]);
            }
        }
        if run_len(text, class) < text.len() {
            assert(text[run_len(text, class) as int] == tail[run_len(tail, class) as int]);
        }
    }
}

/// The only prefix that lies in the class and cannot be extended is the run.
pub proof fn lemma_run_len_unique(text: Seq<char>, class: CharClass, n: nat)
    requires
        n <= text.len(),
        forall|j: int| 0 <= j < n ==> class.holds(#[trigger] text[j]),
        n < text.len() ==> !class.holds(text[n as int]),
    ensures
        run_len(text, class) == n,
    decreases n,
{
    if n > 0 {
        let tail = text.drop_first();
        assert(class.holds(text[0]));
        assert forall|j: int| 0 <= j < n - 1 implies class.holds(#[trigger] tail[j]) by {
            assert(tail[j] == text[j + 1]);
        }
        if n - 1 < tail.len() {
            assert(tail[n - 1] == text[n as int]);
        }
        lemma_run_len_unique(tail, class, (n - 1) as nat);
    }
}

/// Consumes the longest run of characters of `class` and appends it to `taken`.
pub fn take_run(state: &mut LexerState, class: CharClass, taken: &mut Vec<char>)
    requires
        old(state).wf(),
    ensures
        final(state).wf(),
        final(state).source() == old(state).source(),
        ({
            let n = run_len(old(state).rest(), class) as int;
            &&& final(state).rest() == old(state).rest().skip(n)
            &&& final(state).pos() == old(state).pos() + text_width(old(state).rest().take(n))
            &&& final(taken)@ == old(taken)@ + old(state).rest().take(n)
        }),
{
    let ghost rest = state.rest();
    let ghost start = state.pos();
    let ghost mut n: int = 0;
    assert(rest.skip(0) =~= rest);
    assert(taken@ + rest.take(0) =~= taken@);
    loop
        invariant
            state.wf(),
            state.source() == old(state).source(),
            0 <= n <= rest.len(),
            state.rest() == rest.skip(n),
            state.pos() == start + text_width(rest.take(n)),
            taken@ == old(taken)@ + rest.take(n),
            forall|j: int| 0 <= j < n ==> class.holds(#[trigger] rest[j]),
        ensures
            state.wf(),
            state.source() == old(state).source(),
            n == run_len(rest, class),
            state.rest() == rest.skip(n),
            state.pos() == start + text_width(rest.take(n)),
            taken@ == old(taken)@ + rest.take(n),
        decreases rest.len() - n,
    {
        let more: bool = match state.peek() {
            Some(c) => class.has(*c),
            None => false,
        };
        if !more {
            proof {
                lemma_run_len_unique(rest, class, n as nat);
            }
            break;
        }
        let c = state.next();
        proof {
            assert(c == Some(rest[n]));
            lemma_text_width_push(rest.take(n), rest[n]);
            assert(rest.take(n).push(rest[n]) =~= rest.take(n + 1));
            assert(rest.skip(n).drop_first() =~= rest.skip(n + 1));
            assert(old(taken)@ + rest.take(n + 1) =~= (old(taken)@ + rest.take(n)).push(rest[n]));
            n = n + 1;
        }
        match c {
            Some(c) => taken.push(c),
            None => {},
        }
    }
}

} // verus!
