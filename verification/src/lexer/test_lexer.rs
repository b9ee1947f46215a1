//! A second cursor design: one shared cursor that looks ahead and commits on demand.
//!
//! The position of this cursor counts characters. It stands on the character that
//! was read last; `next` looks at the one behind it and `keep` moves onto it.

use crate::lexer::number::number_len;
use crate::lexer::scan::{lemma_run_len_maximal, lemma_run_len_unique, run_len, CharClass};
use crate::utils::chars::{decimal_digit, is_digit, to_text};
use crate::utils::span::BytePos;
use vstd::prelude::*;

verus! {

/// A cursor over a slice of characters, with a step that can be taken back.
#[derive(Clone, Copy)]
pub struct LexerState<'lex> {
    /// Index of the character that the cursor stands on.
    pub current_pos: BytePos,
    /// The characters to read.
    pub it: &'lex [char],
    /// Whether a character was looked at and not yet stepped onto.
    borrow: bool,
}

impl<'lex> LexerState<'lex> {
    /// Index of the character that the cursor stands on.
    pub closed spec fn pos(&self) -> nat {
        self.current_pos@
    }

    /// The characters to read.
    pub closed spec fn chars(&self) -> Seq<char> {
        self.it@
    }

    /// Whether a character was looked at and not yet stepped onto.
    pub closed spec fn pending(&self) -> bool {
        self.borrow
    }

    /// The character behind the one that the cursor stands on.
    pub open spec fn ahead(&self) -> Option<char> {
        if self.pos() + 1 < self.chars().len() {
            Some(self.chars()[self.pos() as int + 1])
        } else {
            None
        }
    }

    /// A cursor that stands on the character at `current_pos`.
    pub fn new(current_pos: BytePos, it: &'lex [char], borrow: bool) -> (state: Self)
        ensures
            state.pos() == current_pos@,
            state.chars() == it@,
            state.pending() == borrow,
    {
        Self { current_pos, it, borrow }
    }

    /// Looks at the next character and remembers that it was looked at. The cursor
    /// stays where it is until `keep` is called.
    pub fn next(&mut self) -> (c: Option<char>)
        ensures
            c == old(self).ahead(),
            final(self).pos() == old(self).pos(),
            final(self).chars() == old(self).chars(),
            final(self).pending() == (old(self).pending() || c is Some),
            c is Some ==> final(self).pos() < usize::MAX,
    {
        let index: usize = self.current_pos.0;
        let len: usize = self.it.len();
        if index < usize::MAX && index + 1 < len {
            let c: char = self.it[index + 1];
            self.borrow = true;
            Some(c)
        } else {
            None
        }
    }

    /// The next character, which stays in place.
    pub fn peek(&self) -> (c: Option<&char>)
        ensures
            self.ahead() is None ==> c is None,
            self.ahead() matches Some(next) ==> c == Some(&next),
            c is Some ==> self.pos() < usize::MAX,
    {
        let index: usize = self.current_pos.0;
        let len: usize = self.it.len();
        if index < usize::MAX && index + 1 < len {
            let c: &char = &self.it[index + 1];
            Some(c)
        } else {
            None
        }
    }

    /// Steps onto the character that was looked at, if one was.
    pub fn keep(&mut self)
        requires
            old(self).pending() ==> old(self).pos() < usize::MAX,
        ensures
            final(self).chars() == old(self).chars(),
            !final(self).pending(),
            final(self).pos() == if old(self).pending() {
                old(self).pos() + 1
            } else {
                old(self).pos()
            },
    {
        if self.borrow {
            self.borrow = false;
            self.current_pos = BytePos(self.current_pos.0 + 1);
        }
    }

    /// Index of the character that the cursor stands on.
    pub fn position(&self) -> (pos: BytePos)
        ensures
            pos@ == self.pos(),
    {
        self.current_pos
    }
}

/// Steps over the digits behind the cursor and appends them to `text`.
fn keep_digits(state: &mut LexerState, text: &mut Vec<char>)
    requires
        !old(state).pending(),
        old(state).pos() < old(state).chars().len(),
    ensures
        final(state).chars() == old(state).chars(),
        ({
            let from = old(state).pos() as int + 1;
            let n = run_len(old(state).chars().skip(from), CharClass::Digit) as int;
            &&& final(state).pos() == old(state).pos() + n
            &&& final(text)@ == old(text)@ + old(state).chars().subrange(from, from + n)
        }),
        final(state).pending() == final(state).ahead() is Some,
{
    let ghost chars = state.chars();
    let ghost from = state.pos() as int + 1;
    let ghost tail = chars.skip(from);
    let ghost mut n: int = 0;
    assert(old(text)@ + chars.subrange(from, from) =~= old(text)@);
    loop
        invariant_except_break
            !state.pending(),
        invariant
            chars == state.chars(),
            chars == old(state).chars(),
            tail == chars.skip(from),
            from == old(state).pos() + 1,
            from <= chars.len(),
            0 <= n <= tail.len(),
            state.pos() == old(state).pos() + n,
            text@ == old(text)@ + chars.subrange(from, from + n),
            forall|j: int| 0 <= j < n ==> is_digit(#[trigger] tail[j]),
        ensures
            chars == state.chars(),
            n == run_len(tail, CharClass::Digit),
            state.pos() == old(state).pos() + n,
            text@ == old(text)@ + chars.subrange(from, from + n),
            state.pending() == state.ahead() is Some,
        decreases tail.len() - n,
    {
        match state.next() {
            Some(c) => {
                assert(c == tail[n]);
                if decimal_digit(c) {
                    state.keep();
                    text.push(c);
                    proof {
                        assert(old(text)@ + chars.subrange(from, from + n + 1) =~= (old(text)@
                            + chars.subrange(from, from + n)).push(c));
                        n = n + 1;
                    }
                } else {
                    proof {
                        lemma_run_len_unique(tail, CharClass::Digit, n as nat);
                    }
                    break;
                }
            },
            None => {
                proof {
                    lemma_run_len_unique(tail, CharClass::Digit, n as nat);
                }
                break;
            },
        }
    }
}

/// The text of the number that starts at index `pos` of `chars`: its digits, and
/// where a point and a digit follow them, the point and the digits behind it.
pub open spec fn number_text(chars: Seq<char>, pos: nat) -> Option<Seq<char>> {
    if pos < chars.len() && is_digit(chars[pos as int]) {
        Some(chars.subrange(pos as int, pos as int + number_len(chars.skip(pos as int))))
    } else {
        None
    }
}

/// Reads a number with the cursor standing on its first character `c`, and returns
/// its text. The cursor ends on the last character of the number, with the character
/// behind it looked at if there is one.
pub fn number(c: char, state: &mut LexerState) -> (text: Option<String>)
    requires
        !old(state).pending(),
        old(state).pos() < old(state).chars().len(),
        old(state).chars()[old(state).pos() as int] == c,
    ensures
        final(state).chars() == old(state).chars(),
        match number_text(old(state).chars(), old(state).pos()) {
            Some(expected) => {
                &&& text matches Some(found)
                &&& found@ == expected
                &&& final(state).pos() + 1 == old(state).pos() + expected.len()
                &&& final(state).pending() == final(state).ahead() is Some
            },
            None => text is None && *final(state) == *old(state),
        },
{
    if !decimal_digit(c) {
        return None;
    }
    let ghost chars = state.chars();
    let ghost pos = state.pos() as int;
    let ghost rest = chars.skip(pos);
    let ghost whole = run_len(rest, CharClass::Digit) as int;
    let mut n: Vec<char> = Vec::new();
    n.push(c);
    state.keep();
    keep_digits(state, &mut n);
    proof {
        lemma_run_len_maximal(rest, CharClass::Digit);
        lemma_run_len_maximal(rest.drop_first(), CharClass::Digit);
        assert(rest.drop_first() =~= chars.skip(pos + 1));
        assert(whole == 1 + run_len(chars.skip(pos + 1), CharClass::Digit));
        assert(n@ =~= chars.subrange(pos, pos + whole));
        if whole < rest.len() {
            assert(rest[whole] == chars[pos + whole]);
        }
        if whole + 1 < rest.len() {
            assert(rest[whole + 1] == chars[pos + whole + 1]);
        }
    }
    let mut trial = *state;
    let point: bool = match trial.next() {
        Some(next) => next == '.',
        None => false,
    };
    if point {
        trial.keep();
        let digit_follows: bool = match trial.peek() {
            Some(next) => decimal_digit(*next),
            None => false,
        };
        if digit_follows {
            n.push('.');
            *state = trial;
            keep_digits(state, &mut n);
            proof {
                assert(rest.skip(whole + 1) =~= chars.skip(pos + whole + 1));
                lemma_run_len_maximal(rest.skip(whole + 1), CharClass::Digit);
                let len = number_len(rest) as int;
                assert(n@ =~= chars.subrange(pos, pos + len));
            }
        }
    }
    let ghost len = number_len(rest) as int;
    assert(n@ =~= chars.subrange(pos, pos + len));
    Some(to_text(n.as_slice()))
}

/// The readers that a [`TestLexer`] can be given.
#[derive(Debug, Clone, Copy, PartialEq, Eq, Structural)]
pub enum TestSystem {
    /// Reads a number, see [`number`].
    Number,
}

/// What the first of `systems` that accepts reads at index `pos` of `chars`.
pub open spec fn first_text(systems: Seq<TestSystem>, chars: Seq<char>, pos: nat) -> Option<
    Seq<char>,
>
    decreases systems.len(),
{
    if systems.len() == 0 {
        None
    } else {
        match systems[0] {
            TestSystem::Number => match number_text(chars, pos) {
                Some(text) => Some(text),
                None => first_text(systems.drop_first(), chars, pos),
            },
        }
    }
}

/// A small driver for the cursor of this module. It offers the character at its
/// position to each reader in turn, each on a cursor of its own, and hands out what
/// the first to accept has read.
pub struct TestLexer {
    sys: Vec<TestSystem>,
    _path: &'static str,
    /// Index of the character to read next.
    pub current_pos: BytePos,
    /// The characters to read.
    pub it: Vec<char>,
    borrow: bool,
}

impl TestLexer {
    /// The readers, in the order they are tried.
    pub closed spec fn systems(&self) -> Seq<TestSystem> {
        self.sys@
    }

    /// The characters to read.
    pub closed spec fn chars(&self) -> Seq<char> {
        self.it@
    }

    /// Index of the character to read next.
    pub closed spec fn pos(&self) -> nat {
        self.current_pos@
    }

    /// A driver without readers, over the sample input `536.1`.
    pub fn new() -> (lexer: Self)
        ensures
            lexer.systems() == Seq::<TestSystem>::empty(),
            lexer.chars() == seq!['5', '3', '6', '.', '1'],
            lexer.pos() == 0,
    {
        let mut it: Vec<char> = Vec::new();
        it.push('5');
        it.push('3');
        it.push('6');
        it.push('.');
        it.push('1');
        assert(it@ =~= seq!['5', '3', '6', '.', '1']);
        Self { sys: Vec::new(), _path: "<stdin>", current_pos: BytePos(0), it, borrow: false }
    }

    /// Adds a reader behind those that the driver has.
    pub fn add_system(&mut self, s: TestSystem)
        ensures
            final(self).systems() == old(self).systems().push(s),
            final(self).chars() == old(self).chars(),
            final(self).pos() == old(self).pos(),
    {
        self.sys.push(s);
    }

    /// The text that the first reader to accept reads at the position of the
    /// driver, which stays where it is. `None` where the input is used up or no
    /// reader accepts.
    pub fn tokenize(&mut self) -> (text: Option<String>)
        ensures
            final(self).systems() == old(self).systems(),
            final(self).chars() == old(self).chars(),
            final(self).pos() == old(self).pos(),
            match first_text(old(self).systems(), old(self).chars(), old(self).pos()) {
                Some(expected) => text matches Some(found) && found@ == expected,
                None => text is None,
            },
    {
        let index: usize = self.current_pos.0;
        if index >= self.it.len() {
            proof {
                lemma_first_text_none(self.sys@, self.it@, index as nat);
            }
            return None;
        }
        let c: char = self.it[index];
        let state = LexerState::new(self.current_pos, self.it.as_slice(), false);
        let mut i: usize = 0;
        assert(self.sys@.skip(0) =~= self.sys@);
        while i < self.sys.len()
            invariant
                *self == *old(self),
                index == self.pos(),
                i <= self.sys.len(),
                index < self.it@.len(),
                c == self.it@[index as int],
                !state.pending(),
                state.pos() == index,
                state.chars() == self.it@,
                first_text(self.sys@, self.it@, index as nat) == first_text(
                    self.sys@.skip(i as int),
                    self.it@,
                    index as nat,
                ),
            decreases self.sys.len() - i,
        {
            let mut trial = state;
            let found = match self.sys[i] {
                TestSystem::Number => number(c, &mut trial),
            };
            proof {
                assert(self.sys@.skip(i as int)[0] == self.sys@[i as int]);
                assert(self.sys@.skip(i as int).drop_first() =~= self.sys@.skip(i + 1));
            }
            match found {
                Some(text) => {
                    return Some(text);
                },
                None => {},
            }
            i = i + 1;
        }
        None
    }
}

/// Past the end of the input no reader accepts.
pub proof fn lemma_first_text_none(systems: Seq<TestSystem>, chars: Seq<char>, pos: nat)
    requires
        pos >= chars.len(),
    ensures
        first_text(systems, chars, pos) is None,
    decreases systems.len(),
{
    if systems.len() > 0 {
        lemma_first_text_none(systems.drop_first(), chars, pos);
    }
}

} // verus!
