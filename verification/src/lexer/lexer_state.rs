//! The trial cursor: a disposable view of the remaining input.

use crate::utils::chars::{
    char_width, lemma_text_width_first, lemma_text_width_push, lemma_text_width_split, text_width,
    utf8_width,
};
use crate::utils::span::BytePos;
use vstd::prelude::*;

verus! {

/// `LexerState` is the state of one attempt to read a token. It keeps the byte
/// position reached in the source and looks one character ahead.
///
/// A cursor is cheap to copy: a rule that may have to give up works on a copy and
/// throws it away, which leaves no trace.
#[derive(Clone, Copy, Debug)]
pub struct LexerState<'lex> {
    /// The byte offset reached in the source. Offsets count bytes, not characters,
    /// so that multi-byte characters are located exactly.
    pub current_pos: BytePos,
    /// The characters this cursor was created over.
    txt: &'lex [char],
    /// How many characters of `txt` have been consumed.
    taken: usize,
    /// Name of the source being read.
    pub path: &'static str,
}

impl<'lex> LexerState<'lex> {
    /// The characters not yet consumed.
    pub closed spec fn rest(&self) -> Seq<char> {
        self.txt@.skip(self.taken as int)
    }

    /// The byte offset reached.
    pub closed spec fn pos(&self) -> nat {
        self.current_pos@
    }

    /// Name of the source being read.
    pub closed spec fn source(&self) -> &'static str {
        self.path
    }

    /// The cursor is inside its text, and the byte offset of the end of the text
    /// fits in a `usize`.
    pub closed spec fn wf(&self) -> bool {
        &&& self.taken <= self.txt@.len()
        &&& self.current_pos@ + text_width(self.rest()) <= usize::MAX
    }

    /// A cursor at byte offset `current_pos` with `txt` still to be read.
    pub fn new(current_pos: BytePos, txt: &'lex [char], path: &'static str) -> (state: Self)
        requires
            current_pos@ + text_width(txt@) <= usize::MAX,
        ensures
            state.wf(),
            state.pos() == current_pos@,
            state.source() == path,
            state.rest() == txt@,
    {
        assert(txt@.skip(0) == txt@);
        Self { current_pos, txt, taken: 0, path }
    }

    /// A cursor at byte offset `current_pos` with `txt` still to be read, unless the
    /// byte offset of the end of `txt` does not fit in a `usize`.
    pub fn try_new(current_pos: BytePos, txt: &'lex [char], path: &'static str) -> (state: Option<
        Self,
    >)
        ensures
            state is Some <==> current_pos@ + text_width(txt@) <= usize::MAX,
            state matches Some(state) ==> {
                &&& state.wf()
                &&& state.pos() == current_pos@
                &&& state.source() == path
                &&& state.rest() == txt@
            },
    {
        let mut end: usize = current_pos.0;
        let mut i: usize = 0;
        proof {
            lemma_text_width_split(txt@, 0);
            assert(txt@.take(0) =~= Seq::<char>::empty());
        }
        while i < txt.len()
            invariant
                i <= txt.len(),
                end == current_pos@ + text_width(txt@.take(i as int)),
            decreases txt.len() - i,
        {
            let width = char_width(txt[i]);
            proof {
                lemma_text_width_push(txt@.take(i as int), txt@[i as int]);
                assert(txt@.take(i as int).push(txt@[i as int]) =~= txt@.take(i + 1));
                lemma_text_width_split(txt@, i + 1);
            }
            if end > usize::MAX - width {
                return None;
            }
            end = end + width;
            i = i + 1;
        }
        assert(txt@.take(txt.len() as int) =~= txt@);
        Some(Self::new(current_pos, txt, path))
    }

    /// Consumes the next character, moving the position past its UTF-8 encoding.
    ///
    /// Returns `None`, and changes nothing, when no character is left.
    pub fn next(&mut self) -> (c: Option<char>)
        requires
            old(self).wf(),
        ensures
            final(self).wf(),
            final(self).source() == old(self).source(),
            old(self).rest().len() == 0 ==> c is None && *final(self) == *old(self),
            old(self).rest().len() > 0 ==> {
                &&& c == Some(old(self).rest()[0])
                &&& final(self).rest() == old(self).rest().drop_first()
                &&& final(self).pos() == old(self).pos() + utf8_width(old(self).rest()[0])
            },
    {
        if self.taken < self.txt.len() {
            let c: char = self.txt[self.taken];
            proof {
                lemma_text_width_first(self.rest());
                assert(self.rest().drop_first() == self.txt@.skip(self.taken + 1));
            }
            self.current_pos = self.current_pos.shift_by(char_width(c));
            self.taken = self.taken + 1;
            Some(c)
        } else {
            None
        }
    }

    /// The byte offset reached.
    pub fn position(&self) -> (pos: BytePos)
        ensures
            pos@ == self.pos(),
    {
        self.current_pos
    }

    /// Name of the source being read.
    pub fn path(&self) -> (path: &'static str)
        ensures
            path == self.source(),
    {
        self.path
    }

    /// The next character, which stays in place.
    pub fn peek(&self) -> (c: Option<&char>)
        requires
            self.wf(),
        ensures
            self.rest().len() == 0 ==> c is None,
            self.rest().len() > 0 ==> c == Some(&self.rest()[0]),
    {
        if self.taken < self.txt.len() {
            Some(&self.txt[self.taken])
        } else {
            None
        }
    }
}

} // verus!
