//! Byte positions and half-open source ranges.

use vstd::prelude::*;
use vstd::std_specs::convert::FromSpecImpl;

verus! {

/// A byte offset into a source text.
#[derive(Clone, Copy, Debug, PartialEq, Eq, Structural, Hash)]
pub struct BytePos(pub usize);

impl View for BytePos {
    type V = nat;

    open spec fn view(&self) -> nat {
        self.0 as nat
    }
}

impl BytePos {
    /// The position `n` bytes further on.
    pub fn shift_by(self, n: usize) -> (shifted: BytePos)
        requires
            self@ + n <= usize::MAX,
        ensures
            shifted@ == self@ + n,
    {
        BytePos(self.0 + n)
    }
}

impl From<usize> for BytePos {
    fn from(offset: usize) -> (pos: BytePos) {
        BytePos(offset)
    }
}

impl FromSpecImpl<usize> for BytePos {
    open spec fn obeys_from_spec() -> bool {
        true
    }

    open spec fn from_spec(offset: usize) -> BytePos {
        BytePos(offset)
    }
}

impl From<BytePos> for usize {
    fn from(pos: BytePos) -> (offset: usize) {
        pos.0
    }
}

impl FromSpecImpl<BytePos> for usize {
    open spec fn obeys_from_spec() -> bool {
        true
    }

    open spec fn from_spec(pos: BytePos) -> usize {
        pos.0
    }
}

impl Default for BytePos {
    fn default() -> (pos: BytePos)
        ensures
            pos@ == 0,
    {
        BytePos(0)
    }
}

/// A half-open byte range `[start, end)` of the source named by `path`.
#[derive(Clone, Copy, Debug, PartialEq, Eq)]
pub struct Span {
    /// First byte of the range.
    pub start: BytePos,
    /// One past the last byte of the range.
    pub end: BytePos,
    /// Name of the source the range lies in.
    pub path: &'static str,
}

impl Span {
    /// A span never ends before it starts.
    pub open spec fn wf(&self) -> bool {
        self.start@ <= self.end@
    }

    /// Number of bytes covered.
    pub open spec fn spec_len(&self) -> nat {
        (self.end@ - self.start@) as nat
    }

    /// The range `[start, end)` of `path`.
    pub fn new(start: BytePos, end: BytePos, path: &'static str) -> (span: Span)
        requires
            start@ <= end@,
        ensures
            span == (Span { start, end, path }),
            span.wf(),
    {
        Span { start, end, path }
    }

    /// The empty range at `pos`.
    pub fn empty_at(pos: BytePos, path: &'static str) -> (span: Span)
        ensures
            span == (Span { start: pos, end: pos, path }),
            span.wf(),
            span.spec_len() == 0,
    {
        Span { start: pos, end: pos, path }
    }

    /// Number of bytes covered.
    pub fn len(&self) -> (n: usize)
        requires
            self.wf(),
        ensures
            n == self.spec_len(),
    {
        self.end.0 - self.start.0
    }
}

/// Anything that is located in a source text.
pub trait Spanned {
    /// The range of source text that `self` was read from.
    fn span(&self) -> Span;
}

} // verus!
