//! The diagnostics of a scanner.

use crate::interfaces::error::Error;
use crate::interfaces::lexer::LexerError;
use crate::utils::span::{Span, Spanned};
use vstd::prelude::*;
use vstd::string::*;

verus! {

/// What stopped the scanner.
#[derive(Debug, Clone, Copy, PartialEq, Eq, Structural)]
pub enum Fault {
    /// No rule accepts this character.
    UnknownChar(char),
    /// The input ended inside a quoted string.
    UnterminatedString,
    /// A numeric literal does not fit the type it is read as.
    MalformedNumber,
    /// A numeric literal runs into a word that is no configured suffix.
    UnknownSuffix,
}

impl Fault {
    /// The number that identifies the fault.
    pub open spec fn spec_code(self) -> u64 {
        match self {
            Fault::UnknownChar(_) => 1,
            Fault::UnterminatedString => 2,
            Fault::MalformedNumber => 3,
            Fault::UnknownSuffix => 4,
        }
    }

    /// The number that identifies the fault.
    pub fn code(&self) -> (code: u64)
        ensures
            code == self.spec_code(),
    {
        match self {
            Fault::UnknownChar(_) => 1,
            Fault::UnterminatedString => 2,
            Fault::MalformedNumber => 3,
            Fault::UnknownSuffix => 4,
        }
    }
}

/// A scan-time error: what went wrong, where, and whether scanning went on.
#[derive(Debug, Clone, Copy, PartialEq, Eq)]
pub struct LexicalError {
    /// What went wrong.
    pub fault: Fault,
    /// The source text that the error covers.
    pub span: Span,
    /// Whether the scanner skipped the offending character and went on.
    pub recoverable: bool,
}

/// What a [`LexicalError`] stands for, with offsets as mathematical integers.
pub struct LexicalErrorView {
    pub fault: Fault,
    pub start: nat,
    pub end: nat,
    pub path: &'static str,
    pub recoverable: bool,
}

impl View for LexicalError {
    type V = LexicalErrorView;

    open spec fn view(&self) -> LexicalErrorView {
        LexicalErrorView {
            fault: self.fault,
            start: self.span.start@,
            end: self.span.end@,
            path: self.span.path,
            recoverable: self.recoverable,
        }
    }
}

impl LexicalError {
    /// The error `fault` at `span`.
    pub fn new(fault: Fault, span: Span, recoverable: bool) -> (error: LexicalError)
        ensures
            error == (LexicalError { fault, span, recoverable }),
    {
        LexicalError { fault, span, recoverable }
    }
}

impl Spanned for LexicalError {
    fn span(&self) -> (span: Span)
        ensures
            span == self.span,
    {
        self.span
    }
}

impl Error for LexicalError {
    fn recoverable(&self) -> (recoverable: bool)
        ensures
            recoverable == self.recoverable,
    {
        self.recoverable
    }

    fn message(&self) -> (message: String)
        ensures
            message@ == match self.fault {
                Fault::UnknownChar(_) => "unrecognized character"@,
                Fault::UnterminatedString => "unterminated string literal"@,
                Fault::MalformedNumber => "numeric literal does not fit its type"@,
                Fault::UnknownSuffix => "numeric literal has an unknown suffix"@,
            },
    {
        match self.fault {
            Fault::UnknownChar(_) => String::from_str("unrecognized character"),
            Fault::UnterminatedString => String::from_str("unterminated string literal"),
            Fault::MalformedNumber => String::from_str("numeric literal does not fit its type"),
            Fault::UnknownSuffix => String::from_str("numeric literal has an unknown suffix"),
        }
    }

    fn help(&self) -> (help: Option<String>)
        ensures
            help is Some <==> self.fault is UnterminatedString,
            help matches Some(text) ==> text@ == "add the closing quote"@,
    {
        match self.fault {
            Fault::UnterminatedString => Some(String::from_str("add the closing quote")),
            _ => None,
        }
    }

    fn code(&self) -> (code: u64)
        ensures
            code == self.fault.spec_code(),
    {
        self.fault.code()
    }
}

impl LexerError for LexicalError {

}

} // verus!
