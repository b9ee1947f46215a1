//! The output vocabulary of a scanner: tokens, their kinds and literals.

use crate::intern::{handle_text, interned_text};
use crate::utils::decimal::{int_text, push_decimal, push_signed};
use crate::utils::span::{Span, Spanned};
use internment::Intern;
use vstd::prelude::*;
use vstd::string::*;

verus! {

/// A literal value read from the source.
#[derive(Debug, Clone, Copy, PartialEq)]
pub enum Literal {
    /// Integer literal without a suffix.
    Int(i64),
    /// Fractional literal without a suffix, kept as its decimal text.
    Float(Intern<String>),
    /// Truth value.
    Bool(bool),
    /// A name that is not a keyword.
    Identifier(Intern<String>),
    /// The body of a quoted string.
    StringLiteral(Intern<String>),
    /// Integer literal tagged as 8-bit signed.
    I8(i8),
    /// Integer literal tagged as 16-bit signed.
    I16(i16),
    /// Integer literal tagged as 32-bit signed.
    I32(i32),
    /// Integer literal tagged as 64-bit signed.
    I64(i64),
    /// Integer literal tagged as 128-bit signed.
    I128(i128),
    /// Integer literal tagged as 8-bit unsigned.
    U8(u8),
    /// Integer literal tagged as 16-bit unsigned.
    U16(u16),
    /// Integer literal tagged as 32-bit unsigned.
    U32(u32),
    /// Integer literal tagged as 64-bit unsigned.
    U64(u64),
    /// Integer literal tagged as 128-bit unsigned.
    U128(u128),
    /// Literal tagged as single precision, kept as its decimal text.
    F32(Intern<String>),
    /// Literal tagged as double precision, kept as its decimal text.
    F64(Intern<String>),
}

/// What a [`Literal`] stands for, with every handle replaced by its text.
pub enum LiteralView {
    Int(i64),
    Float(Seq<char>),
    Bool(bool),
    Identifier(Seq<char>),
    StringLiteral(Seq<char>),
    I8(i8),
    I16(i16),
    I32(i32),
    I64(i64),
    I128(i128),
    U8(u8),
    U16(u16),
    U32(u32),
    U64(u64),
    U128(u128),
    F32(Seq<char>),
    F64(Seq<char>),
}

impl View for Literal {
    type V = LiteralView;

    open spec fn view(&self) -> LiteralView {
        match *self {
            Literal::Int(v) => LiteralView::Int(v),
            Literal::Float(h) => LiteralView::Float(interned_text(h)),
            Literal::Bool(v) => LiteralView::Bool(v),
            Literal::Identifier(h) => LiteralView::Identifier(interned_text(h)),
            Literal::StringLiteral(h) => LiteralView::StringLiteral(interned_text(h)),
            Literal::I8(v) => LiteralView::I8(v),
            Literal::I16(v) => LiteralView::I16(v),
            Literal::I32(v) => LiteralView::I32(v),
            Literal::I64(v) => LiteralView::I64(v),
            Literal::I128(v) => LiteralView::I128(v),
            Literal::U8(v) => LiteralView::U8(v),
            Literal::U16(v) => LiteralView::U16(v),
            Literal::U32(v) => LiteralView::U32(v),
            Literal::U64(v) => LiteralView::U64(v),
            Literal::U128(v) => LiteralView::U128(v),
            Literal::F32(h) => LiteralView::F32(interned_text(h)),
            Literal::F64(h) => LiteralView::F64(interned_text(h)),
        }
    }
}

impl LiteralView {
    /// The literal written out: a number in decimal, a truth value as `true` or
    /// `false`, and any text as it is.
    pub open spec fn text(self) -> Seq<char> {
        match self {
            LiteralView::Int(v) => int_text(v as int),
            LiteralView::Float(t) => t,
            LiteralView::Bool(b) => if b {
                "true"@
            } else {
                "false"@
            },
            LiteralView::Identifier(t) => t,
            LiteralView::StringLiteral(t) => t,
            LiteralView::I8(v) => int_text(v as int),
            LiteralView::I16(v) => int_text(v as int),
            LiteralView::I32(v) => int_text(v as int),
            LiteralView::I64(v) => int_text(v as int),
            LiteralView::I128(v) => int_text(v as int),
            LiteralView::U8(v) => int_text(v as int),
            LiteralView::U16(v) => int_text(v as int),
            LiteralView::U32(v) => int_text(v as int),
            LiteralView::U64(v) => int_text(v as int),
            LiteralView::U128(v) => int_text(v as int),
            LiteralView::F32(t) => t,
            LiteralView::F64(t) => t,
        }
    }
}

impl Literal {
    /// The literal written out.
    pub fn to_string(&self) -> (text: String)
        ensures
            text@ == self@.text(),
    {
        let mut text = String::new();
        match *self {
            Literal::Int(v) => push_signed(v as i128, &mut text),
            Literal::Float(h) => text.append(handle_text(h).as_str()),
            Literal::Bool(b) => if b {
                text.append("true")
            } else {
                text.append("false")
            },
            Literal::Identifier(h) => text.append(handle_text(h).as_str()),
            Literal::StringLiteral(h) => text.append(handle_text(h).as_str()),
            Literal::I8(v) => push_signed(v as i128, &mut text),
            Literal::I16(v) => push_signed(v as i128, &mut text),
            Literal::I32(v) => push_signed(v as i128, &mut text),
            Literal::I64(v) => push_signed(v as i128, &mut text),
            Literal::I128(v) => push_signed(v, &mut text),
            Literal::U8(v) => push_decimal(v as u128, &mut text),
            Literal::U16(v) => push_decimal(v as u128, &mut text),
            Literal::U32(v) => push_decimal(v as u128, &mut text),
            Literal::U64(v) => push_decimal(v as u128, &mut text),
            Literal::U128(v) => push_decimal(v, &mut text),
            Literal::F32(h) => text.append(handle_text(h).as_str()),
            Literal::F64(h) => text.append(handle_text(h).as_str()),
        }
        assert(Seq::<char>::empty() + self@.text() =~= self@.text());
        text
    }
}

/// The punctuation that a configuration can map characters to.
#[derive(Debug, Clone, Copy, PartialEq, Eq, Structural, Hash)]
pub enum Symbol {
    /// ";"
    SemiColon,
    /// ","
    Comma,
    /// "."
    Dot,
    /// "("
    LParen,
    /// ")"
    RParen,
    /// "{"
    LBrace,
    /// "}"
    RBrace,
    /// "["
    LBracket,
    /// "]"
    RBracket,
    /// "@"
    At,
    /// "#"
    HashTag,
    /// "~"
    Tilde,
    /// "?"
    Question,
    /// ":"
    Colon,
    /// "$"
    Dollar,
    /// "="
    Eq,
    /// "!"
    Bang,
    /// "<"
    LAngle,
    /// ">"
    RAngle,
    /// "-"
    Minus,
    /// "&"
    Ampersand,
    /// "|"
    Pipe,
    /// "+"
    Plus,
    /// "*"
    Star,
    /// "/"
    Slash,
    /// "^"
    Caret,
    /// "%"
    Percent,
    /// "_"
    Underscore,
    /// "\"
    Backslash,
    /// "'"
    Quote,
    /// "=>"
    FatArrow,
    /// "<-"
    LArrow,
    /// "->"
    RArrow,
    /// "::"
    DoubleColon,
    /// ".."
    DoubleDot,
    /// "!="
    NEq,
    /// "<="
    LtEq,
    /// ">="
    GtEq,
    /// "=="
    DoubleEq,
    /// "&&"
    And,
    /// "||"
    Or,
}

impl Symbol {
    /// The name of the symbol.
    pub open spec fn spec_name(self) -> &'static str {
        match self {
            Symbol::SemiColon => "SemiColon",
            Symbol::Comma => "Comma",
            Symbol::Dot => "Dot",
            Symbol::LParen => "LParen",
            Symbol::RParen => "RParen",
            Symbol::LBrace => "LBrace",
            Symbol::RBrace => "RBrace",
            Symbol::LBracket => "LBracket",
            Symbol::RBracket => "RBracket",
            Symbol::At => "At",
            Symbol::HashTag => "HashTag",
            Symbol::Tilde => "Tilde",
            Symbol::Question => "Question",
            Symbol::Colon => "Colon",
            Symbol::Dollar => "Dollar",
            Symbol::Eq => "Eq",
            Symbol::Bang => "Bang",
            Symbol::LAngle => "LAngle",
            Symbol::RAngle => "RAngle",
            Symbol::Minus => "Minus",
            Symbol::Ampersand => "Ampersand",
            Symbol::Pipe => "Pipe",
            Symbol::Plus => "Plus",
            Symbol::Star => "Star",
            Symbol::Slash => "Slash",
            Symbol::Caret => "Caret",
            Symbol::Percent => "Percent",
            Symbol::Underscore => "Underscore",
            Symbol::Backslash => "Backslash",
            Symbol::Quote => "Quote",
            Symbol::FatArrow => "FatArrow",
            Symbol::LArrow => "LArrow",
            Symbol::RArrow => "RArrow",
            Symbol::DoubleColon => "DoubleColon",
            Symbol::DoubleDot => "DoubleDot",
            Symbol::NEq => "NEq",
            Symbol::LtEq => "LtEq",
            Symbol::GtEq => "GtEq",
            Symbol::DoubleEq => "DoubleEq",
            Symbol::And => "And",
            Symbol::Or => "Or",
        }
    }

    /// The name of the symbol.
    pub fn name(&self) -> (name: &'static str)
        ensures
            name == self.spec_name(),
    {
        match self {
            Symbol::SemiColon => "SemiColon",
            Symbol::Comma => "Comma",
            Symbol::Dot => "Dot",
            Symbol::LParen => "LParen",
            Symbol::RParen => "RParen",
            Symbol::LBrace => "LBrace",
            Symbol::RBrace => "RBrace",
            Symbol::LBracket => "LBracket",
            Symbol::RBracket => "RBracket",
            Symbol::At => "At",
            Symbol::HashTag => "HashTag",
            Symbol::Tilde => "Tilde",
            Symbol::Question => "Question",
            Symbol::Colon => "Colon",
            Symbol::Dollar => "Dollar",
            Symbol::Eq => "Eq",
            Symbol::Bang => "Bang",
            Symbol::LAngle => "LAngle",
            Symbol::RAngle => "RAngle",
            Symbol::Minus => "Minus",
            Symbol::Ampersand => "Ampersand",
            Symbol::Pipe => "Pipe",
            Symbol::Plus => "Plus",
            Symbol::Star => "Star",
            Symbol::Slash => "Slash",
            Symbol::Caret => "Caret",
            Symbol::Percent => "Percent",
            Symbol::Underscore => "Underscore",
            Symbol::Backslash => "Backslash",
            Symbol::Quote => "Quote",
            Symbol::FatArrow => "FatArrow",
            Symbol::LArrow => "LArrow",
            Symbol::RArrow => "RArrow",
            Symbol::DoubleColon => "DoubleColon",
            Symbol::DoubleDot => "DoubleDot",
            Symbol::NEq => "NEq",
            Symbol::LtEq => "LtEq",
            Symbol::GtEq => "GtEq",
            Symbol::DoubleEq => "DoubleEq",
            Symbol::And => "And",
            Symbol::Or => "Or",
        }
    }
}

/// The kind of a token.
#[derive(Debug, Clone, Copy, PartialEq)]
pub enum TokenKind {
    /// A literal, see [`Literal`].
    Literal(Literal),
    /// A reserved word.
    Keyword(Intern<String>),
    /// One- or two-character punctuation.
    Symbol(Symbol),
    /// " "
    WhiteSpace,
    /// Line feed.
    NewLine,
    /// Horizontal tab.
    Tabulation,
    /// Carriage return.
    CarriageReturn,
    /// A character that no rule of the scanner accepts.
    UnknownChar(char),
    /// Start of input.
    SoI,
    /// End of input.
    EoI,
}

/// What a [`TokenKind`] stands for, with every handle replaced by its text.
pub enum KindView {
    Literal(LiteralView),
    Keyword(Seq<char>),
    Symbol(Symbol),
    WhiteSpace,
    NewLine,
    Tabulation,
    CarriageReturn,
    UnknownChar(char),
    SoI,
    EoI,
}

impl KindView {
    /// True for the four kinds of blank.
    pub open spec fn is_blank(self) -> bool {
        self is WhiteSpace || self is NewLine || self is Tabulation || self is CarriageReturn
    }
}

impl View for TokenKind {
    type V = KindView;

    open spec fn view(&self) -> KindView {
        match *self {
            TokenKind::Literal(l) => KindView::Literal(l@),
            TokenKind::Keyword(h) => KindView::Keyword(interned_text(h)),
            TokenKind::Symbol(s) => KindView::Symbol(s),
            TokenKind::WhiteSpace => KindView::WhiteSpace,
            TokenKind::NewLine => KindView::NewLine,
            TokenKind::Tabulation => KindView::Tabulation,
            TokenKind::CarriageReturn => KindView::CarriageReturn,
            TokenKind::UnknownChar(c) => KindView::UnknownChar(c),
            TokenKind::SoI => KindView::SoI,
            TokenKind::EoI => KindView::EoI,
        }
    }
}

impl KindView {
    /// The kind written out: a keyword, a literal and an unknown character behind
    /// what they are, any other kind by its name.
    pub open spec fn text(self) -> Seq<char> {
        match self {
            KindView::Literal(l) => "Literal: "@ + l.text(),
            KindView::Keyword(t) => "Keyword: "@ + t,
            KindView::Symbol(s) => s.spec_name()@,
            KindView::WhiteSpace => "WhiteSpace"@,
            KindView::NewLine => "NewLine"@,
            KindView::Tabulation => "Tabulation"@,
            KindView::CarriageReturn => "CarriageReturn"@,
            KindView::UnknownChar(c) => "UnknownChar: "@.push(c),
            KindView::SoI => "SoI"@,
            KindView::EoI => "EoI"@,
        }
    }
}

impl TokenKind {
    /// The kind written out.
    pub fn to_string(&self) -> (text: String)
        ensures
            text@ == self@.text(),
    {
        match *self {
            TokenKind::Literal(l) => {
                let mut text = String::from_str("Literal: ");
                text.append(l.to_string().as_str());
                text
            },
            TokenKind::Keyword(h) => {
                let mut text = String::from_str("Keyword: ");
                text.append(handle_text(h).as_str());
                text
            },
            TokenKind::Symbol(s) => String::from_str(s.name()),
            TokenKind::WhiteSpace => String::from_str("WhiteSpace"),
            TokenKind::NewLine => String::from_str("NewLine"),
            TokenKind::Tabulation => String::from_str("Tabulation"),
            TokenKind::CarriageReturn => String::from_str("CarriageReturn"),
            TokenKind::UnknownChar(c) => {
                let mut text = String::from_str("UnknownChar: ");
                text.push(c);
                text
            },
            TokenKind::SoI => String::from_str("SoI"),
            TokenKind::EoI => String::from_str("EoI"),
        }
    }

    /// True for the four kinds of blank.
    pub fn is_blank(&self) -> (blank: bool)
        ensures
            blank == self@.is_blank(),
    {
        match self {
            TokenKind::WhiteSpace => true,
            TokenKind::NewLine => true,
            TokenKind::Tabulation => true,
            TokenKind::CarriageReturn => true,
            _ => false,
        }
    }
}

/// A piece of source text with its kind.
#[derive(Debug, Clone, Copy, PartialEq)]
pub struct Token {
    span: Span,
    kind: TokenKind,
}

/// What a [`Token`] stands for: its byte range `[start, end)` in the source named
/// `path`, and the view of its kind.
pub struct TokenView {
    pub start: nat,
    pub end: nat,
    pub path: &'static str,
    pub kind: KindView,
}

impl View for Token {
    type V = TokenView;

    closed spec fn view(&self) -> TokenView {
        TokenView {
            start: self.span.start@,
            end: self.span.end@,
            path: self.span.path,
            kind: self.kind@,
        }
    }
}

impl Spanned for Token {
    #[inline(always)]
    fn span(&self) -> (span: Span)
        ensures
            span.start@ == self@.start,
            span.end@ == self@.end,
            span.path == self@.path,
    {
        self.span
    }
}

impl Token {
    /// A token of the given kind read from `span`.
    pub fn new(span: Span, kind: TokenKind) -> (token: Token)
        ensures
            token@ == (TokenView {
                start: span.start@,
                end: span.end@,
                path: span.path,
                kind: kind@,
            }),
    {
        Self { span, kind }
    }

    /// The kind of the token.
    #[inline(always)]
    pub fn kind(&self) -> (kind: TokenKind)
        ensures
            kind@ == self@.kind,
    {
        self.kind
    }
}

} // verus!
