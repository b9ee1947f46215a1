//! The names that most users of the library need.

pub use crate::interfaces::error::Error;
pub use crate::interfaces::lexer::lexer_errors::{Fault, LexicalError};
pub use crate::interfaces::lexer::token::{Literal, Symbol, Token, TokenKind};
pub use crate::interfaces::lexer::LexerError;
pub use crate::lexer::config::{
    ConfigError, EitherSymbol, LexerConfig, NumericSuffix, NumericType, SingleSymbol,
};
pub use crate::lexer::lexer_state::LexerState;
pub use crate::lexer::model::System;
pub use crate::lexer::AtlasLexer;
pub use crate::utils::span::{BytePos, Span, Spanned};
pub use internment::Intern;
