//! A configurable tokenizer engine.
//!
//! A configuration (symbols, keywords, numeric suffixes, whitespace policy, quote
//! character) is turned into a scanner that converts source text into a sequence of
//! spanned tokens. Every scanning rule carries a contract over a mathematical model
//! of the text, and the contracts are machine-checked.

/// The vocabulary shared between the stages of a language front end.
pub mod interfaces;
/// Interned text.
pub mod intern;
/// The scanner.
pub mod lexer;
/// The names that most users of the library need.
pub mod prelude;
/// Building blocks shared by every stage.
pub mod utils;
