//! The vocabulary shared between the stages of a language front end.

/// The base trait of every diagnostic.
pub mod error;
/// Tokens and the scanner interface.
pub mod lexer;
/// The interface between the scanner and the parser.
pub mod parser;
/// The interface of the passes that run over a parsed program.
pub mod pass;
