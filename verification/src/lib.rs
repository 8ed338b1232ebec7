//! Reads flat assignment statements of the form `dotted.property.path = value`.
//!
//! The [`lexer`] turns characters into tokens and the [`parser`] turns tokens
//! into assignment expressions. Both are stated against mathematical models:
//! [`lexer::lex`] gives the tokens of a text, [`parser::parse_from`] the
//! assignments of a token sequence.
pub mod chars;
pub mod error;
pub mod models;
pub mod outcome;
pub mod lexer;
pub mod number;
pub mod parser;
