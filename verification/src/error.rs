//! What can go wrong while scanning and parsing. Every error ends the call
//! that met it; none is recovered from.
use vstd::prelude::*;
use crate::models::TokenType;

verus! {

/// Why a text could not be turned into tokens.
#[derive(Clone, Copy, Debug, PartialEq, Eq, Structural)]
pub enum LexError {
    /// A string literal that starts on `line` has no closing quote.
    UnterminatedString { line: u32 },
    /// A number on `line` holds more than one decimal point.
    MalformedNumber { line: u32 },
}

/// A token found where the grammar asks for another kind.
#[derive(Clone, Copy, Debug, PartialEq, Eq, Structural)]
pub struct Misplaced {
    pub kind: TokenType,
    pub line: u32,
}

/// Why a token sequence could not be turned into assignments.
#[derive(Clone, Copy, Debug, PartialEq, Eq, Structural)]
pub enum ParseError {
    /// An `=` on `line` has no path before it.
    AssignmentWithoutLHS { line: u32 },
    /// A token of `kind` stands where a left-hand path, or a segment of one,
    /// has to start.
    UnexpectedLHS { kind: TokenType, line: u32 },
    /// A token of `kind` stands where a right-hand side, or a segment of a
    /// right-hand path, has to start.
    UnexpectedRHS { kind: TokenType, line: u32 },
    /// The lexeme of a number token on `line` is no number.
    InvalidNumberLiteral { line: u32 },
}

} // verus!
