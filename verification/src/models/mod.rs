//! Tokens, the interface between the lexer and the parser.
use vstd::prelude::*;

verus! {

/// The kind of a token. There is no other punctuation than `.` and `=`.
#[allow(non_camel_case_types)]
#[derive(Clone, Copy, Debug, PartialEq, Eq, Structural)]
pub enum TokenType {
    // Punctuation
    DOT,
    // Operators
    ASSIGN,
    // Literals
    IDENTIFIER,
    STRING,
    NUMBER,
    // Line and input ends
    EOL,
    EOF,
}

/// One token: its kind, the text it stands for, and the line it was found on.
#[derive(Debug, PartialEq, Eq)]
pub struct Token {
    pub token_type: TokenType,
    pub lexeme: String,
    pub line: u32,
}

/// A token as a mathematical value: the lexeme is a sequence of characters.
pub struct TokenView {
    pub token_type: TokenType,
    pub lexeme: Seq<char>,
    pub line: u32,
}

impl View for Token {
    type V = TokenView;

    open spec fn view(&self) -> TokenView {
        TokenView { token_type: self.token_type, lexeme: self.lexeme@, line: self.line }
    }
}

/// The views of a sequence of tokens, in order.
pub open spec fn token_views(tokens: Seq<Token>) -> Seq<TokenView> {
    Seq::new(tokens.len(), |i: int| tokens[i]@)
}

impl Token {
    /// A token equal to this one.
    pub fn duplicate(&self) -> (copy: Token)
        ensures
            copy@ == self@,
    {
        Token { token_type: self.token_type, lexeme: self.lexeme.clone(), line: self.line }
    }
}

} // verus!
