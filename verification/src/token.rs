//! Tokens, the input of the front end.

use vstd::prelude::*;

verus! {

/// The lexical category of a token.
#[derive(Clone, Copy, Debug, PartialEq, Eq, Structural)]
pub enum TokenType {
    Int,
    Double,
    Str,
    Char,
    Bool,
    Identifier,
    Keyword,
    Symbol,
    Operator,
    EOL,
    EOF,
}

/// One token: its category, the line it stands on, the byte slice of that
/// line it covers, and its text.
pub struct Token {
    pub token_type: TokenType,
    pub line: usize,
    pub slice: (usize, usize),
    pub lexeme: String,
}

impl Token {
    /// A token from its parts.
    pub fn new(token_type: TokenType, line: usize, slice: (usize, usize), lexeme: String) -> (t:
        Token)
        ensures
            t.token_type == token_type,
            t.line == line,
            t.slice == slice,
            t.lexeme == lexeme,
    {
        Token { token_type, line, slice, lexeme }
    }
}

} // verus!
