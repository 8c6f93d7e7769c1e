use vstd::prelude::*;

verus! {

/// The kind of a token.
#[derive(Debug, Clone, Copy, PartialEq, Eq, Structural)]
pub enum TokenType {
    Keyword,
    Type,
    Bool,
    Semicolon,
    Colon,
    Comma,
    Equals,
    Operator,
    LeftParen,
    RightParen,
    LeftBracket,
    RightBracket,
    Int,
    Float,
    String,
    Identifier,
    EOF,
}

} // verus!
