use vstd::prelude::*;

use crate::lex::models::token_type::TokenType;

verus! {

/// A token: its kind and the text it was read from.
#[derive(Debug, Clone)]
pub struct Token {
    pub token_type: TokenType,
    pub value: String,
}

/// What a token stands for: its kind and its text.
pub struct TokenView {
    pub token_type: TokenType,
    pub value: Seq<char>,
}

/// The view of a token built from a kind and a text.
pub open spec fn token_view(token_type: TokenType, value: Seq<char>) -> TokenView {
    TokenView { token_type, value }
}

impl View for Token {
    type V = TokenView;

    open spec fn view(&self) -> TokenView {
        token_view(self.token_type, self.value@)
    }
}

impl Token {
    /// A copy of this token.
    pub fn duplicate(&self) -> (res: Token)
        ensures
            res@ == self@,
    {
        Token { token_type: self.token_type, value: self.value.clone() }
    }
}

} // verus!
