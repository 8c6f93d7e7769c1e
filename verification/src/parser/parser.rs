use vstd::prelude::*;

use crate::lex::lexer::token_views;
use crate::lex::models::token::{Token, TokenView};
use crate::lex::models::token_type::TokenType;
use crate::parser::expression_parser::ready;
use crate::parser::models::ast::AST;
use crate::parser::models::statement::{stmt_view, stmts_view, Statement, StmtView};
use crate::parser::statement_parser::{parse_statement, parse_statements_spec};
use crate::text::text_eq;

verus! {

/// The token stream and the index of the current token.
pub struct Parser {
    /// All tokens provided by the lexer.
    pub tokens: Vec<Token>,
    /// The index of the current token.
    pub position: usize,
}

/// Whether position `p` is past the tokens or at an end-of-input token.
pub open spec fn at_end(toks: Seq<TokenView>, p: int) -> bool {
    p >= toks.len() || toks[p].token_type == TokenType::EOF
}

/// Whether the token at `p` is of kind `t` (and not at the end).
pub open spec fn check_type(toks: Seq<TokenView>, p: int, t: TokenType) -> bool {
    !at_end(toks, p) && toks[p].token_type == t
}

/// Whether the token at `p` is an operator whose text is one of `ops`.
pub open spec fn check_op(toks: Seq<TokenView>, p: int, ops: Seq<Seq<char>>) -> bool {
    !at_end(toks, p) && toks[p].token_type == TokenType::Operator && ops.contains(toks[p].value)
}

/// Whether the token at `p` is the keyword `kw`.
pub open spec fn keyword_at(toks: Seq<TokenView>, p: int, kw: Seq<char>) -> bool {
    !at_end(toks, p) && toks[p].token_type == TokenType::Keyword && toks[p].value == kw
}

/// The texts of a slice of operators.
pub open spec fn texts_of(ops: Seq<&str>) -> Seq<Seq<char>> {
    ops.map_values(|o: &str| o@)
}

impl Parser {
    /// The views of the parser's tokens.
    pub open spec fn toks(&self) -> Seq<TokenView> {
        token_views(self.tokens@)
    }

    /// A parser at the first of `tokens`.
    pub fn new(tokens: Vec<Token>) -> (p: Parser)
        ensures
            p.tokens == tokens,
            p.position == 0,
    {
        Parser { tokens, position: 0 }
    }

    /// Parses statements until the end of the input, or until a statement
    /// fails to parse, as `parse_statements_spec` states.
    pub fn parse_file(&mut self) -> (ast: AST)
        requires
            old(self).tokens@.len() > 0 ==> old(self).toks().last().token_type == TokenType::EOF,
        ensures
            final(self).tokens == old(self).tokens,
            (ast@, final(self).position as int) == parse_statements_spec(
                old(self).toks(),
                old(self).position as int,
            ),
    {
        let ghost toks = self.toks();
        let ghost p0 = self.position as int;
        let mut statements: Vec<Statement> = Vec::new();
        while !self.is_at_end()
            invariant
                self.tokens == old(self).tokens,
                toks == self.toks(),
                toks.len() > 0 ==> toks.last().token_type == TokenType::EOF,
                p0 == old(self).position,
                p0 <= self.position,
                ({
                    let (rest, q) = parse_statements_spec(toks, self.position as int);
                    (stmts_view(statements@) + rest, q) == parse_statements_spec(toks, p0)
                }),
            decreases self.tokens@.len() - self.position,
        {
            let ghost prev = statements@;
            let ghost p = self.position as int;
            match parse_statement(self) {
                Some(stmt) => {
                    let ghost sv = stmt_view(&stmt);
                    statements.push(stmt);
                    proof {
                        assert(statements@.drop_last() =~= prev);
                        assert(stmts_view(statements@) =~= stmts_view(prev).push(sv));
                        let (rest, q2) = parse_statements_spec(toks, self.position as int);
                        assert(parse_statements_spec(toks, p) == (seq![sv] + rest, q2));
                        assert(stmts_view(prev) + (seq![sv] + rest) =~= stmts_view(statements@) + rest);
                    }
                },
                None => {
                    proof {
                        assert(stmts_view(prev) + Seq::<StmtView>::empty() =~= stmts_view(prev));
                    }
                    return AST { statements };
                },
            }
        }
        proof {
            assert(stmts_view(statements@) + Seq::<StmtView>::empty() =~= stmts_view(statements@));
        }
        AST { statements }
    }

    /// Whether the current position is past the tokens or at an
    /// end-of-input token.
    pub fn is_at_end(&self) -> (r: bool)
        ensures
            r == at_end(self.toks(), self.position as int),
    {
        self.position >= self.tokens.len() || self.tokens[self.position].token_type
            == TokenType::EOF
    }

    /// The current token.
    pub fn peek(&self) -> (t: &Token)
        requires
            self.position < self.tokens@.len(),
        ensures
            *t == self.tokens@[self.position as int],
            t@ == self.toks()[self.position as int],
    {
        &self.tokens[self.position]
    }

    /// The current token, moving past it.
    pub fn advance(&mut self) -> (t: Token)
        requires
            old(self).position < old(self).tokens.len(),
        ensures
            t@ == old(self).toks()[old(self).position as int],
            final(self).tokens == old(self).tokens,
            final(self).position == old(self).position + 1,
    {
        let t = self.tokens[self.position].duplicate();
        self.position += 1;
        t
    }

    /// Whether the current token is of kind `token_type`.
    pub fn check(&self, token_type: TokenType) -> (r: bool)
        ensures
            r == check_type(self.toks(), self.position as int, token_type),
    {
        if self.is_at_end() {
            false
        } else {
            self.peek().token_type == token_type
        }
    }

    /// Whether the current token is an operator whose text is one of `ops`.
    pub fn check_operator(&self, ops: &[&str]) -> (r: bool)
        ensures
            r == check_op(self.toks(), self.position as int, texts_of(ops@)),
    {
        if self.is_at_end() {
            return false;
        }
        let token = self.peek();
        if token.token_type != TokenType::Operator {
            return false;
        }
        let mut i: usize = 0;
        while i < ops.len()
            invariant
                i <= ops@.len(),
                token@ == self.toks()[self.position as int],
                !at_end(self.toks(), self.position as int),
                token.token_type == TokenType::Operator,
                forall|j: int| 0 <= j < i ==> ops@[j]@ != token.value@,
            decreases ops.len() - i,
        {
            if text_eq(ops[i], token.value.as_str()) {
                assert(texts_of(ops@)[i as int] == token.value@);
                assert(texts_of(ops@).contains(token.value@));
                return true;
            }
            i += 1;
        }
        assert(!texts_of(ops@).contains(token.value@)) by {
            if texts_of(ops@).contains(token.value@) {
                let k = choose|k: int| 0 <= k < texts_of(ops@).len() && texts_of(ops@)[k] == token.value@;
                assert(ops@[k]@ == token.value@);
            }
        }
        false
    }

    /// The current token if it is of kind `ttype`, moving past it; `None`,
    /// without moving, otherwise. `err_msg` describes what was expected.
    pub fn consume(&mut self, ttype: TokenType, err_msg: &str) -> (r: Option<Token>)
        ensures
            final(self).tokens == old(self).tokens,
            check_type(old(self).toks(), old(self).position as int, ttype) ==> (r matches Some(t)
                && t@ == old(self).toks()[old(self).position as int] && final(self).position
                == old(self).position + 1),
            !check_type(old(self).toks(), old(self).position as int, ttype) ==> r is None
                && final(self).position == old(self).position,
    {
        if self.check(ttype) {
            Some(self.advance())
        } else {
            None
        }
    }

    /// Whether the current token is the keyword `kw`.
    pub fn is_keyword(&self, kw: &str) -> (r: bool)
        ensures
            r == keyword_at(self.toks(), self.position as int, kw@),
    {
        if self.is_at_end() {
            return false;
        }
        let t = self.peek();
        t.token_type == TokenType::Keyword && text_eq(t.value.as_str(), kw)
    }

    /// The current token if it is the keyword `keyword`, moving past it;
    /// `None`, without moving, otherwise.
    pub fn consume_keyword(&mut self, keyword: &str) -> (r: Option<Token>)
        ensures
            final(self).tokens == old(self).tokens,
            keyword_at(old(self).toks(), old(self).position as int, keyword@) ==> (r matches Some(t)
                && t@ == old(self).toks()[old(self).position as int] && final(self).position
                == old(self).position + 1),
            !keyword_at(old(self).toks(), old(self).position as int, keyword@) ==> r is None
                && final(self).position == old(self).position,
    {
        if self.is_keyword(keyword) {
            Some(self.advance())
        } else {
            None
        }
    }
}

} // verus!
