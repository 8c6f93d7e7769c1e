use vstd::prelude::*;

use crate::ast::models::node::{nodes_view, NodeView, Statement, VarDecl, AST, Expression};
use crate::lex::lexer::token_views;
use crate::lex::models::token::{Token, TokenView};
use crate::lex::models::token_type::TokenType;
use crate::parser::expression_parser::literal_of;
use crate::parser::models::expression::ExprView;
use crate::parser::parser::{at_end, check_type, keyword_at};
use crate::text::{parse_i64, parses_as_f64, text_eq};

verus! {

/// The token stream of the first parser and the index of the current
/// token.
pub struct Parser {
    pub tokens: Vec<Token>,
    pub position: usize,
}

/// `let name: type = value;` at `p`, whose value, if any, is the literal or
/// name of one token (none when that token is neither). The declaration and
/// the position reached.
pub open spec fn parse_var_decl_node_spec(toks: Seq<TokenView>, p: int) -> (Option<NodeView>, int) {
    if !keyword_at(toks, p, "let"@) {
        (None, p)
    } else if !check_type(toks, p + 1, TokenType::Identifier) {
        (None, p + 1)
    } else if !check_type(toks, p + 2, TokenType::Colon) {
        (None, p + 2)
    } else if !check_type(toks, p + 3, TokenType::Type) {
        (None, p + 3)
    } else {
        let (init, q) = if check_type(toks, p + 4, TokenType::Equals) {
            (literal_of(toks[p + 5]), p + 6)
        } else {
            (None, p + 4)
        };
        if check_type(toks, q, TokenType::Semicolon) {
            (
                Some(
                    NodeView::VarDecl {
                        name: toks[p + 1].value,
                        declared_type: toks[p + 3].value,
                        init,
                    },
                ),
                q + 1,
            )
        } else {
            (None, q)
        }
    }
}

/// A statement at `p`: a variable declaration, or else nothing, moving past
/// the token.
pub open spec fn parse_node_spec(toks: Seq<TokenView>, p: int) -> (Option<NodeView>, int) {
    if keyword_at(toks, p, "let"@) {
        parse_var_decl_node_spec(toks, p)
    } else {
        (None, p + 1)
    }
}

/// The statements parsed from `p` until the end of the input or the first
/// one that fails to parse, and the position reached.
pub open spec fn parse_nodes_spec(toks: Seq<TokenView>, p: int) -> (Seq<NodeView>, int)
    decreases toks.len() - p,
{
    if at_end(toks, p) || p < 0 {
        (Seq::empty(), p)
    } else {
        let (r, q) = parse_node_spec(toks, p);
        match r {
            None => (Seq::empty(), q),
            Some(st) => if p < q <= toks.len() {
                let (rest, q2) = parse_nodes_spec(toks, q);
                (seq![st] + rest, q2)
            } else {
                (Seq::empty(), q)
            },
        }
    }
}

impl Parser {
    /// The views of the parser's tokens.
    pub open spec fn toks(&self) -> Seq<TokenView> {
        token_views(self.tokens@)
    }

    /// Whether the tokens, if any, end with an end-of-input token, so that
    /// reading never runs past them.
    pub open spec fn ready(&self) -> bool {
        self.tokens@.len() > 0 ==> self.toks().last().token_type == TokenType::EOF
    }

    /// A parser at the first of `tokens`.
    pub fn new(tokens: Vec<Token>) -> (p: Parser)
        ensures
            p.tokens == tokens,
            p.position == 0,
    {
        Parser { tokens, position: 0 }
    }

    /// Parses statements until the end of the input, or until a statement
    /// fails to parse, as `parse_nodes_spec` states.
    pub fn parse(&mut self) -> (ast: AST)
        requires
            old(self).ready(),
        ensures
            final(self).tokens == old(self).tokens,
            (ast@, final(self).position as int) == parse_nodes_spec(
                old(self).toks(),
                old(self).position as int,
            ),
    {
        let ghost toks = self.toks();
        let ghost p0 = self.position as int;
        let mut statements: Vec<Statement> = Vec::new();
        while !self.is_at_end()
            invariant
                self.tokens == old(self).tokens,
                self.ready(),
                toks == self.toks(),
                p0 == old(self).position,
                parse_nodes_spec(toks, p0) == ({
                    let (rest, q) = parse_nodes_spec(toks, self.position as int);
                    (nodes_view(statements@) + rest, q)
                }),
            decreases self.tokens@.len() - self.position,
        {
            let ghost p = self.position as int;
            match self.parse_statement() {
                Some(stmt) => {
                    let ghost before = statements@;
                    statements.push(stmt);
                    proof {
                        assert(statements@.drop_last() =~= before);
                        let (rest, q2) = parse_nodes_spec(toks, self.position as int);
                        assert(nodes_view(statements@) + rest =~= nodes_view(before) + (seq![stmt@] + rest));
                    }
                },
                None => {
                    proof {
                        assert(parse_nodes_spec(toks, p) == (Seq::<NodeView>::empty(), self.position as int));
                        assert(nodes_view(statements@) + Seq::<NodeView>::empty() =~= nodes_view(statements@));
                    }
                    return AST { statements };
                },
            }
        }
        assert(nodes_view(statements@) + Seq::<NodeView>::empty() =~= nodes_view(statements@));
        AST { statements }
    }

    /// Parses the statement at the current position, as `parse_node_spec`
    /// states.
    fn parse_statement(&mut self) -> (r: Option<Statement>)
        requires
            old(self).ready(),
            !at_end(old(self).toks(), old(self).position as int),
        ensures
            final(self).tokens == old(self).tokens,
            old(self).position < final(self).position <= old(self).tokens@.len(),
            ({
                let (v, q) = parse_node_spec(old(self).toks(), old(self).position as int);
                &&& final(self).position == q
                &&& match r {
                    Some(s) => v == Some(s@),
                    None => v is None,
                }
            }),
    {
        if self.is_keyword("let") {
            match self.parse_var_decl() {
                Some(d) => Some(Statement::VarDecl(d)),
                None => None,
            }
        } else {
            self.advance();
            None
        }
    }

    /// Parses a variable declaration at the current position, as
    /// `parse_var_decl_node_spec` states.
    fn parse_var_decl(&mut self) -> (r: Option<VarDecl>)
        requires
            old(self).ready(),
            keyword_at(old(self).toks(), old(self).position as int, "let"@),
        ensures
            final(self).tokens == old(self).tokens,
            old(self).position < final(self).position <= old(self).tokens@.len(),
            ({
                let (v, q) = parse_var_decl_node_spec(old(self).toks(), old(self).position as int);
                &&& final(self).position == q
                &&& match r {
                    Some(d) => v == Some(
                        NodeView::VarDecl {
                            name: d.name@,
                            declared_type: d.declared_type@,
                            init: crate::ast::models::node::opt_node_expr_view(&d.init),
                        },
                    ),
                    None => v is None,
                }
            }),
    {
        let ghost toks = self.toks();
        let ghost p = self.position as int;
        self.consume_keyword("let")?;
        let name_token = self.consume(TokenType::Identifier, "Expected identifier after 'let'")?;
        let name = name_token.value;
        self.consume(TokenType::Colon, "Expected ':' after identifier")?;
        let type_token = self.consume(
            TokenType::Type,
            "Expected a type keyword (e.g. float, string, etc.) after ':'",
        )?;
        let declared_type = type_token.value;
        let mut init: Option<Expression> = None;
        if self.match_token(TokenType::Equals) {
            self.advance();
            assert(self.position < self.tokens@.len());
            init = self.parse_expression();
        }
        self.consume(TokenType::Semicolon, "Expected ';' at the end of variable declaration")?;
        Some(VarDecl { name, declared_type, init })
    }

    /// Reads the current token as a literal or a name, moving past it; a
    /// token of another kind, or a number that does not parse, gives `None`.
    fn parse_expression(&mut self) -> (r: Option<Expression>)
        requires
            old(self).position < old(self).tokens@.len(),
        ensures
            final(self).tokens == old(self).tokens,
            final(self).position == old(self).position + 1,
            match r {
                Some(e) => literal_of(old(self).toks()[old(self).position as int]) == Some(e@),
                None => literal_of(old(self).toks()[old(self).position as int]) is None,
            },
    {
        let token = self.advance();
        match token.token_type {
            TokenType::Identifier => Some(Expression::Ident(token.value)),
            TokenType::Int => {
                match parse_i64(token.value.as_str()) {
                    Some(val) => Some(Expression::Int(val)),
                    None => None,
                }
            },
            TokenType::Float => {
                if parses_as_f64(token.value.as_str()) {
                    Some(Expression::Float(token.value))
                } else {
                    None
                }
            },
            TokenType::String => Some(Expression::Str(token.value)),
            TokenType::Bool => {
                let val = text_eq(token.value.as_str(), "true");
                Some(Expression::Bool(val))
            },
            _ => None,
        }
    }

    /// Whether the current position is past the tokens or at an
    /// end-of-input token.
    fn is_at_end(&self) -> (r: bool)
        ensures
            r == at_end(self.toks(), self.position as int),
    {
        self.position >= self.tokens.len() || self.tokens[self.position].token_type
            == TokenType::EOF
    }

    /// The current token, moving past it.
    fn advance(&mut self) -> (t: Token)
        requires
            old(self).position < old(self).tokens.len(),
        ensures
            t@ == old(self).toks()[old(self).position as int],
            final(self).tokens == old(self).tokens,
            final(self).position == old(self).position + 1,
    {
        let t = self.tokens[self.position].duplicate();
        self.position += 1;
        t
    }

    /// The current token.
    fn peek(&self) -> (t: &Token)
        requires
            self.position < self.tokens@.len(),
        ensures
            t@ == self.toks()[self.position as int],
    {
        &self.tokens[self.position]
    }

    /// Whether the current token is of kind `token_type`.
    fn check(&self, token_type: TokenType) -> (r: bool)
        ensures
            r == check_type(self.toks(), self.position as int, token_type),
    {
        if self.is_at_end() {
            false
        } else {
            self.peek().token_type == token_type
        }
    }

    /// Whether the current token is of kind `token_type`.
    fn match_token(&self, token_type: TokenType) -> (r: bool)
        ensures
            r == check_type(self.toks(), self.position as int, token_type),
    {
        self.check(token_type)
    }

    /// The current token if it is of kind `ttype`, moving past it; `None`,
    /// without moving, otherwise. `err_msg` describes what was expected.
    fn consume(&mut self, ttype: TokenType, err_msg: &str) -> (r: Option<Token>)
        ensures
            final(self).tokens == old(self).tokens,
            check_type(old(self).toks(), old(self).position as int, ttype) ==> (r matches Some(t)
                && t@ == old(self).toks()[old(self).position as int] && final(self).position
                == old(self).position + 1),
            !check_type(old(self).toks(), old(self).position as int, ttype) ==> r is None
                && final(self).position == old(self).position,
    {
        if self.check(ttype) {
            Some(self.advance())
        } else {
            None
        }
    }

    /// Whether the current token is the keyword `kw`.
    fn is_keyword(&self, kw: &str) -> (r: bool)
        ensures
            r == keyword_at(self.toks(), self.position as int, kw@),
    {
        if self.is_at_end() {
            return false;
        }
        let t = self.peek();
        t.token_type == TokenType::Keyword && text_eq(t.value.as_str(), kw)
    }

    /// The current token if it is the keyword `keyword`, moving past it;
    /// `None`, without moving, otherwise.
    fn consume_keyword(&mut self, keyword: &str) -> (r: Option<Token>)
        ensures
            final(self).tokens == old(self).tokens,
            keyword_at(old(self).toks(), old(self).position as int, keyword@) ==> (r matches Some(t)
                && t@ == old(self).toks()[old(self).position as int] && final(self).position
                == old(self).position + 1),
            !keyword_at(old(self).toks(), old(self).position as int, keyword@) ==> r is None
                && final(self).position == old(self).position,
    {
        if self.is_keyword(keyword) {
            Some(self.advance())
        } else {
            None
        }
    }
}

} // verus!
