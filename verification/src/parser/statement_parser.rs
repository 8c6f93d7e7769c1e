use vstd::prelude::*;

use crate::lex::models::token::TokenView;
use crate::lex::models::token_type::TokenType;
use crate::parser::expression_parser::{parse_expression, parse_expression_spec, ready};
use crate::parser::models::expression::ExprView;
use crate::parser::models::statement::{
    opt_expr_view, stmt_view, Statement, StmtView, VarAffection, VarDeclaration,
};
use crate::parser::parser::{at_end, check_type, keyword_at, Parser};

verus! {

/// `let name: type = init;` at `p`, the `= init` part being optional; an
/// initial value that fails to parse leaves the declaration without one.
pub open spec fn parse_var_decl_spec(toks: Seq<TokenView>, p: int) -> (Option<StmtView>, int) {
    if !keyword_at(toks, p, "let"@) {
        (None, p)
    } else if !check_type(toks, p + 1, TokenType::Identifier) {
        (None, p + 1)
    } else if !check_type(toks, p + 2, TokenType::Colon) {
        (None, p + 2)
    } else if !check_type(toks, p + 3, TokenType::Type) {
        (None, p + 3)
    } else {
        let (init, q) = if check_type(toks, p + 4, TokenType::Equals) {
            parse_expression_spec(toks, p + 5)
        } else {
            (None, p + 4)
        };
        if check_type(toks, q, TokenType::Semicolon) {
            (
                Some(
                    StmtView::VarDeclaration {
                        name: toks[p + 1].value,
                        declared_type: toks[p + 3].value,
                        init,
                    },
                ),
                q + 1,
            )
        } else {
            (None, q)
        }
    }
}

/// `return expr;` or `return;` at `p`.
pub open spec fn parse_return_spec(toks: Seq<TokenView>, p: int) -> (Option<StmtView>, int) {
    if !keyword_at(toks, p, "return"@) {
        (None, p)
    } else if check_type(toks, p + 1, TokenType::Semicolon) {
        (Some(StmtView::Return { value: None }), p + 2)
    } else {
        let (r, q) = parse_expression_spec(toks, p + 1);
        match r {
            None => (None, q),
            Some(e) => if check_type(toks, q, TokenType::Semicolon) {
                (Some(StmtView::Return { value: Some(e) }), q + 1)
            } else {
                (None, q)
            },
        }
    }
}

/// `name = value;` at `p`.
pub open spec fn parse_var_affection_spec(toks: Seq<TokenView>, p: int) -> (Option<StmtView>, int) {
    if !check_type(toks, p, TokenType::Identifier) {
        (None, p)
    } else if !check_type(toks, p + 1, TokenType::Equals) {
        (None, p + 1)
    } else {
        let (r, q) = parse_expression_spec(toks, p + 2);
        match r {
            None => (None, q),
            Some(e) => if check_type(toks, q, TokenType::Semicolon) {
                (Some(StmtView::VarAffection { name: toks[p].value, value: e }), q + 1)
            } else {
                (None, q)
            },
        }
    }
}

/// Whether an assignment starts at `p`: an identifier followed by `=`.
pub open spec fn var_affection_at(toks: Seq<TokenView>, p: int) -> bool {
    check_type(toks, p, TokenType::Identifier) && p + 1 < toks.len() && toks[p + 1].token_type
        == TokenType::Equals
}

/// One statement at `p`: a declaration after `let`, a return after
/// `return`, an assignment after `identifier =`; any other token is skipped
/// and gives no statement.
pub open spec fn parse_statement_spec(toks: Seq<TokenView>, p: int) -> (Option<StmtView>, int) {
    if keyword_at(toks, p, "let"@) {
        parse_var_decl_spec(toks, p)
    } else if keyword_at(toks, p, "return"@) {
        parse_return_spec(toks, p)
    } else if var_affection_at(toks, p) {
        parse_var_affection_spec(toks, p)
    } else {
        (None, p + 1)
    }
}

/// The view of an optional statement.
pub open spec fn opt_stmt_view(s: &Option<Statement>) -> Option<StmtView> {
    match s {
        Some(x) => Some(stmt_view(x)),
        None => None,
    }
}

/// What the statement parsers promise for a statement parsed by `spec`:
/// the tokens are unchanged, the result and the position reached are those
/// of the spec, the position does not pass the tokens, and on success the
/// parser can read on.
pub open spec fn stmt_parsed_as(
    before: &Parser,
    after: &Parser,
    r: &Option<Statement>,
    spec: (Option<StmtView>, int),
) -> bool {
    &&& after.tokens == before.tokens
    &&& (opt_stmt_view(r), after.position as int) == spec
    &&& after.position <= after.tokens@.len()
    &&& after.position > before.position
    &&& r is Some ==> ready(after)
}

proof fn lemma_next_ready(parser: &Parser)
    requires
        parser.tokens@.len() > 0,
        parser.toks().last().token_type == TokenType::EOF,
        0 < parser.position <= parser.tokens@.len(),
        parser.toks()[parser.position - 1].token_type != TokenType::EOF,
    ensures
        ready(parser),
{
}

/// Parses a single statement: a variable declaration, a return or an
/// assignment; on any other token, skips it and gives `None`.
pub fn parse_statement(parser: &mut Parser) -> (r: Option<Statement>)
    requires
        ready(old(parser)),
    ensures
        stmt_parsed_as(old(parser), final(parser), &r, parse_statement_spec(old(parser).toks(), old(parser).position as int)),
{
    if parser.is_keyword("let") {
        match parse_var_decl(parser) {
            Some(d) => Some(Statement::VarDeclaration(d)),
            None => None,
        }
    } else if parser.is_keyword("return") {
        parse_return_stmt(parser)
    } else if is_var_affection(parser) {
        match parse_var_affection(parser) {
            Some(a) => Some(Statement::VarAffection(a)),
            None => None,
        }
    } else {
        parser.advance();
        None
    }
}

/// Parses a variable declaration of the form `let x: type = expr;`.
fn parse_var_decl(parser: &mut Parser) -> (r: Option<VarDeclaration>)
    requires
        ready(old(parser)),
        keyword_at(old(parser).toks(), old(parser).position as int, "let"@),
    ensures
        stmt_parsed_as(
            old(parser),
            final(parser),
            &(match r {
                Some(d) => Some(Statement::VarDeclaration(d)),
                None => None,
            }),
            parse_var_decl_spec(old(parser).toks(), old(parser).position as int),
        ),
{
    let ghost toks = parser.toks();
    let ghost p = parser.position as int;
    parser.consume_keyword("let")?;
    proof { lemma_next_ready(parser); }
    let name_token = parser.consume(TokenType::Identifier, "Expected identifier after 'let'")?;
    proof { lemma_next_ready(parser); }
    let name = name_token.value;
    parser.consume(TokenType::Colon, "Expected ':' after identifier")?;
    proof { lemma_next_ready(parser); }
    let type_token = parser.consume(
        TokenType::Type,
        "Expected a type keyword (e.g. float, string) after ':'",
    )?;
    proof { lemma_next_ready(parser); }
    let declared_type = type_token.value;
    let mut init = None;
    if parser.check(TokenType::Equals) {
        parser.advance();
        proof { lemma_next_ready(parser); }
        init = parse_expression(parser);
    }
    parser.consume(TokenType::Semicolon, "Expected ';' at the end of variable declaration")?;
    proof { lemma_next_ready(parser); }
    Some(VarDeclaration { name, declared_type, init })
}

/// Parses a return statement, `return expr;` or `return;`.
fn parse_return_stmt(parser: &mut Parser) -> (r: Option<Statement>)
    requires
        ready(old(parser)),
        keyword_at(old(parser).toks(), old(parser).position as int, "return"@),
    ensures
        stmt_parsed_as(old(parser), final(parser), &r, parse_return_spec(old(parser).toks(), old(parser).position as int)),
{
    parser.consume_keyword("return")?;
    proof { lemma_next_ready(parser); }
    let expr = if parser.check(TokenType::Semicolon) {
        None
    } else {
        Some(parse_expression(parser)?)
    };
    parser.consume(TokenType::Semicolon, "Expected ';' after return")?;
    proof { lemma_next_ready(parser); }
    Some(Statement::Return(expr))
}

/// Parses an assignment `name = expr;`.
fn parse_var_affection(parser: &mut Parser) -> (r: Option<VarAffection>)
    requires
        ready(old(parser)),
        check_type(old(parser).toks(), old(parser).position as int, TokenType::Identifier),
    ensures
        stmt_parsed_as(
            old(parser),
            final(parser),
            &(match r {
                Some(a) => Some(Statement::VarAffection(a)),
                None => None,
            }),
            parse_var_affection_spec(old(parser).toks(), old(parser).position as int),
        ),
{
    let name_token = parser.consume(TokenType::Identifier, "Expected identifier for variable affection")?;
    proof { lemma_next_ready(parser); }
    let name = name_token.value;
    parser.consume(TokenType::Equals, "Expected '=' in variable affection")?;
    proof { lemma_next_ready(parser); }
    let value_expr = parse_expression(parser)?;
    parser.consume(TokenType::Semicolon, "Expected ';' at the end of variable affection")?;
    proof { lemma_next_ready(parser); }
    Some(VarAffection { name, value: value_expr })
}

/// Whether an assignment starts at the current position: an identifier
/// followed by `=`.
pub fn is_var_affection(parser: &Parser) -> (r: bool)
    ensures
        r == var_affection_at(parser.toks(), parser.position as int),
{
    if parser.is_at_end() {
        return false;
    }
    if !parser.check(TokenType::Identifier) {
        return false;
    }
    let current_position = parser.position;
    assert(current_position < parser.tokens.len());
    let next_position = current_position + 1;
    if next_position >= parser.tokens.len() {
        return false;
    }
    let next_token = &parser.tokens[next_position];
    next_token.token_type == TokenType::Equals
}

/// The statements parsed from `p` until the end of the input or the first
/// statement that fails to parse, and the position reached.
pub open spec fn parse_statements_spec(toks: Seq<TokenView>, p: int) -> (Seq<StmtView>, int)
    decreases toks.len() - p,
{
    if at_end(toks, p) || p < 0 {
        (Seq::empty(), p)
    } else {
        let (r, q) = parse_statement_spec(toks, p);
        match r {
            None => (Seq::empty(), q),
            Some(st) => if p < q <= toks.len() {
                let (rest, q2) = parse_statements_spec(toks, q);
                (seq![st] + rest, q2)
            } else {
                (Seq::empty(), q)
            },
        }
    }
}

} // verus!
