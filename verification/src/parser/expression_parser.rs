use vstd::prelude::*;

use crate::lex::models::token::TokenView;
use crate::lex::models::token_type::TokenType;
use crate::parser::models::expression::{BinaryExpression, ExprView, Expression, expr_view};
use crate::parser::models::statement::opt_expr_view;
use crate::parser::parser::{check_op, check_type, texts_of, Parser};
use crate::text::{f64_literal, i64_literal, parse_i64, parses_as_f64, text_eq};

verus! {

/// The operators of the binary precedence levels: 4 for equality, 3 for
/// comparison, 2 for addition and subtraction, 1 for multiplication,
/// division and remainder.
pub open spec fn level_ops(level: nat) -> Seq<Seq<char>> {
    if level == 4 {
        seq!["=="@, "!="@]
    } else if level == 3 {
        seq!["<"@, "<="@, ">"@, ">="@]
    } else if level == 2 {
        seq!["+"@, "-"@]
    } else {
        seq!["*"@, "/"@, "%"@]
    }
}

/// The prefix operators.
pub open spec fn unary_ops() -> Seq<Seq<char>> {
    seq!["-"@, "!"@]
}

/// The expression that a literal, identifier or string token stands for,
/// if any: integer and floating-point texts must be literals that
/// `str::parse` accepts, and a boolean is `true` exactly when its text is
/// `true`.
pub open spec fn literal_of(t: TokenView) -> Option<ExprView> {
    if t.token_type == TokenType::Int {
        match i64_literal(t.value) {
            Some(v) => Some(ExprView::Int(v)),
            None => None,
        }
    } else if t.token_type == TokenType::Float {
        if f64_literal(t.value) {
            Some(ExprView::Float(t.value))
        } else {
            None
        }
    } else if t.token_type == TokenType::Identifier {
        Some(ExprView::Ident(t.value))
    } else if t.token_type == TokenType::Bool {
        Some(ExprView::Bool(t.value == "true"@))
    } else if t.token_type == TokenType::String {
        Some(ExprView::Str(t.value))
    } else {
        None
    }
}

/// A primary expression at `p`: a parenthesised expression, or the literal
/// or identifier of one token. The result and the position reached.
pub open spec fn parse_primary_spec(toks: Seq<TokenView>, p: int) -> (Option<ExprView>, int)
    decreases toks.len() - p, 0int,
{
    if check_type(toks, p, TokenType::LeftParen) {
        let (r, q) = parse_expression_spec(toks, p + 1);
        match r {
            None => (None, q),
            Some(e) => if check_type(toks, q, TokenType::RightParen) {
                (Some(e), q + 1)
            } else {
                (None, q)
            },
        }
    } else if 0 <= p < toks.len() {
        (literal_of(toks[p]), p + 1)
    } else {
        (None, p)
    }
}

/// A unary expression at `p`: a prefix operator applied to a unary
/// expression, read as `0 op operand`, or a primary expression.
pub open spec fn parse_unary_spec(toks: Seq<TokenView>, p: int) -> (Option<ExprView>, int)
    decreases toks.len() - p, 1int,
{
    if check_op(toks, p, unary_ops()) {
        let (r, q) = parse_unary_spec(toks, p + 1);
        match r {
            None => (None, q),
            Some(e) => (
                Some(ExprView::Binary(Box::new(ExprView::Int(0)), toks[p].value, Box::new(e))),
                q,
            ),
        }
    } else {
        parse_primary_spec(toks, p)
    }
}

/// An expression of precedence `level` at `p`: operands of the next level
/// joined from left to right by the operators of this level; level 0 is a
/// unary expression.
pub open spec fn parse_level_spec(toks: Seq<TokenView>, p: int, level: nat) -> (
    Option<ExprView>,
    int,
)
    decreases toks.len() - p, 2 * level + 2,
{
    if level == 0 {
        parse_unary_spec(toks, p)
    } else {
        let (r, q) = parse_level_spec(toks, p, (level - 1) as nat);
        match r {
            None => (None, q),
            Some(e) => if p < q <= toks.len() {
                level_loop_spec(toks, e, q, level)
            } else {
                (None, q)
            },
        }
    }
}

/// Continues an expression of precedence `level` whose left part `lhs` ends
/// at `q`: while an operator of the level follows, its right operand is
/// read and the two are joined.
pub open spec fn level_loop_spec(toks: Seq<TokenView>, lhs: ExprView, q: int, level: nat) -> (
    Option<ExprView>,
    int,
)
    decreases toks.len() - q, 2 * level + 1,
{
    if level >= 1 && check_op(toks, q, level_ops(level)) {
        let (r, q2) = parse_level_spec(toks, q + 1, (level - 1) as nat);
        match r {
            None => (None, q2),
            Some(rhs) => if q < q2 <= toks.len() {
                level_loop_spec(
                    toks,
                    ExprView::Binary(Box::new(lhs), toks[q].value, Box::new(rhs)),
                    q2,
                    level,
                )
            } else {
                (None, q2)
            },
        }
    } else {
        (Some(lhs), q)
    }
}

/// A full expression at `p`: the equality level.
pub open spec fn parse_expression_spec(toks: Seq<TokenView>, p: int) -> (Option<ExprView>, int)
    decreases toks.len() - p, 11int,
{
    parse_level_spec(toks, p, 4)
}

/// The parser can read from its position: the tokens end with an
/// end-of-input token and the position is within the tokens.
pub open spec fn ready(parser: &Parser) -> bool {
    &&& parser.tokens@.len() > 0
    &&& parser.toks().last().token_type == TokenType::EOF
    &&& parser.position < parser.tokens@.len()
}

/// What the expression parsers promise for an expression parsed by `spec`:
/// the tokens are unchanged, the result and the position reached are those
/// of the spec, the position does not pass the tokens, and on success the
/// parser has moved forward and can read on.
pub open spec fn parsed_as(
    before: &Parser,
    after: &Parser,
    r: &Option<Expression>,
    spec: (Option<ExprView>, int),
) -> bool {
    &&& after.tokens == before.tokens
    &&& (opt_expr_view(r), after.position as int) == spec
    &&& before.position <= after.position <= after.tokens@.len()
    &&& r is Some ==> ready(after) && after.position > before.position
}

proof fn lemma_step_keeps_ready(parser: &Parser, p: int)
    requires
        parser.tokens@.len() > 0,
        parser.toks().last().token_type == TokenType::EOF,
        0 <= p < parser.tokens@.len(),
        parser.toks()[p].token_type != TokenType::EOF,
    ensures
        p + 1 < parser.tokens@.len(),
{
}

/// Parses a full expression.
pub fn parse_expression(parser: &mut Parser) -> (r: Option<Expression>)
    requires
        ready(old(parser)),
    ensures
        parsed_as(old(parser), final(parser), &r, parse_expression_spec(old(parser).toks(), old(parser).position as int)),
    decreases old(parser).tokens@.len() - old(parser).position, 11int,
{
    parse_equality(parser)
}

/// Parses equality operators (`==`, `!=`).
pub fn parse_equality(parser: &mut Parser) -> (r: Option<Expression>)
    requires
        ready(old(parser)),
    ensures
        parsed_as(old(parser), final(parser), &r, parse_level_spec(old(parser).toks(), old(parser).position as int, 4)),
    decreases old(parser).tokens@.len() - old(parser).position, 10int,
{
    let ghost toks = parser.toks();
    let ghost p0 = parser.position as int;
    let mut expr = parse_comparison(parser)?;
    let ops: [&str; 2] = ["==", "!="];
    assert(texts_of(ops@) =~= level_ops(4));
    while parser.check_operator(&ops)
        invariant
            parser.tokens == old(parser).tokens,
            toks == parser.toks(),
            p0 == old(parser).position,
            ready(parser),
            p0 < parser.position,
            texts_of(ops@) == level_ops(4),
            level_loop_spec(toks, expr@, parser.position as int, 4) == parse_level_spec(toks, p0, 4),
        decreases parser.tokens@.len() - parser.position,
    {
        let op_token = parser.advance();
        proof { lemma_step_keeps_ready(parser, parser.position - 1); }
        let op = op_token.value;
        let right = parse_comparison(parser)?;
        expr = Expression::Binary(Box::new(BinaryExpression { left: expr, op, right }));
    }
    Some(expr)
}

/// Parses comparison operators (`<`, `<=`, `>`, `>=`).
pub fn parse_comparison(parser: &mut Parser) -> (r: Option<Expression>)
    requires
        ready(old(parser)),
    ensures
        parsed_as(old(parser), final(parser), &r, parse_level_spec(old(parser).toks(), old(parser).position as int, 3)),
    decreases old(parser).tokens@.len() - old(parser).position, 8int,
{
    let ghost toks = parser.toks();
    let ghost p0 = parser.position as int;
    let mut expr = parse_term(parser)?;
    let ops: [&str; 4] = ["<", "<=", ">", ">="];
    assert(texts_of(ops@) =~= level_ops(3));
    while parser.check_operator(&ops)
        invariant
            parser.tokens == old(parser).tokens,
            toks == parser.toks(),
            p0 == old(parser).position,
            ready(parser),
            p0 < parser.position,
            texts_of(ops@) == level_ops(3),
            level_loop_spec(toks, expr@, parser.position as int, 3) == parse_level_spec(toks, p0, 3),
        decreases parser.tokens@.len() - parser.position,
    {
        let op_token = parser.advance();
        proof { lemma_step_keeps_ready(parser, parser.position - 1); }
        let op = op_token.value;
        let right = parse_term(parser)?;
        expr = Expression::Binary(Box::new(BinaryExpression { left: expr, op, right }));
    }
    Some(expr)
}

/// Parses addition and subtraction operators (`+`, `-`).
pub fn parse_term(parser: &mut Parser) -> (r: Option<Expression>)
    requires
        ready(old(parser)),
    ensures
        parsed_as(old(parser), final(parser), &r, parse_level_spec(old(parser).toks(), old(parser).position as int, 2)),
    decreases old(parser).tokens@.len() - old(parser).position, 6int,
{
    let ghost toks = parser.toks();
    let ghost p0 = parser.position as int;
    let mut expr = parse_factor(parser)?;
    let ops: [&str; 2] = ["+", "-"];
    assert(texts_of(ops@) =~= level_ops(2));
    while parser.check_operator(&ops)
        invariant
            parser.tokens == old(parser).tokens,
            toks == parser.toks(),
            p0 == old(parser).position,
            ready(parser),
            p0 < parser.position,
            texts_of(ops@) == level_ops(2),
            level_loop_spec(toks, expr@, parser.position as int, 2) == parse_level_spec(toks, p0, 2),
        decreases parser.tokens@.len() - parser.position,
    {
        let op_token = parser.advance();
        proof { lemma_step_keeps_ready(parser, parser.position - 1); }
        let op = op_token.value;
        let right = parse_factor(parser)?;
        expr = Expression::Binary(Box::new(BinaryExpression { left: expr, op, right }));
    }
    Some(expr)
}

/// Parses multiplication, division, and remainder operators (`*`, `/`, `%`).
pub fn parse_factor(parser: &mut Parser) -> (r: Option<Expression>)
    requires
        ready(old(parser)),
    ensures
        parsed_as(old(parser), final(parser), &r, parse_level_spec(old(parser).toks(), old(parser).position as int, 1)),
    decreases old(parser).tokens@.len() - old(parser).position, 4int,
{
    let ghost toks = parser.toks();
    let ghost p0 = parser.position as int;
    let first = parse_unary(parser);
    proof {
        reveal_with_fuel(parse_level_spec, 2);
    }
    let mut expr = match first {
        Some(e) => e,
        None => {
            return None;
        },
    };
    let ops: [&str; 3] = ["*", "/", "%"];
    assert(texts_of(ops@) =~= level_ops(1));
    while parser.check_operator(&ops)
        invariant
            parser.tokens == old(parser).tokens,
            toks == parser.toks(),
            p0 == old(parser).position,
            ready(parser),
            p0 < parser.position,
            texts_of(ops@) == level_ops(1),
            level_loop_spec(toks, expr@, parser.position as int, 1) == parse_level_spec(toks, p0, 1),
        decreases parser.tokens@.len() - parser.position,
    {
        let ghost q = parser.position as int;
        let op_token = parser.advance();
        proof { lemma_step_keeps_ready(parser, parser.position - 1); }
        let op = op_token.value;
        let next = parse_unary(parser);
        proof {
            reveal_with_fuel(parse_level_spec, 2);
            assert(parse_level_spec(toks, q + 1, 0) == parse_unary_spec(toks, q + 1));
        }
        let right = match next {
            Some(e) => e,
            None => {
                return None;
            },
        };
        expr = Expression::Binary(Box::new(BinaryExpression { left: expr, op, right }));
    }
    Some(expr)
}

/// Parses prefix operators (`-`, `!`): `op operand` becomes `0 op operand`.
pub fn parse_unary(parser: &mut Parser) -> (r: Option<Expression>)
    requires
        ready(old(parser)),
    ensures
        parsed_as(old(parser), final(parser), &r, parse_unary_spec(old(parser).toks(), old(parser).position as int)),
    decreases old(parser).tokens@.len() - old(parser).position, 1int,
{
    let ops: [&str; 2] = ["-", "!"];
    assert(texts_of(ops@) =~= unary_ops());
    if parser.check_operator(&ops) {
        let op_token = parser.advance();
        proof { lemma_step_keeps_ready(parser, parser.position - 1); }
        let op = op_token.value;
        let right = parse_unary(parser)?;
        let zero = Expression::Int(0);
        assert(zero@ == ExprView::Int(0));
        let e = Expression::Binary(Box::new(BinaryExpression { left: zero, op, right }));
        assert(e@ == ExprView::Binary(Box::new(ExprView::Int(0)), op_token.value@, Box::new(right@)));
        return Some(e);
    }
    parse_primary(parser)
}

/// Parses a primary expression: a parenthesised expression, a literal or an
/// identifier.
pub fn parse_primary(parser: &mut Parser) -> (r: Option<Expression>)
    requires
        ready(old(parser)),
    ensures
        parsed_as(old(parser), final(parser), &r, parse_primary_spec(old(parser).toks(), old(parser).position as int)),
    decreases old(parser).tokens@.len() - old(parser).position, 0int,
{
    if parser.check(TokenType::LeftParen) {
        parser.advance();
        proof { lemma_step_keeps_ready(parser, parser.position - 1); }
        let expr = parse_expression(parser)?;
        parser.consume(TokenType::RightParen, "Expected ')'")?;
        proof { lemma_step_keeps_ready(parser, parser.position - 1); }
        return Some(expr);
    }
    let token = parser.advance();
    match token.token_type {
        TokenType::Int => {
            if let Some(val) = parse_i64(token.value.as_str()) {
                Some(Expression::Int(val))
            } else {
                None
            }
        },
        TokenType::Float => {
            if parses_as_f64(token.value.as_str()) {
                Some(Expression::Float(token.value))
            } else {
                None
            }
        },
        TokenType::Identifier => Some(Expression::Ident(token.value)),
        TokenType::Bool => {
            let b = text_eq(token.value.as_str(), "true");
            Some(Expression::Bool(b))
        },
        TokenType::String => Some(Expression::Str(token.value)),
        _ => None,
    }
}

} // verus!
