//! What parsing promises: how operators of different precedence and of
//! one precedence group their operands, and where statements end.

use vstd::prelude::*;

use crate::lex::models::token::TokenView;
use crate::lex::models::token_type::TokenType;
use crate::parser::expression_parser::{
    level_loop_spec, level_ops, literal_of, parse_expression_spec, parse_level_spec,
    parse_primary_spec, parse_unary_spec, unary_ops,
};
use crate::parser::models::expression::ExprView;
use crate::parser::models::statement::StmtView;
use crate::parser::parser::{check_op, check_type};
use crate::parser::statement_parser::parse_statement_spec;

verus! {

/// How loosely a binary operator binds: `*`, `/` and `%` bind tightest
/// (1), then `+` and `-` (2), then `<`, `<=`, `>` and `>=` (3), then `==`
/// and `!=` (4); anything else is no binary operator (0).
pub open spec fn looseness(op: Seq<char>) -> nat {
    if op == "*"@ || op == "/"@ || op == "%"@ {
        1
    } else if op == "+"@ || op == "-"@ {
        2
    } else if op == "<"@ || op == "<="@ || op == ">"@ || op == ">="@ {
        3
    } else if op == "=="@ || op == "!="@ {
        4
    } else {
        0
    }
}

/// The expression that the literal or name at `p` stands for.
pub open spec fn operand(toks: Seq<TokenView>, p: int) -> ExprView {
    literal_of(toks[p])->0
}

/// Whether the token at `p` is a literal or a name.
pub open spec fn operand_at(toks: Seq<TokenView>, p: int) -> bool {
    0 <= p < toks.len() && literal_of(toks[p]) is Some
}

/// Whether the token at `p` is a binary operator.
pub open spec fn operator_at(toks: Seq<TokenView>, p: int) -> bool {
    &&& 0 <= p < toks.len()
    &&& toks[p].token_type == TokenType::Operator
    &&& looseness(toks[p].value) >= 1
}

/// Whether the token at `p` ends an expression: it is there and is no
/// operator.
pub open spec fn ends_expression(toks: Seq<TokenView>, p: int) -> bool {
    0 <= p < toks.len() && toks[p].token_type != TokenType::Operator
}

proof fn lemma_level_ops(op: Seq<char>)
    ensures
        level_ops(1).contains(op) <==> looseness(op) == 1,
        level_ops(2).contains(op) <==> looseness(op) == 2,
        level_ops(3).contains(op) <==> looseness(op) == 3,
        level_ops(4).contains(op) <==> looseness(op) == 4,
{
    reveal_strlit("+");
    reveal_strlit("-");
    reveal_strlit("*");
    reveal_strlit("/");
    reveal_strlit("%");
    reveal_strlit("==");
    reveal_strlit("!=");
    reveal_strlit("<");
    reveal_strlit("<=");
    reveal_strlit(">");
    reveal_strlit(">=");
    let ops1 = seq!["*"@, "/"@, "%"@, "+"@, "-"@, "<"@, "<="@, ">"@, ">="@, "=="@, "!="@];
    let lv = seq![1nat, 1, 1, 2, 2, 3, 3, 3, 3, 4, 4];
    let ix = seq![0int, 1, 2, 0, 1, 0, 1, 2, 3, 0, 1];
    if looseness(op) != 0 {
        assert(exists|m: int| 0 <= m < 11 && ops1[m] == op);
        let m = choose|m: int| 0 <= m < 11 && ops1[m] == op;
        assert(op.len() >= 1);
        if op.len() == 1 {
            assert(op[0] == ops1[m][0]);
        } else {
            assert(op[0] == ops1[m][0] && op[1] == ops1[m][1]);
        }
        assert(looseness(op) == lv[m]);
        assert(level_ops(lv[m])[ix[m]] == op);
    }
    assert forall|j: nat| 1 <= j <= 4 && #[trigger] level_ops(j).contains(op) implies looseness(op)
        == j by {
        let i = choose|i: int| 0 <= i < level_ops(j).len() && level_ops(j)[i] == op;
        if j == 1 {
            assert(i == 0 || i == 1 || i == 2);
            assert(op.len() == 1 && (op[0] == '*' || op[0] == '/' || op[0] == '%'));
        } else if j == 2 {
            assert(i == 0 || i == 1);
            assert(op.len() == 1 && (op[0] == '+' || op[0] == '-'));
        } else if j == 3 {
            assert(i == 0 || i == 1 || i == 2 || i == 3);
            assert(op[0] == '<' || op[0] == '>');
        } else {
            assert(i == 0 || i == 1);
            assert(op.len() == 2 && op[1] == '=' && (op[0] == '=' || op[0] == '!'));
        }
    }
    assert(level_ops(1).contains(op) ==> looseness(op) == 1);
    assert(level_ops(2).contains(op) ==> looseness(op) == 2);
    assert(level_ops(3).contains(op) ==> looseness(op) == 3);
    assert(level_ops(4).contains(op) ==> looseness(op) == 4);
}

/// A literal or a name that no operator of a level up to `level` follows
/// is read alone at that level.
proof fn lemma_operand_alone(toks: Seq<TokenView>, p: int, level: nat)
    requires
        operand_at(toks, p),
        forall|k: nat| 1 <= k <= level ==> !check_op(toks, p + 1, #[trigger] level_ops(k)),
    ensures
        parse_level_spec(toks, p, level) == (Some(operand(toks, p)), p + 1),
    decreases level,
{
    if level == 0 {
        assert(toks[p].token_type != TokenType::Operator);
        assert(toks[p].token_type != TokenType::LeftParen);
        assert(!check_op(toks, p, unary_ops()));
        assert(parse_primary_spec(toks, p) == (Some(operand(toks, p)), p + 1));
        assert(parse_unary_spec(toks, p) == (Some(operand(toks, p)), p + 1));
    } else {
        lemma_operand_alone(toks, p, (level - 1) as nat);
        assert(!check_op(toks, p + 1, level_ops(level)));
        assert(level_loop_spec(toks, operand(toks, p), p + 1, level) == (
            Some(operand(toks, p)),
            p + 1,
        ));
    }
}

/// An expression read at `p` up to level `from`, followed at `q` by no
/// operator of the levels above it up to `level`, is the whole expression
/// at `level`.
proof fn lemma_rises(toks: Seq<TokenView>, p: int, e: ExprView, q: int, from: nat, level: nat)
    requires
        from <= level,
        p < q <= toks.len(),
        forall|k: nat| from < k <= level ==> !check_op(toks, q, #[trigger] level_ops(k)),
        parse_level_spec(toks, p, from) == (Some(e), q),
    ensures
        parse_level_spec(toks, p, level) == (Some(e), q),
    decreases level,
{
    if level > from {
        lemma_rises(toks, p, e, q, from, (level - 1) as nat);
        assert(!check_op(toks, q, level_ops(level)));
        assert(level_loop_spec(toks, e, q, level) == (Some(e), q));
    }
}

/// How two binary operators group three operands: the one that binds
/// tighter is applied first, and of two that bind alike the left one is.
/// So `a + b / c` reads as `a + (b / c)`, `a * b - c` as `(a * b) - c`,
/// `a - b + c` as `(a - b) + c`, `a < b + c` as `a < (b + c)` and
/// `a == b < c` as `a == (b < c)`, whatever the operands.
pub proof fn law_tighter_operator_applies_first(toks: Seq<TokenView>, p: int)
    requires
        operand_at(toks, p),
        operator_at(toks, p + 1),
        operand_at(toks, p + 2),
        operator_at(toks, p + 3),
        operand_at(toks, p + 4),
        ends_expression(toks, p + 5),
    ensures
        ({
            let a = operand(toks, p);
            let b = operand(toks, p + 2);
            let c = operand(toks, p + 4);
            let first = toks[p + 1].value;
            let second = toks[p + 3].value;
            parse_expression_spec(toks, p) == (
                Some(
                    if looseness(first) <= looseness(second) {
                        ExprView::Binary(
                            Box::new(ExprView::Binary(Box::new(a), first, Box::new(b))),
                            second,
                            Box::new(c),
                        )
                    } else {
                        ExprView::Binary(
                            Box::new(a),
                            first,
                            Box::new(ExprView::Binary(Box::new(b), second, Box::new(c))),
                        )
                    },
                ),
                p + 5,
            )
        }),
{
    let a = operand(toks, p);
    let b = operand(toks, p + 2);
    let c = operand(toks, p + 4);
    let first = toks[p + 1].value;
    let second = toks[p + 3].value;
    lemma_level_ops(first);
    lemma_level_ops(second);
    let k1 = looseness(first);
    let k3 = looseness(second);
    assert(forall|k: nat| 1 <= k <= 4 ==> (check_op(toks, p + 1, #[trigger] level_ops(k)) <==> k
        == k1));
    assert(forall|k: nat| 1 <= k <= 4 ==> (check_op(toks, p + 3, #[trigger] level_ops(k)) <==> k
        == k3));
    assert(forall|k: nat| 1 <= k <= 4 ==> !check_op(toks, p + 5, #[trigger] level_ops(k)));
    lemma_operand_alone(toks, p, (k1 - 1) as nat);
    if k1 <= k3 {
        let ab = ExprView::Binary(Box::new(a), first, Box::new(b));
        let abc = ExprView::Binary(Box::new(ab), second, Box::new(c));
        lemma_operand_alone(toks, p + 2, (k1 - 1) as nat);
        lemma_operand_alone(toks, p + 4, (k3 - 1) as nat);
        if k1 == k3 {
            assert(level_loop_spec(toks, abc, p + 5, k1) == (Some(abc), p + 5));
            assert(level_loop_spec(toks, ab, p + 3, k1) == (Some(abc), p + 5));
            assert(level_loop_spec(toks, a, p + 1, k1) == (Some(abc), p + 5));
            assert(parse_level_spec(toks, p, k1) == (Some(abc), p + 5));
            lemma_rises(toks, p, abc, p + 5, k1, 4);
        } else {
            assert(level_loop_spec(toks, ab, p + 3, k1) == (Some(ab), p + 3));
            assert(level_loop_spec(toks, a, p + 1, k1) == (Some(ab), p + 3));
            assert(parse_level_spec(toks, p, k1) == (Some(ab), p + 3));
            lemma_rises(toks, p, ab, p + 3, k1, (k3 - 1) as nat);
            assert(level_loop_spec(toks, abc, p + 5, k3) == (Some(abc), p + 5));
            assert(level_loop_spec(toks, ab, p + 3, k3) == (Some(abc), p + 5));
            assert(parse_level_spec(toks, p, k3) == (Some(abc), p + 5));
            lemma_rises(toks, p, abc, p + 5, k3, 4);
        }
    } else {
        let bc = ExprView::Binary(Box::new(b), second, Box::new(c));
        let abc = ExprView::Binary(Box::new(a), first, Box::new(bc));
        lemma_operand_alone(toks, p + 2, (k3 - 1) as nat);
        lemma_operand_alone(toks, p + 4, (k3 - 1) as nat);
        assert(level_loop_spec(toks, bc, p + 5, k3) == (Some(bc), p + 5));
        assert(level_loop_spec(toks, b, p + 3, k3) == (Some(bc), p + 5));
        assert(parse_level_spec(toks, p + 2, k3) == (Some(bc), p + 5));
        lemma_rises(toks, p + 2, bc, p + 5, k3, (k1 - 1) as nat);
        assert(level_loop_spec(toks, abc, p + 5, k1) == (Some(abc), p + 5));
        assert(level_loop_spec(toks, a, p + 1, k1) == (Some(abc), p + 5));
        assert(parse_level_spec(toks, p, k1) == (Some(abc), p + 5));
        lemma_rises(toks, p, abc, p + 5, k1, 4);
    }
}

proof fn lemma_primary_forward(toks: Seq<TokenView>, p: int)
    ensures
        parse_primary_spec(toks, p).1 >= p,
    decreases toks.len() - p, 0int,
{
    if check_type(toks, p, TokenType::LeftParen) {
        lemma_level_forward(toks, p + 1, 4);
    }
}

proof fn lemma_unary_forward(toks: Seq<TokenView>, p: int)
    ensures
        parse_unary_spec(toks, p).1 >= p,
    decreases toks.len() - p, 1int,
{
    if check_op(toks, p, unary_ops()) {
        lemma_unary_forward(toks, p + 1);
    } else {
        lemma_primary_forward(toks, p);
    }
}

/// Reading an expression never moves back.
proof fn lemma_level_forward(toks: Seq<TokenView>, p: int, level: nat)
    ensures
        parse_level_spec(toks, p, level).1 >= p,
    decreases toks.len() - p, 2 * level + 2,
{
    if level == 0 {
        lemma_unary_forward(toks, p);
    } else {
        lemma_level_forward(toks, p, (level - 1) as nat);
        let (r, q) = parse_level_spec(toks, p, (level - 1) as nat);
        if r is Some && p < q <= toks.len() {
            lemma_loop_forward(toks, r->0, q, level);
        }
    }
}

proof fn lemma_loop_forward(toks: Seq<TokenView>, lhs: ExprView, q: int, level: nat)
    ensures
        level_loop_spec(toks, lhs, q, level).1 >= q,
    decreases toks.len() - q, 2 * level + 1,
{
    if level >= 1 && check_op(toks, q, level_ops(level)) {
        lemma_level_forward(toks, q + 1, (level - 1) as nat);
        let (r, q2) = parse_level_spec(toks, q + 1, (level - 1) as nat);
        if r is Some && q < q2 <= toks.len() {
            let rhs = r->0;
            lemma_loop_forward(
                toks,
                ExprView::Binary(Box::new(lhs), toks[q].value, Box::new(rhs)),
                q2,
                level,
            );
        }
    }
}

/// Every statement that is read ends with its `;`: the parser goes on
/// right after the semicolon that closes it, never before.
pub proof fn law_statement_ends_after_its_semicolon(toks: Seq<TokenView>, p: int)
    requires
        0 <= p,
        parse_statement_spec(toks, p).0 is Some,
    ensures
        ({
            let q = parse_statement_spec(toks, p).1;
            &&& p < q <= toks.len()
            &&& toks[q - 1].token_type == TokenType::Semicolon
        }),
{
    lemma_level_forward(toks, p + 1, 4);
    lemma_level_forward(toks, p + 2, 4);
    lemma_level_forward(toks, p + 5, 4);
}

/// A declaration without a value, `let name: type;`, is the five tokens
/// it is written with: it declares `name` of type `type` with no initial
/// value, and what follows it is read from the token after its `;`.
pub proof fn law_declaration_without_value(toks: Seq<TokenView>, p: int)
    requires
        0 <= p,
        p + 4 < toks.len(),
        toks[p].token_type == TokenType::Keyword,
        toks[p].value == "let"@,
        toks[p + 1].token_type == TokenType::Identifier,
        toks[p + 2].token_type == TokenType::Colon,
        toks[p + 3].token_type == TokenType::Type,
        toks[p + 4].token_type == TokenType::Semicolon,
    ensures
        parse_statement_spec(toks, p) == (
            Some(
                StmtView::VarDeclaration {
                    name: toks[p + 1].value,
                    declared_type: toks[p + 3].value,
                    init: None,
                },
            ),
            p + 5,
        ),
{
}

/// A declaration with a value that is one literal or name,
/// `let name: type = value;`, declares `name` of type `type` with that
/// value, and what follows it is read from the token after its `;`.
pub proof fn law_declaration_with_value(toks: Seq<TokenView>, p: int)
    requires
        0 <= p,
        p + 6 < toks.len(),
        toks[p].token_type == TokenType::Keyword,
        toks[p].value == "let"@,
        toks[p + 1].token_type == TokenType::Identifier,
        toks[p + 2].token_type == TokenType::Colon,
        toks[p + 3].token_type == TokenType::Type,
        toks[p + 4].token_type == TokenType::Equals,
        operand_at(toks, p + 5),
        toks[p + 6].token_type == TokenType::Semicolon,
    ensures
        parse_statement_spec(toks, p) == (
            Some(
                StmtView::VarDeclaration {
                    name: toks[p + 1].value,
                    declared_type: toks[p + 3].value,
                    init: Some(operand(toks, p + 5)),
                },
            ),
            p + 7,
        ),
{
    assert(forall|k: nat| 1 <= k <= 4 ==> !check_op(toks, p + 6, #[trigger] level_ops(k)));
    lemma_operand_alone(toks, p + 5, 4);
}

/// A prefix `-` or `!` applies to the operand after it, read as that
/// operator with `0` on its left: `-a` is `0 - a`.
pub proof fn law_prefix_operator(toks: Seq<TokenView>, p: int)
    requires
        0 <= p < toks.len(),
        toks[p].token_type == TokenType::Operator,
        toks[p].value == "-"@ || toks[p].value == "!"@,
        operand_at(toks, p + 1),
        ends_expression(toks, p + 2),
    ensures
        parse_expression_spec(toks, p) == (
            Some(
                ExprView::Binary(
                    Box::new(ExprView::Int(0)),
                    toks[p].value,
                    Box::new(operand(toks, p + 1)),
                ),
            ),
            p + 2,
        ),
{
    let e = ExprView::Binary(Box::new(ExprView::Int(0)), toks[p].value, Box::new(operand(toks, p + 1)));
    if toks[p].value == "-"@ {
        assert(unary_ops()[0] == toks[p].value);
    } else {
        assert(unary_ops()[1] == toks[p].value);
    }
    assert(check_op(toks, p, unary_ops()));
    lemma_operand_alone(toks, p + 1, 0);
    assert(parse_unary_spec(toks, p + 1) == (Some(operand(toks, p + 1)), p + 2));
    assert(parse_unary_spec(toks, p) == (Some(e), p + 2));
    assert(parse_level_spec(toks, p, 0) == (Some(e), p + 2));
    assert(forall|k: nat| 1 <= k <= 4 ==> !check_op(toks, p + 2, #[trigger] level_ops(k)));
    lemma_rises(toks, p, e, p + 2, 0, 4);
}

} // verus!
