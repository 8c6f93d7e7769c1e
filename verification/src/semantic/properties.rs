use vstd::prelude::*;

use crate::parser::models::statement::StmtView;
use crate::parser::models::expression::ExprView;
use crate::semantic::analyzer::{
    analyze_cases_spec, analyze_stmt_spec, arithmetic_op, check_expr_spec, check_exprs_spec,
    comparison_op, analyze_stmts_spec, condition_errors, define_in,
    define_params_spec, enter, enter_state, exit, exit_state, expr_type_spec, param_types,
    with_errors, AnalysisState, Scopes,
};
use crate::semantic::diagnostics;
use crate::semantic::models::semantic::{
    already_defined_message, lookup, resolve_in, scope_view, scopes_of, SymbolTable, SymbolTypeView,
    SymbolView,
};

verus! {

/// Looking a name up in a scope with one more entry finds what the scope
/// had under it, or else the new entry when it has that name.
pub proof fn lemma_lookup_push(
    scope: Seq<(Seq<char>, SymbolView)>,
    entry: (Seq<char>, SymbolView),
    name: Seq<char>,
)
    ensures
        lookup(scope.push(entry), name) == match lookup(scope, name) {
            Some(s) => Some(s),
            None => if entry.0 == name {
                Some(entry.1)
            } else {
                None
            },
        },
    decreases scope.len(),
{
    if scope.len() > 0 {
        assert(scope.push(entry)[0] == scope[0]);
        assert(scope.push(entry).drop_first() =~= scope.drop_first().push(entry));
        lemma_lookup_push(scope.drop_first(), entry, name);
    } else {
        assert(scope.push(entry).drop_first() =~= Seq::<(Seq<char>, SymbolView)>::empty());
        assert(lookup(Seq::<(Seq<char>, SymbolView)>::empty(), name) is None);
    }
}

/// Resolving a name in scopes whose innermost scope was replaced looks the
/// name up in the new innermost scope, then in the same enclosing scopes.
pub proof fn lemma_resolve_update_innermost(
    scopes: Scopes,
    scope: Seq<(Seq<char>, SymbolView)>,
    name: Seq<char>,
)
    requires
        scopes.len() >= 1,
    ensures
        resolve_in(scopes.update(0, scope), name) == match lookup(scope, name) {
            Some(s) => Some(s),
            None => resolve_in(scopes.drop_first(), name),
        },
{
    assert(scopes.update(0, scope).drop_first() =~= scopes.drop_first());
}

/// Once `name` is defined in a scope that did not have it, it resolves to
/// the symbol just defined, and the definition reports no error.
pub proof fn law_define_then_resolve(scopes: Scopes, name: Seq<char>, sym: SymbolView)
    requires
        scopes.len() >= 1,
        lookup(scopes[0], name) is None,
    ensures
        define_in(scopes, name, sym).1 == Seq::<Seq<char>>::empty(),
        resolve_in(define_in(scopes, name, sym).0, name) == Some(sym),
{
    lemma_lookup_push(scopes[0], (name, sym), name);
    lemma_resolve_update_innermost(scopes, scopes[0].push((name, sym)), name);
}

/// A definition changes what no other name resolves to.
pub proof fn law_define_keeps_other_names(
    scopes: Scopes,
    name: Seq<char>,
    sym: SymbolView,
    other: Seq<char>,
)
    requires
        scopes.len() >= 1,
        other != name,
    ensures
        resolve_in(define_in(scopes, name, sym).0, other) == resolve_in(scopes, other),
{
    if lookup(scopes[0], name) is None {
        lemma_lookup_push(scopes[0], (name, sym), other);
        lemma_resolve_update_innermost(scopes, scopes[0].push((name, sym)), other);
    }
}

/// A second definition of a name in one scope is refused with its message,
/// and leaves the scopes as they were.
pub proof fn law_redefinition_is_refused(scopes: Scopes, name: Seq<char>, sym: SymbolView)
    requires
        scopes.len() >= 1,
        lookup(scopes[0], name) is Some,
    ensures
        define_in(scopes, name, sym) == (scopes, seq![already_defined_message(name)]),
{
}

/// Leaving a scope just entered gives back the scopes as they were.
pub proof fn law_exit_undoes_enter(scopes: Scopes)
    requires
        scopes.len() >= 1,
    ensures
        exit(enter(scopes)) == scopes,
{
    assert(enter(scopes).drop_first() =~= scopes);
}

/// A definition in an inner scope shadows any outer one while the scope
/// lasts, and is forgotten when it is left.
pub proof fn law_inner_definition_shadows(scopes: Scopes, name: Seq<char>, sym: SymbolView)
    requires
        scopes.len() >= 1,
    ensures
        resolve_in(define_in(enter(scopes), name, sym).0, name) == Some(sym),
        exit(define_in(enter(scopes), name, sym).0) == scopes,
{
    let inner = enter(scopes);
    assert(inner[0] =~= Seq::<(Seq<char>, SymbolView)>::empty());
    law_define_then_resolve(inner, name, sym);
    assert(define_in(inner, name, sym).0.drop_first() =~= scopes);
}

/// What `SymbolTable::define` leaves when it succeeds, `SymbolTable::resolve`
/// reads back: the name resolves to the symbol defined under it.
pub proof fn law_table_define_then_resolve(
    before: &SymbolTable,
    after: &SymbolTable,
    name: Seq<char>,
    sym: SymbolView,
)
    requires
        after.parent == before.parent,
        lookup(scope_view(before.symbols@), name) is None,
        scope_view(after.symbols@) == scope_view(before.symbols@).push((name, sym)),
    ensures
        resolve_in(after@, name) == Some(sym),
{
    reveal_with_fuel(scopes_of, 1);
    assert(after@ =~= before@.update(0, scope_view(after.symbols@)));
    law_define_then_resolve(before@, name, sym);
}

/// What analysing a statement keeps: as many scopes, the same enclosing
/// scopes (only the innermost one may gain definitions), the same return
/// type, and the errors found before, to which new ones may only be added.
pub open spec fn keeps_context(before: AnalysisState, after: AnalysisState) -> bool {
    &&& after.scopes.len() == before.scopes.len()
    &&& after.scopes.drop_first() == before.scopes.drop_first()
    &&& after.return_type == before.return_type
    &&& before.errors.is_prefix_of(after.errors)
}

proof fn lemma_keeps_context_trans(a: AnalysisState, b: AnalysisState, c: AnalysisState)
    requires
        keeps_context(a, b),
        keeps_context(b, c),
    ensures
        keeps_context(a, c),
{
    assert(c.errors.subrange(0, b.errors.len() as int).subrange(0, a.errors.len() as int)
        =~= c.errors.subrange(0, a.errors.len() as int));
}

proof fn lemma_with_errors_keeps_context(st: AnalysisState, es: Seq<Seq<char>>)
    ensures
        keeps_context(st, with_errors(st, es)),
{
    assert((st.errors + es).subrange(0, st.errors.len() as int) =~= st.errors);
}

proof fn lemma_define_keeps_context(st: AnalysisState, name: Seq<char>, sym: SymbolView)
    requires
        st.scopes.len() >= 1,
    ensures
        ({
            let (scopes, es) = define_in(st.scopes, name, sym);
            keeps_context(
                st,
                AnalysisState { scopes, errors: st.errors + es, return_type: st.return_type },
            )
        }),
{
    assert(st.scopes.update(0, st.scopes[0].push((name, sym))).drop_first() =~= st.scopes.drop_first());
    lemma_with_errors_keeps_context(st, define_in(st.scopes, name, sym).1);
}

/// A block analysed between entering and leaving a scope leaves the scopes
/// exactly as they were.
proof fn lemma_block_keeps_scopes(st: AnalysisState, ss: Seq<StmtView>)
    requires
        st.scopes.len() >= 1,
    ensures
        keeps_context(st, exit_state(analyze_stmts_spec(enter_state(st), ss))),
        exit_state(analyze_stmts_spec(enter_state(st), ss)).scopes == st.scopes,
    decreases ss, 2nat,
{
    let inner = enter_state(st);
    law_statements_keep_context(inner, ss);
    assert(enter(st.scopes).drop_first() =~= st.scopes);
}

proof fn lemma_params_keep_context(scopes: Scopes, params: Seq<(Seq<char>, Seq<char>)>)
    requires
        scopes.len() >= 1,
    ensures
        define_params_spec(scopes, params).0.len() == scopes.len(),
        define_params_spec(scopes, params).0.drop_first() == scopes.drop_first(),
    decreases params.len(),
{
    if params.len() > 0 {
        lemma_params_keep_context(scopes, params.drop_last());
        let s0 = define_params_spec(scopes, params.drop_last()).0;
        let (name, t) = params.last();
        let sym = SymbolView { name, symbol_type: SymbolTypeView::Variable(t) };
        assert(s0.update(0, s0[0].push((name, sym))).drop_first() =~= s0.drop_first());
    }
}

/// Analysing a statement keeps the context: the enclosing scopes and the
/// return type are unchanged, only the innermost scope may gain
/// definitions, and errors are only ever added after those found before.
pub proof fn law_statement_keeps_context(st: AnalysisState, s: StmtView)
    requires
        st.scopes.len() >= 1,
    ensures
        keeps_context(st, analyze_stmt_spec(st, s)),
    decreases s, 1nat,
{
    let r = analyze_stmt_spec(st, s);
    match s {
        StmtView::VarDeclaration { name, declared_type, init } => {
            let sym = SymbolView { name, symbol_type: SymbolTypeView::Variable(declared_type) };
            lemma_define_keeps_context(st, name, sym);
            assert(r.errors.subrange(0, st.errors.len() as int) =~= st.errors);
        },
        StmtView::Return { value } => {
            lemma_with_errors_keeps_context(st, Seq::empty());
            assert(with_errors(st, Seq::empty()) =~= st);
            if r != st {
                assert(exists|es: Seq<Seq<char>>| r == with_errors(st, es));
            }
        },
        StmtView::ExpressionStatement { expr } => {
            lemma_with_errors_keeps_context(st, r.errors.subrange(st.errors.len() as int, r.errors.len() as int));
        },
        StmtView::VarAffection { name, value } => {
            lemma_with_errors_keeps_context(st, r.errors.subrange(st.errors.len() as int, r.errors.len() as int));
        },
        StmtView::If { condition, then_branch, else_branch } => {
            let (t, es) = expr_type_spec(st.scopes, condition);
            let s1 = with_errors(st, es + condition_errors("if"@, t));
            lemma_with_errors_keeps_context(st, es + condition_errors("if"@, t));
            lemma_block_keeps_scopes(s1, then_branch);
            let s2 = exit_state(analyze_stmts_spec(enter_state(s1), then_branch));
            lemma_keeps_context_trans(st, s1, s2);
            match else_branch {
                Some(b) => {
                    lemma_block_keeps_scopes(s2, b);
                    lemma_keeps_context_trans(st, s2, r);
                },
                None => {},
            }
        },
        StmtView::For { init, cond, incr, body } => {
            let e = enter_state(st);
            let s1 = analyze_stmt_spec(e, *init);
            law_statement_keeps_context(e, *init);
            let s2 = match *cond {
                StmtView::ExpressionStatement { expr } => {
                    let (t, es) = expr_type_spec(s1.scopes, expr);
                    lemma_with_errors_keeps_context(s1, es + condition_errors("for"@, t));
                    with_errors(s1, es + condition_errors("for"@, t))
                },
                _ => {
                    let m = seq!["Condition in 'for' statement must be an expression statement."@];
                    lemma_with_errors_keeps_context(s1, m);
                    with_errors(s1, m)
                },
            };
            lemma_keeps_context_trans(e, s1, s2);
            let s3 = analyze_stmt_spec(s2, *incr);
            law_statement_keeps_context(s2, *incr);
            lemma_keeps_context_trans(e, s2, s3);
            let s4 = analyze_stmts_spec(s3, body);
            law_statements_keep_context(s3, body);
            lemma_keeps_context_trans(e, s3, s4);
            assert(enter(st.scopes).drop_first() =~= st.scopes);
        },
        StmtView::While { condition, body } => {
            let (t, es) = expr_type_spec(st.scopes, condition);
            let s1 = with_errors(st, es + condition_errors("while"@, t));
            lemma_with_errors_keeps_context(st, es + condition_errors("while"@, t));
            lemma_block_keeps_scopes(s1, body);
            lemma_keeps_context_trans(st, s1, r);
        },
        StmtView::Switch { condition, cases, default } => {
            let (t, es) = expr_type_spec(st.scopes, condition);
            let s1 = with_errors(st, es);
            lemma_with_errors_keeps_context(st, es);
            match t {
                Some(t) => {
                    let s2 = analyze_cases_spec(s1, t, cases);
                    law_cases_keep_context(s1, t, cases);
                    lemma_keeps_context_trans(st, s1, s2);
                    match default {
                        Some(b) => {
                            lemma_block_keeps_scopes(s2, b);
                            lemma_keeps_context_trans(st, s2, r);
                        },
                        None => {},
                    }
                },
                None => {
                    let m = seq!["Unable to determine the type of the condition in 'switch' statement."@];
                    lemma_with_errors_keeps_context(s1, m);
                    lemma_keeps_context_trans(st, s1, r);
                },
            }
        },
        StmtView::FunctionDeclaration { name, parameters, return_type, body } => {
            let sym = SymbolView {
                name,
                symbol_type: SymbolTypeView::Function {
                    parameters: param_types(parameters),
                    return_type,
                },
            };
            let (scopes1, e1) = define_in(st.scopes, name, sym);
            lemma_define_keeps_context(st, name, sym);
            let (scopes2, e2) = define_params_spec(enter(scopes1), parameters);
            lemma_params_keep_context(enter(scopes1), parameters);
            assert(enter(scopes1).drop_first() =~= scopes1);
            let b = AnalysisState {
                scopes: scopes2,
                errors: st.errors + e1 + e2,
                return_type: Some(return_type),
            };
            law_statements_keep_context(b, body);
            let inner = analyze_stmts_spec(b, body);
            assert(inner.errors.subrange(0, b.errors.len() as int).subrange(0, st.errors.len() as int)
                =~= inner.errors.subrange(0, st.errors.len() as int));
            assert(b.errors.subrange(0, st.errors.len() as int) =~= st.errors);
        },
    }
}

/// Analysing statements keeps the context, as each statement does.
pub proof fn law_statements_keep_context(st: AnalysisState, ss: Seq<StmtView>)
    requires
        st.scopes.len() >= 1,
    ensures
        keeps_context(st, analyze_stmts_spec(st, ss)),
    decreases ss, 1nat,
{
    if ss.len() > 0 {
        law_statements_keep_context(st, ss.drop_last());
        let mid = analyze_stmts_spec(st, ss.drop_last());
        law_statement_keeps_context(mid, ss.last());
        lemma_keeps_context_trans(st, mid, analyze_stmts_spec(st, ss));
    } else {
        assert(st.errors.subrange(0, st.errors.len() as int) =~= st.errors);
    }
}

/// Analysing the cases of a switch keeps the context, as each statement
/// does.
pub proof fn law_cases_keep_context(st: AnalysisState, t: Seq<char>, cases: Seq<(ExprView, Seq<StmtView>)>)
    requires
        st.scopes.len() >= 1,
    ensures
        keeps_context(st, analyze_cases_spec(st, t, cases)),
    decreases cases, 1nat,
{
    if cases.len() > 0 {
        law_cases_keep_context(st, t, cases.drop_last());
        let s0 = analyze_cases_spec(st, t, cases.drop_last());
        let r = analyze_cases_spec(st, t, cases);
        let (ct, es) = expr_type_spec(s0.scopes, cases.last().0);
        let e2: Seq<Seq<char>> = match ct {
            Some(ct) => if ct != t {
                seq![diagnostics::case_mismatch_message(ct, t)]
            } else {
                seq![]
            },
            None => seq!["Unable to determine the type of a case in 'switch' statement."@],
        };
        let s1 = with_errors(s0, es + e2);
        lemma_with_errors_keeps_context(s0, es + e2);
        lemma_keeps_context_trans(st, s0, s1);
        lemma_block_keeps_scopes(s1, cases.last().1);
        lemma_keeps_context_trans(st, s1, r);
    } else {
        assert(st.errors.subrange(0, st.errors.len() as int) =~= st.errors);
    }
}

proof fn lemma_cases_keep_scopes(st: AnalysisState, t: Seq<char>, cases: Seq<(ExprView, Seq<StmtView>)>)
    requires
        st.scopes.len() >= 1,
    ensures
        analyze_cases_spec(st, t, cases).scopes == st.scopes,
    decreases cases,
{
    if cases.len() > 0 {
        lemma_cases_keep_scopes(st, t, cases.drop_last());
        let s0 = analyze_cases_spec(st, t, cases.drop_last());
        let (ct, es) = expr_type_spec(s0.scopes, cases.last().0);
        let e2: Seq<Seq<char>> = match ct {
            Some(ct) => if ct != t {
                seq![diagnostics::case_mismatch_message(ct, t)]
            } else {
                seq![]
            },
            None => seq!["Unable to determine the type of a case in 'switch' statement."@],
        };
        lemma_block_keeps_scopes(with_errors(s0, es + e2), cases.last().1);
    }
}

/// The definitions made inside an `if`, a `for`, a `while` or a `switch`
/// do not outlive it: after it, names resolve as they did before it.
pub proof fn law_blocks_keep_scopes(st: AnalysisState, s: StmtView)
    requires
        st.scopes.len() >= 1,
        s is If || s is For || s is While || s is Switch,
    ensures
        analyze_stmt_spec(st, s).scopes == st.scopes,
{
    match s {
        StmtView::If { condition, then_branch, else_branch } => {
            let (t, es) = expr_type_spec(st.scopes, condition);
            let s1 = with_errors(st, es + condition_errors("if"@, t));
            lemma_block_keeps_scopes(s1, then_branch);
            let s2 = exit_state(analyze_stmts_spec(enter_state(s1), then_branch));
            match else_branch {
                Some(b) => {
                    lemma_block_keeps_scopes(s2, b);
                },
                None => {},
            }
        },
        StmtView::For { init, cond, incr, body } => {
            law_statement_keeps_context(st, s);
            let e = enter_state(st);
            let s1 = analyze_stmt_spec(e, *init);
            law_statement_keeps_context(e, *init);
            let s2 = match *cond {
                StmtView::ExpressionStatement { expr } => {
                    let (t, es) = expr_type_spec(s1.scopes, expr);
                    with_errors(s1, es + condition_errors("for"@, t))
                },
                _ => with_errors(
                    s1,
                    seq!["Condition in 'for' statement must be an expression statement."@],
                ),
            };
            let s3 = analyze_stmt_spec(s2, *incr);
            law_statement_keeps_context(s2, *incr);
            law_statements_keep_context(s3, body);
            assert(enter(st.scopes).drop_first() =~= st.scopes);
        },
        StmtView::While { condition, body } => {
            let (t, es) = expr_type_spec(st.scopes, condition);
            lemma_block_keeps_scopes(with_errors(st, es + condition_errors("while"@, t)), body);
        },
        StmtView::Switch { condition, cases, default } => {
            let (t, es) = expr_type_spec(st.scopes, condition);
            let s1 = with_errors(st, es);
            match t {
                Some(t) => {
                    lemma_cases_keep_scopes(s1, t, cases);
                    let s2 = analyze_cases_spec(s1, t, cases);
                    match default {
                        Some(b) => {
                            lemma_block_keeps_scopes(s2, b);
                        },
                        None => {},
                    }
                },
                None => {},
            }
        },
        _ => {},
    }
}

/// A function declaration adds the function, with its parameter types and
/// return type, to the current scope and nothing else: its parameters and
/// the declarations of its body do not outlive it, every other name
/// resolves as before, and the return type in force is restored.
pub proof fn law_function_declaration_scopes(st: AnalysisState, s: StmtView)
    requires
        st.scopes.len() >= 1,
        s is FunctionDeclaration,
    ensures
        ({
            let name = s->FunctionDeclaration_name;
            let sym = SymbolView {
                name,
                symbol_type: SymbolTypeView::Function {
                    parameters: param_types(s->FunctionDeclaration_parameters),
                    return_type: s->FunctionDeclaration_return_type,
                },
            };
            let r = analyze_stmt_spec(st, s);
            &&& r.scopes == define_in(st.scopes, name, sym).0
            &&& r.return_type == st.return_type
            &&& lookup(st.scopes[0], name) is None ==> resolve_in(r.scopes, name) == Some(sym)
            &&& forall|other: Seq<char>| other != name ==> #[trigger] resolve_in(r.scopes, other)
                == resolve_in(st.scopes, other)
        }),
{
    match s {
        StmtView::FunctionDeclaration { name, parameters, return_type, body } => {
            let sym = SymbolView {
                name,
                symbol_type: SymbolTypeView::Function {
                    parameters: param_types(parameters),
                    return_type,
                },
            };
            let (scopes1, e1) = define_in(st.scopes, name, sym);
            lemma_define_keeps_context(st, name, sym);
            let (scopes2, e2) = define_params_spec(enter(scopes1), parameters);
            lemma_params_keep_context(enter(scopes1), parameters);
            assert(enter(scopes1).drop_first() =~= scopes1);
            let b = AnalysisState {
                scopes: scopes2,
                errors: st.errors + e1 + e2,
                return_type: Some(return_type),
            };
            law_statements_keep_context(b, body);
            if lookup(st.scopes[0], name) is None {
                law_define_then_resolve(st.scopes, name, sym);
            }
            assert forall|other: Seq<char>| other != name implies #[trigger] resolve_in(
                analyze_stmt_spec(st, s).scopes,
                other,
            ) == resolve_in(st.scopes, other) by {
                law_define_keeps_other_names(st.scopes, name, sym, other);
            }
        },
        _ => {},
    }
}

/// The type of a binary operation on operands of one type `t`: a
/// comparison (`==`, `!=`, `<`, `<=`, `>`, `>=`) is a `bool`, whatever `t`
/// is; `+`, `-`, `*` and `/` give `t`; any other operator gives no type and
/// is reported. Operands of two different types give no type and are
/// reported as a mismatch. Only the operands' own errors come before.
pub proof fn law_binary_expression_type(scopes: Scopes, l: ExprView, op: Seq<char>, r: ExprView)
    requires
        expr_type_spec(scopes, l).0 is Some,
        expr_type_spec(scopes, r).0 is Some,
    ensures
        ({
            let t = expr_type_spec(scopes, l).0->0;
            let u = expr_type_spec(scopes, r).0->0;
            let before = expr_type_spec(scopes, l).1 + expr_type_spec(scopes, r).1;
            let (ty, errors) = expr_type_spec(
                scopes,
                ExprView::Binary(Box::new(l), op, Box::new(r)),
            );
            &&& t != u ==> ty is None && errors == before + seq![
                diagnostics::binary_mismatch_message(t, u),
            ]
            &&& t == u && (op == "=="@ || op == "!="@ || op == "<"@ || op == "<="@ || op == ">"@
                || op == ">="@) ==> ty == Some("bool"@) && errors == before
            &&& t == u && (op == "+"@ || op == "-"@ || op == "*"@ || op == "/"@) ==> ty == Some(t)
                && errors == before
            &&& t == u && !(op == "=="@ || op == "!="@ || op == "<"@ || op == "<="@ || op == ">"@
                || op == ">="@ || op == "+"@ || op == "-"@ || op == "*"@ || op == "/"@) ==> ty is None
                && errors == before + seq![diagnostics::unknown_operator_message(op)]
        }),
{
    reveal_strlit("==");
    reveal_strlit("!=");
    reveal_strlit("<");
    reveal_strlit("<=");
    reveal_strlit(">");
    reveal_strlit(">=");
    reveal_strlit("+");
    reveal_strlit("-");
    reveal_strlit("*");
    reveal_strlit("/");
    if arithmetic_op(op) {
        assert(op.len() == 1 && (op[0] == '+' || op[0] == '-' || op[0] == '*' || op[0] == '/'));
        assert(!comparison_op(op));
    }
}

/// A declaration of a new name with one of the language's value types is
/// accepted when its initial value has that type: the name then stands for
/// a variable of that type, and the only errors are those of the value
/// itself, with one mismatch more when the value has another type.
pub proof fn law_declaration_checks_its_value(
    st: AnalysisState,
    name: Seq<char>,
    declared_type: Seq<char>,
    init: ExprView,
)
    requires
        st.scopes.len() >= 1,
        lookup(st.scopes[0], name) is None,
        declared_type == "int"@ || declared_type == "float"@ || declared_type == "bool"@
            || declared_type == "string"@,
    ensures
        ({
            let r = analyze_stmt_spec(
                st,
                StmtView::VarDeclaration { name, declared_type, init: Some(init) },
            );
            let (t, es) = expr_type_spec(r.scopes, init);
            &&& resolve_in(r.scopes, name) == Some(
                SymbolView { name, symbol_type: SymbolTypeView::Variable(declared_type) },
            )
            &&& r.return_type == st.return_type
            &&& t == Some(declared_type) ==> r.errors == st.errors + es
            &&& t is None ==> r.errors == st.errors + es
            &&& (t is Some && t != Some(declared_type)) ==> r.errors == st.errors + es + seq![
                diagnostics::var_decl_mismatch_message(name, declared_type, t->0),
            ]
        }),
{
    let sym = SymbolView { name, symbol_type: SymbolTypeView::Variable(declared_type) };
    law_define_then_resolve(st.scopes, name, sym);
    let r = analyze_stmt_spec(st, StmtView::VarDeclaration { name, declared_type, init: Some(init) });
    let (t, es) = expr_type_spec(r.scopes, init);
    assert(st.errors + Seq::<Seq<char>>::empty() + Seq::<Seq<char>>::empty() =~= st.errors);
    if t == Some(declared_type) || t is None {
        assert(es + Seq::<Seq<char>>::empty() =~= es);
    }
    assert(r.errors =~= st.errors + (es + match t {
        Some(u) => if u != declared_type {
            seq![diagnostics::var_decl_mismatch_message(name, declared_type, u)]
        } else {
            seq![]
        },
        None => seq![],
    }));
}

/// A `while` or an `if` needs a `bool` condition: the errors of the
/// condition come first, then none more for a `bool`, one saying what type
/// it has for another type, and one saying that its type is unknown when
/// it has none; the body is then analysed in a scope of its own.
pub proof fn law_condition_must_be_bool(st: AnalysisState, condition: ExprView, body: Seq<StmtView>)
    ensures
        ({
            let (t, es) = expr_type_spec(st.scopes, condition);
            let extra: Seq<Seq<char>> = match t {
                Some(u) => if u == "bool"@ {
                    seq![]
                } else {
                    seq![diagnostics::cond_not_bool_message("while"@, u)]
                },
                None => seq![diagnostics::cond_unknown_message("while"@)],
            };
            let checked = AnalysisState { errors: st.errors + es + extra, ..st };
            analyze_stmt_spec(st, StmtView::While { condition, body }) == exit_state(
                analyze_stmts_spec(enter_state(checked), body),
            )
        }),
        ({
            let (t, es) = expr_type_spec(st.scopes, condition);
            let extra: Seq<Seq<char>> = match t {
                Some(u) => if u == "bool"@ {
                    seq![]
                } else {
                    seq![diagnostics::cond_not_bool_message("if"@, u)]
                },
                None => seq![diagnostics::cond_unknown_message("if"@)],
            };
            let checked = AnalysisState { errors: st.errors + es + extra, ..st };
            analyze_stmt_spec(
                st,
                StmtView::If { condition, then_branch: body, else_branch: None },
            ) == exit_state(analyze_stmts_spec(enter_state(checked), body))
        }),
{
    let (t, es) = expr_type_spec(st.scopes, condition);
    assert(st.errors + (es + condition_errors("while"@, t)) =~= st.errors + es + condition_errors(
        "while"@,
        t,
    ));
    assert(st.errors + (es + condition_errors("if"@, t)) =~= st.errors + es + condition_errors(
        "if"@,
        t,
    ));
}

/// A `return` inside a function whose return type is `expected` checks its
/// value: the errors of the value, then one mismatch when the value has
/// another type; a `return;` is refused unless the function is `void`.
/// Outside a function a `return` is refused.
pub proof fn law_return_checks_its_value(st: AnalysisState, value: Option<ExprView>)
    ensures
        ({
            let r = analyze_stmt_spec(st, StmtView::Return { value });
            &&& r.scopes == st.scopes
            &&& r.return_type == st.return_type
            &&& st.return_type is None ==> r.errors == st.errors.push(
                "Return statement not inside a function."@,
            )
            &&& st.return_type is Some && value is None ==> r.errors == if st.return_type->0
                == "void"@ {
                st.errors
            } else {
                st.errors.push(diagnostics::return_missing_message(st.return_type->0))
            }
            &&& st.return_type is Some && value is Some ==> ({
                let (t, es) = expr_type_spec(st.scopes, value->0);
                r.errors == if t is Some && t != st.return_type {
                    st.errors + es + seq![
                        diagnostics::return_mismatch_message(st.return_type->0, t->0),
                    ]
                } else {
                    st.errors + es
                }
            })
        }),
{
    match st.return_type {
        None => {
            assert(st.errors + seq!["Return statement not inside a function."@] =~= st.errors.push(
                "Return statement not inside a function."@,
            ));
        },
        Some(expected) => match value {
            Some(x) => {
                let (t, es) = expr_type_spec(st.scopes, x);
                assert(es + Seq::<Seq<char>>::empty() =~= es);
                assert(st.errors + (es + seq![
                    diagnostics::return_mismatch_message(expected, t->0),
                ]) =~= st.errors + es + seq![diagnostics::return_mismatch_message(expected, t->0)]);
            },
            None => {
                assert(st.errors + seq![diagnostics::return_missing_message(expected)]
                    =~= st.errors.push(diagnostics::return_missing_message(expected)));
            },
        },
    }
}

/// Literals have their own types and no errors: an integer is an `int`, a
/// floating-point number a `float`, a boolean a `bool` and a string a
/// `string`; a name has the type of what it resolves to.
pub proof fn law_literal_types(scopes: Scopes, v: i64, f: Seq<char>, b: bool, text: Seq<char>, name: Seq<char>)
    ensures
        expr_type_spec(scopes, ExprView::Int(v)) == (Some("int"@), Seq::<Seq<char>>::empty()),
        expr_type_spec(scopes, ExprView::Float(f)) == (Some("float"@), Seq::<Seq<char>>::empty()),
        expr_type_spec(scopes, ExprView::Bool(b)) == (Some("bool"@), Seq::<Seq<char>>::empty()),
        expr_type_spec(scopes, ExprView::Str(text)) == (Some("string"@), Seq::<Seq<char>>::empty()),
        resolve_in(scopes, name) matches Some(sym) ==> expr_type_spec(scopes, ExprView::Ident(name))
            == (Some(match sym.symbol_type {
            SymbolTypeView::Variable(t) => t,
            SymbolTypeView::Function { return_type, .. } => return_type,
        }), Seq::<Seq<char>>::empty()),
{
}

/// A call is checked against what its name stands for: a function must
/// get as many arguments as it has parameters, or the call is reported
/// with both numbers; a variable can not be called; an undefined name is
/// reported; `print` takes any arguments. The arguments' own errors follow.
pub proof fn law_call_is_checked(scopes: Scopes, name: Seq<char>, args: Seq<ExprView>)
    requires
        name != "print"@,
    ensures
        ({
            let errors = check_expr_spec(scopes, ExprView::Call(name, args));
            let arg_errors = check_exprs_spec(scopes, args);
            &&& check_expr_spec(scopes, ExprView::Call("print"@, args)) == arg_errors
            &&& resolve_in(scopes, name) is None ==> errors == seq![
                diagnostics::undefined_function_message(name),
            ]
            &&& resolve_in(scopes, name) matches Some(sym) ==> match sym.symbol_type {
                SymbolTypeView::Variable(_) => errors == seq![
                    diagnostics::not_a_function_message(name),
                ],
                SymbolTypeView::Function { parameters, .. } => if parameters.len() == args.len() {
                    errors == arg_errors
                } else {
                    errors == seq![
                        diagnostics::arg_count_message(name, parameters.len(), args.len()),
                    ] + arg_errors
                },
            }
        }),
{
    assert(Seq::<Seq<char>>::empty() + check_exprs_spec(scopes, args) =~= check_exprs_spec(
        scopes,
        args,
    ));
}

/// An assignment needs a defined variable and a value of its type: the
/// errors are an undefined name first, then those of the value, then one
/// mismatch when the value has another type than the variable, or one
/// saying that a function is no variable. Nothing else changes.
pub proof fn law_assignment_is_checked(st: AnalysisState, name: Seq<char>, value: ExprView)
    ensures
        ({
            let r = analyze_stmt_spec(st, StmtView::VarAffection { name, value });
            let (t, es) = expr_type_spec(st.scopes, value);
            &&& r.scopes == st.scopes
            &&& r.return_type == st.return_type
            &&& resolve_in(st.scopes, name) is None ==> r.errors == st.errors + seq![
                diagnostics::undefined_variable_message(name),
            ] + es
            &&& resolve_in(st.scopes, name) matches Some(sym) ==> match sym.symbol_type {
                SymbolTypeView::Variable(vt) => r.errors == if t is Some && t != Some(vt) {
                    st.errors + es + seq![diagnostics::assign_mismatch_message(name, vt, t->0)]
                } else {
                    st.errors + es
                },
                SymbolTypeView::Function { .. } => r.errors == st.errors + es + seq![
                    diagnostics::not_a_variable_message(name),
                ],
            }
        }),
{
    let (t, es) = expr_type_spec(st.scopes, value);
    assert(Seq::<Seq<char>>::empty() + es + Seq::<Seq<char>>::empty() =~= es);
    assert(seq![diagnostics::undefined_variable_message(name)] + es + Seq::<Seq<char>>::empty()
        =~= seq![diagnostics::undefined_variable_message(name)] + es);
    assert(st.errors + (seq![diagnostics::undefined_variable_message(name)] + es) =~= st.errors
        + seq![diagnostics::undefined_variable_message(name)] + es);
    match resolve_in(st.scopes, name) {
        Some(sym) => match sym.symbol_type {
            SymbolTypeView::Variable(vt) => {
                if t is Some && t != Some(vt) {
                    let m = seq![diagnostics::assign_mismatch_message(name, vt, t->0)];
                    assert(st.errors + (Seq::<Seq<char>>::empty() + es + m) =~= st.errors + es + m);
                } else {
                    assert(st.errors + (Seq::<Seq<char>>::empty() + es + Seq::<Seq<char>>::empty())
                        =~= st.errors + es);
                }
            },
            SymbolTypeView::Function { .. } => {
                let m = seq![diagnostics::not_a_variable_message(name)];
                assert(st.errors + (Seq::<Seq<char>>::empty() + es + m) =~= st.errors + es + m);
            },
        },
        None => {},
    }
}

} // verus!
