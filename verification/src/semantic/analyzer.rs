use vstd::prelude::*;

use crate::parser::models::ast::AST;
use crate::parser::models::expression::{expr_view, exprs_view, ExprView, Expression};
use crate::parser::models::statement::{
    cases_view, opt_expr_view, params_view, stmt_view, stmts_view, ForStatement,
    FunctionDeclaration, IfStatement, Statement, StmtView, SwitchCase, SwitchStatement,
    VarAffection, VarDeclaration, WhileStatement,
};
use crate::lex::lexer::{byte_chars, lex_all, law_tokens_end_with_eof, lexes_cleanly_from, tokenize};
use vstd::utf8::encode_utf8;
use crate::parser::parser::Parser;
use crate::parser::statement_parser::parse_statements_spec;
use crate::semantic::models::semantic::scope_view;
use crate::text::{copy_strings, strings_view, text_eq};
use crate::semantic::diagnostics::{
    arg_count, assign_mismatch, binary_mismatch, case_mismatch, cond_not_bool, cond_unknown,
    not_a_function, not_a_variable, param_type_not_defined, return_missing, return_mismatch,
    type_not_defined, undefined_function, undefined_variable, unknown_operator, var_decl_mismatch,
};
use crate::semantic::diagnostics;
use crate::semantic::statement_analyzer::StatementAnalyzer;
use crate::semantic::models::semantic::{
    already_defined_message, lookup, resolve_in, Symbol, SymbolTable, SymbolType,
    SymbolTypeView, SymbolView,
};

verus! {

/// Scopes of symbols, the innermost first.
pub type Scopes = Seq<Seq<(Seq<char>, SymbolView)>>;

/// What the analyser knows at a point of the analysis: the scopes, the
/// errors found so far, and the return type of the function being analysed.
pub struct AnalysisState {
    pub scopes: Scopes,
    pub errors: Seq<Seq<char>>,
    pub return_type: Option<Seq<char>>,
}

/// The types of the language.
pub open spec fn type_defined(t: Seq<char>) -> bool {
    t == "int"@ || t == "float"@ || t == "bool"@ || t == "string"@ || t == "void"@
}

/// The type of the value a symbol stands for: a variable's type, or a
/// function's return type.
pub open spec fn symbol_value_type(s: SymbolView) -> Seq<char> {
    match s.symbol_type {
        SymbolTypeView::Variable(t) => t,
        SymbolTypeView::Function { return_type, .. } => return_type,
    }
}

/// Defines `sym` under `name` in the innermost scope, or reports that the
/// scope already has that name.
pub open spec fn define_in(scopes: Scopes, name: Seq<char>, sym: SymbolView) -> (Scopes, Seq<Seq<char>>) {
    if lookup(scopes[0], name) is Some {
        (scopes, seq![already_defined_message(name)])
    } else {
        (scopes.update(0, scopes[0].push((name, sym))), seq![])
    }
}

/// The scopes with a new, empty innermost scope.
pub open spec fn enter(scopes: Scopes) -> Scopes {
    seq![Seq::empty()] + scopes
}

/// The scopes without the innermost one, unless it is the only one.
pub open spec fn exit(scopes: Scopes) -> Scopes {
    if scopes.len() > 1 {
        scopes.drop_first()
    } else {
        scopes
    }
}

/// The state with more errors.
pub open spec fn with_errors(st: AnalysisState, es: Seq<Seq<char>>) -> AnalysisState {
    AnalysisState { scopes: st.scopes, errors: st.errors + es, return_type: st.return_type }
}

/// The state in a new scope.
pub open spec fn enter_state(st: AnalysisState) -> AnalysisState {
    AnalysisState { scopes: enter(st.scopes), errors: st.errors, return_type: st.return_type }
}

/// The state back in the enclosing scope.
pub open spec fn exit_state(st: AnalysisState) -> AnalysisState {
    AnalysisState { scopes: exit(st.scopes), errors: st.errors, return_type: st.return_type }
}

/// Whether `op` is an arithmetic operator: its result has its operands' type.
pub open spec fn arithmetic_op(op: Seq<char>) -> bool {
    op == "+"@ || op == "-"@ || op == "*"@ || op == "/"@
}

/// Whether `op` is a comparison: its result is a `bool`.
pub open spec fn comparison_op(op: Seq<char>) -> bool {
    op == "=="@ || op == "!="@ || op == "<"@ || op == "<="@ || op == ">"@ || op == ">="@
}

/// The type of an expression, if it can be determined, and the errors found
/// on the way. Literals have their type; a name has its symbol's type; a
/// binary operation needs operands of one type and gives that type for
/// arithmetic and `bool` for comparisons; a call has the return type of the
/// function called. Errors stop the evaluation: the right operand is not
/// looked at when the left one has no type.
pub open spec fn expr_type_spec(scopes: Scopes, e: ExprView) -> (Option<Seq<char>>, Seq<Seq<char>>)
    decreases e,
{
    match e {
        ExprView::Ident(n) => (
            match resolve_in(scopes, n) {
                Some(sym) => Some(symbol_value_type(sym)),
                None => None,
            },
            seq![],
        ),
        ExprView::Int(_) => (Some("int"@), seq![]),
        ExprView::Float(_) => (Some("float"@), seq![]),
        ExprView::Bool(_) => (Some("bool"@), seq![]),
        ExprView::Str(_) => (Some("string"@), seq![]),
        ExprView::Binary(l, op, r) => {
            let (lt, le) = expr_type_spec(scopes, *l);
            match lt {
                None => (None, le),
                Some(lt) => {
                    let (rt, re) = expr_type_spec(scopes, *r);
                    match rt {
                        None => (None, le + re),
                        Some(rt) => if lt != rt {
                            (None, le + re + seq![diagnostics::binary_mismatch_message(lt, rt)])
                        } else if arithmetic_op(op) {
                            (Some(lt), le + re)
                        } else if comparison_op(op) {
                            (Some("bool"@), le + re)
                        } else {
                            (None, le + re + seq![diagnostics::unknown_operator_message(op)])
                        },
                    }
                },
            }
        },
        ExprView::Call(name, _) => match resolve_in(scopes, name) {
            Some(sym) => match sym.symbol_type {
                SymbolTypeView::Function { return_type, .. } => (Some(return_type), seq![]),
                SymbolTypeView::Variable(_) => (None, seq![diagnostics::not_a_function_message(name)]),
            },
            None => (None, seq![diagnostics::undefined_function_message(name)]),
        },
    }
}

/// The errors that checking the names of an expression finds: undefined
/// variables, and calls of undefined names, of variables, or with another
/// number of arguments than the function has parameters. `print` is the
/// language's built-in output call: only its arguments are checked.
pub open spec fn check_expr_spec(scopes: Scopes, e: ExprView) -> Seq<Seq<char>>
    decreases e,
{
    match e {
        ExprView::Ident(n) => if resolve_in(scopes, n) is None {
            seq![diagnostics::undefined_variable_message(n)]
        } else {
            seq![]
        },
        ExprView::Binary(l, _, r) => check_expr_spec(scopes, *l) + check_expr_spec(scopes, *r),
        ExprView::Call(name, args) => if name == "print"@ {
            check_exprs_spec(scopes, args)
        } else {
            match resolve_in(scopes, name) {
                Some(sym) => match sym.symbol_type {
                    SymbolTypeView::Function { parameters, .. } => (if parameters.len()
                        != args.len() {
                        seq![diagnostics::arg_count_message(name, parameters.len(), args.len())]
                    } else {
                        seq![]
                    }) + check_exprs_spec(scopes, args),
                    SymbolTypeView::Variable(_) => seq![diagnostics::not_a_function_message(name)],
                },
                None => seq![diagnostics::undefined_function_message(name)],
            }
        },
        _ => seq![],
    }
}

/// The errors of checking a sequence of expressions, in order.
pub open spec fn check_exprs_spec(scopes: Scopes, es: Seq<ExprView>) -> Seq<Seq<char>>
    decreases es,
{
    if es.len() == 0 {
        seq![]
    } else {
        check_exprs_spec(scopes, es.drop_last()) + check_expr_spec(scopes, es.last())
    }
}

/// The errors for a condition of kind `kind` (`if`, `for`, `while`) whose
/// type is `t`: none for a `bool`.
pub open spec fn condition_errors(kind: Seq<char>, t: Option<Seq<char>>) -> Seq<Seq<char>> {
    match t {
        Some(t) => if t != "bool"@ {
            seq![diagnostics::cond_not_bool_message(kind, t)]
        } else {
            seq![]
        },
        None => seq![diagnostics::cond_unknown_message(kind)],
    }
}

/// A variable declaration: its type must be defined, its name new in the
/// scope, and its initial value, if any, of its type.
pub open spec fn var_decl_spec(
    st: AnalysisState,
    name: Seq<char>,
    declared_type: Seq<char>,
    init: Option<ExprView>,
) -> AnalysisState {
    let e1: Seq<Seq<char>> = if type_defined(declared_type) {
        seq![]
    } else {
        seq![diagnostics::type_not_defined_message(declared_type)]
    };
    let sym = SymbolView { name, symbol_type: SymbolTypeView::Variable(declared_type) };
    let (scopes, e2) = define_in(st.scopes, name, sym);
    let e3: Seq<Seq<char>> = match init {
        None => seq![],
        Some(x) => {
            let (t, es) = expr_type_spec(scopes, x);
            es + match t {
                Some(t) => if t != declared_type {
                    seq![diagnostics::var_decl_mismatch_message(name, declared_type, t)]
                } else {
                    seq![]
                },
                None => seq![],
            }
        },
    };
    AnalysisState { scopes, errors: st.errors + e1 + e2 + e3, return_type: st.return_type }
}

/// A return: inside a function, its value must have the function's return
/// type, and only a `void` function may return no value.
pub open spec fn return_spec(st: AnalysisState, value: Option<ExprView>) -> AnalysisState {
    match st.return_type {
        Some(expected) => match value {
            Some(x) => {
                let (t, es) = expr_type_spec(st.scopes, x);
                with_errors(
                    st,
                    es + match t {
                        Some(t) => if t != expected {
                            seq![diagnostics::return_mismatch_message(expected, t)]
                        } else {
                            seq![]
                        },
                        None => seq![],
                    },
                )
            },
            None => if expected != "void"@ {
                with_errors(st, seq![diagnostics::return_missing_message(expected)])
            } else {
                st
            },
        },
        None => with_errors(st, seq!["Return statement not inside a function."@]),
    }
}

/// An assignment: the name must be a defined variable, and the value of its
/// type.
pub open spec fn affection_spec(st: AnalysisState, name: Seq<char>, value: ExprView) -> AnalysisState {
    let e1: Seq<Seq<char>> = if resolve_in(st.scopes, name) is None {
        seq![diagnostics::undefined_variable_message(name)]
    } else {
        seq![]
    };
    let (t, es) = expr_type_spec(st.scopes, value);
    let e3: Seq<Seq<char>> = match resolve_in(st.scopes, name) {
        Some(sym) => match sym.symbol_type {
            SymbolTypeView::Variable(vt) => match t {
                Some(t) => if t != vt {
                    seq![diagnostics::assign_mismatch_message(name, vt, t)]
                } else {
                    seq![]
                },
                None => seq![],
            },
            _ => seq![diagnostics::not_a_variable_message(name)],
        },
        None => seq![],
    };
    with_errors(st, e1 + es + e3)
}

/// Defines the parameters of a function in the innermost scope, each after
/// checking that its type is defined.
pub open spec fn define_params_spec(scopes: Scopes, params: Seq<(Seq<char>, Seq<char>)>) -> (
    Scopes,
    Seq<Seq<char>>,
)
    decreases params.len(),
{
    if params.len() == 0 {
        (scopes, seq![])
    } else {
        let (s0, e0) = define_params_spec(scopes, params.drop_last());
        let (name, t) = params.last();
        let e1: Seq<Seq<char>> = if type_defined(t) {
            seq![]
        } else {
            seq![diagnostics::param_type_not_defined_message(t, name)]
        };
        let (s1, e2) = define_in(
            s0,
            name,
            SymbolView { name, symbol_type: SymbolTypeView::Variable(t) },
        );
        (s1, e0 + e1 + e2)
    }
}

/// The types of a function's parameters.
pub open spec fn param_types(params: Seq<(Seq<char>, Seq<char>)>) -> Seq<Seq<char>> {
    params.map_values(|p: (Seq<char>, Seq<char>)| p.1)
}

/// The analysis of a statement.
pub open spec fn analyze_stmt_spec(st: AnalysisState, s: StmtView) -> AnalysisState
    decreases s,
{
    match s {
        StmtView::VarDeclaration { name, declared_type, init } => var_decl_spec(
            st,
            name,
            declared_type,
            init,
        ),
        StmtView::Return { value } => return_spec(st, value),
        StmtView::ExpressionStatement { expr } => with_errors(st, check_expr_spec(st.scopes, expr)),
        StmtView::VarAffection { name, value } => affection_spec(st, name, value),
        StmtView::If { condition, then_branch, else_branch } => {
            let (t, es) = expr_type_spec(st.scopes, condition);
            let s1 = with_errors(st, es + condition_errors("if"@, t));
            let s2 = exit_state(analyze_stmts_spec(enter_state(s1), then_branch));
            match else_branch {
                Some(b) => exit_state(analyze_stmts_spec(enter_state(s2), b)),
                None => s2,
            }
        },
        StmtView::For { init, cond, incr, body } => {
            let s1 = analyze_stmt_spec(enter_state(st), *init);
            let s2 = match *cond {
                StmtView::ExpressionStatement { expr } => {
                    let (t, es) = expr_type_spec(s1.scopes, expr);
                    with_errors(s1, es + condition_errors("for"@, t))
                },
                _ => with_errors(
                    s1,
                    seq!["Condition in 'for' statement must be an expression statement."@],
                ),
            };
            let s3 = analyze_stmt_spec(s2, *incr);
            exit_state(analyze_stmts_spec(s3, body))
        },
        StmtView::While { condition, body } => {
            let (t, es) = expr_type_spec(st.scopes, condition);
            let s1 = with_errors(st, es + condition_errors("while"@, t));
            exit_state(analyze_stmts_spec(enter_state(s1), body))
        },
        StmtView::Switch { condition, cases, default } => {
            let (t, es) = expr_type_spec(st.scopes, condition);
            let s1 = with_errors(st, es);
            match t {
                Some(t) => {
                    let s2 = analyze_cases_spec(s1, t, cases);
                    match default {
                        Some(b) => exit_state(analyze_stmts_spec(enter_state(s2), b)),
                        None => s2,
                    }
                },
                None => with_errors(
                    s1,
                    seq!["Unable to determine the type of the condition in 'switch' statement."@],
                ),
            }
        },
        StmtView::FunctionDeclaration { name, parameters, return_type, body } => {
            let sym = SymbolView {
                name,
                symbol_type: SymbolTypeView::Function {
                    parameters: param_types(parameters),
                    return_type,
                },
            };
            let (scopes1, e1) = define_in(st.scopes, name, sym);
            let (scopes2, e2) = define_params_spec(enter(scopes1), parameters);
            let inner = analyze_stmts_spec(
                AnalysisState {
                    scopes: scopes2,
                    errors: st.errors + e1 + e2,
                    return_type: Some(return_type),
                },
                body,
            );
            AnalysisState {
                scopes: exit(inner.scopes),
                errors: inner.errors,
                return_type: st.return_type,
            }
        },
    }
}

/// The analysis of statements, in order.
pub open spec fn analyze_stmts_spec(st: AnalysisState, ss: Seq<StmtView>) -> AnalysisState
    decreases ss,
{
    if ss.len() == 0 {
        st
    } else {
        analyze_stmt_spec(analyze_stmts_spec(st, ss.drop_last()), ss.last())
    }
}

/// The analysis of the cases of a switch on a value of type `t`, in order:
/// each case value must have type `t`, and each body is analysed in a scope
/// of its own.
pub open spec fn analyze_cases_spec(
    st: AnalysisState,
    t: Seq<char>,
    cases: Seq<(ExprView, Seq<StmtView>)>,
) -> AnalysisState
    decreases cases,
{
    if cases.len() == 0 {
        st
    } else {
        let s0 = analyze_cases_spec(st, t, cases.drop_last());
        let (ct, es) = expr_type_spec(s0.scopes, cases.last().0);
        let e2: Seq<Seq<char>> = match ct {
            Some(ct) => if ct != t {
                seq![diagnostics::case_mismatch_message(ct, t)]
            } else {
                seq![]
            },
            None => seq!["Unable to determine the type of a case in 'switch' statement."@],
        };
        let s1 = with_errors(s0, es + e2);
        exit_state(analyze_stmts_spec(enter_state(s1), cases.last().1))
    }
}

/// The text of an optional string.
pub open spec fn opt_text(o: &Option<String>) -> Option<Seq<char>> {
    match o {
        Some(s) => Some(s@),
        None => None,
    }
}

/// Checks a program's declarations, assignments, returns, conditions and
/// calls against their types and scopes, collecting the errors it finds.
pub struct SemanticAnalyzer {
    pub symbol_table: SymbolTable,
    pub errors: Vec<String>,
    pub current_function_return_type: Option<String>,
    pub ast: AST,
}

proof fn lemma_scopes_nonempty(t: &SymbolTable)
    ensures
        t@.len() >= 1,
        t@[0] == scope_view(t.symbols@),
{
    reveal_with_fuel(crate::semantic::models::semantic::scopes_of, 1);
}

proof fn lemma_scopes_same_parent(t1: &SymbolTable, t2: &SymbolTable)
    requires
        t1.parent == t2.parent,
    ensures
        t2@ == t1@.update(0, scope_view(t2.symbols@)),
{
    lemma_scopes_nonempty(t1);
    lemma_scopes_nonempty(t2);
    assert(t2@ =~= t1@.update(0, scope_view(t2.symbols@)));
}

impl SemanticAnalyzer {
    /// What the analyser knows: its scopes, errors and current return type.
    pub open spec fn state(&self) -> AnalysisState {
        AnalysisState {
            scopes: self.symbol_table@,
            errors: strings_view(self.errors@),
            return_type: opt_text(&self.current_function_return_type),
        }
    }

    /// An analyser of `ast` with one empty scope and no errors.
    pub fn from_ast(ast: AST) -> (a: SemanticAnalyzer)
        ensures
            a.state() == (AnalysisState {
                scopes: seq![Seq::empty()],
                errors: Seq::empty(),
                return_type: None,
            }),
            a.ast == ast,
    {
        let a = SemanticAnalyzer {
            symbol_table: SymbolTable::new(None),
            errors: Vec::new(),
            current_function_return_type: None,
            ast,
        };
        assert(strings_view(a.errors@) =~= Seq::empty());
        a
    }

    /// Records an error.
    fn report(&mut self, m: String)
        ensures
            final(self).state() == with_errors(old(self).state(), seq![m@]),
            final(self).ast == old(self).ast,
    {
        let ghost before = self.errors@;
        self.errors.push(m);
        assert(strings_view(self.errors@) =~= strings_view(before) + seq![m@]);
    }

    /// Defines `symbol` under `name` in the current scope, recording an
    /// error when the scope already has that name.
    fn define_symbol(&mut self, name: String, symbol: Symbol)
        ensures
            ({
                let (scopes, es) = define_in(old(self).state().scopes, name@, symbol@);
                final(self).state() == AnalysisState {
                    scopes,
                    errors: old(self).state().errors + es,
                    return_type: old(self).state().return_type,
                }
            }),
            final(self).ast == old(self).ast,
    {
        let ghost t0 = self.symbol_table;
        proof { lemma_scopes_nonempty(&self.symbol_table); }
        match self.symbol_table.define(name, symbol) {
            Ok(()) => {
                proof {
                    lemma_scopes_same_parent(&t0, &self.symbol_table);
                    assert(strings_view(self.errors@) + Seq::<Seq<char>>::empty() =~= strings_view(self.errors@));
                }
            },
            Err(err) => {
                self.report(err);
            },
        }
    }

    /// Whether `type_text` is one of the language's types.
    fn is_type_defined(&self, type_text: &str) -> (r: bool)
        ensures
            r == type_defined(type_text@),
    {
        text_eq(type_text, "int") || text_eq(type_text, "float") || text_eq(type_text, "bool")
            || text_eq(type_text, "string") || text_eq(type_text, "void")
    }

    /// Enters a new, empty scope.
    fn enter_scope(&mut self)
        ensures
            final(self).state() == enter_state(old(self).state()),
            final(self).ast == old(self).ast,
    {
        let mut t = SymbolTable::new(None);
        std::mem::swap(&mut t, &mut self.symbol_table);
        self.symbol_table = SymbolTable::new(Some(Box::new(t)));
    }

    /// Leaves the current scope for the enclosing one; stays in the
    /// outermost scope.
    fn exit_scope(&mut self)
        ensures
            final(self).state() == exit_state(old(self).state()),
            final(self).ast == old(self).ast,
    {
        proof { lemma_scopes_nonempty(&self.symbol_table); }
        let mut parent: Option<Box<SymbolTable>> = None;
        std::mem::swap(&mut parent, &mut self.symbol_table.parent);
        match parent {
            Some(p) => {
                proof {
                    lemma_scopes_nonempty(&p);
                    assert(old(self).symbol_table@ =~= seq![scope_view(old(self).symbol_table.symbols@)] + p@);
                    assert(old(self).symbol_table@.drop_first() =~= p@);
                }
                self.symbol_table = *p;
            },
            None => {},
        }
    }
}

impl SemanticAnalyzer {
    /// The type of an expression, as `expr_type_spec` states, recording the
    /// errors found on the way.
    pub fn get_expression_type(&mut self, expr: &Expression) -> (r: Option<String>)
        ensures
            opt_text(&r) == expr_type_spec(old(self).state().scopes, expr@).0,
            final(self).state() == with_errors(
                old(self).state(),
                expr_type_spec(old(self).state().scopes, expr@).1,
            ),
            final(self).ast == old(self).ast,
        decreases expr,
    {
        match expr {
            Expression::Ident(name) => {
                let r = match self.symbol_table.resolve(name.as_str()) {
                    Some(symbol) => match &symbol.symbol_type {
                        SymbolType::Variable(var_type) => Some(var_type.clone()),
                        SymbolType::Function { return_type, .. } => Some(return_type.clone()),
                    },
                    None => None,
                };
                assert(strings_view(self.errors@) + Seq::<Seq<char>>::empty() =~= strings_view(self.errors@));
                r
            },
            Expression::Int(_) => {
                assert(strings_view(self.errors@) + Seq::<Seq<char>>::empty() =~= strings_view(self.errors@));
                Some(String::from_str("int"))
            },
            Expression::Float(_) => {
                assert(strings_view(self.errors@) + Seq::<Seq<char>>::empty() =~= strings_view(self.errors@));
                Some(String::from_str("float"))
            },
            Expression::Bool(_) => {
                assert(strings_view(self.errors@) + Seq::<Seq<char>>::empty() =~= strings_view(self.errors@));
                Some(String::from_str("bool"))
            },
            Expression::Str(_) => {
                assert(strings_view(self.errors@) + Seq::<Seq<char>>::empty() =~= strings_view(self.errors@));
                Some(String::from_str("string"))
            },
            Expression::Binary(bin_expr) => {
                let ghost st0 = self.state();
                let left_type = self.get_expression_type(&bin_expr.left)?;
                let ghost st1 = self.state();
                let right_type = match self.get_expression_type(&bin_expr.right) {
                    Some(t) => t,
                    None => {
                        assert(st0.errors + expr_type_spec(st0.scopes, bin_expr.left@).1
                            + expr_type_spec(st0.scopes, bin_expr.right@).1 =~= self.state().errors);
                        assert(st0.errors + expr_type_spec(st0.scopes, bin_expr.left@).1
                            + expr_type_spec(st0.scopes, bin_expr.right@).1 =~= st0.errors + (expr_type_spec(st0.scopes, bin_expr.left@).1
                            + expr_type_spec(st0.scopes, bin_expr.right@).1));
                        return None;
                    },
                };
                let ghost le = expr_type_spec(st0.scopes, bin_expr.left@).1;
                let ghost re = expr_type_spec(st0.scopes, bin_expr.right@).1;
                assert(st0.errors + le + re =~= st0.errors + (le + re));
                if !text_eq(left_type.as_str(), right_type.as_str()) {
                    let m = binary_mismatch(left_type.as_str(), right_type.as_str());
                    self.report(m);
                    assert(st0.errors + le + re + seq![m@] =~= st0.errors + (le + re + seq![m@]));
                    return None;
                }
                let op = bin_expr.op.as_str();
                if text_eq(op, "+") || text_eq(op, "-") || text_eq(op, "*") || text_eq(op, "/") {
                    Some(left_type)
                } else if text_eq(op, "==") || text_eq(op, "!=") || text_eq(op, "<") || text_eq(
                    op,
                    "<=",
                ) || text_eq(op, ">") || text_eq(op, ">=") {
                    Some(String::from_str("bool"))
                } else {
                    let m = unknown_operator(op);
                    self.report(m);
                    assert(st0.errors + le + re + seq![m@] =~= st0.errors + (le + re + seq![m@]));
                    None
                }
            },
            Expression::FunctionCall(call) => {
                // 0: undefined, 1: a variable, 2: a function of the given return type
                let (found, return_type) = match self.symbol_table.resolve(call.name.as_str()) {
                    Some(symbol) => match &symbol.symbol_type {
                        SymbolType::Function { return_type, .. } => (2u8, Some(return_type.clone())),
                        SymbolType::Variable(_) => (1u8, None),
                    },
                    None => (0u8, None),
                };
                if found == 2 {
                    assert(strings_view(self.errors@) + Seq::<Seq<char>>::empty() =~= strings_view(self.errors@));
                    return_type
                } else if found == 1 {
                    self.report(not_a_function(call.name.as_str()));
                    None
                } else {
                    self.report(undefined_function(call.name.as_str()));
                    None
                }
            },
        }
    }

    /// Checks the names of an expression, as `check_expr_spec` states,
    /// recording the errors found.
    pub fn analyze_expression(&mut self, expr: &Expression)
        ensures
            final(self).state() == with_errors(
                old(self).state(),
                check_expr_spec(old(self).state().scopes, expr@),
            ),
            final(self).ast == old(self).ast,
        decreases expr,
    {
        let ghost st0 = self.state();
        match expr {
            Expression::Ident(name) => {
                assert(expr@ == ExprView::Ident(name@));
                let found = self.symbol_table.resolve(name.as_str()).is_some();
                if !found {
                    assert(check_expr_spec(st0.scopes, expr@) == seq![diagnostics::undefined_variable_message(name@)]);
                    self.report(undefined_variable(name.as_str()));
                    assert(self.state() == with_errors(st0, check_expr_spec(st0.scopes, expr@)));
                } else {
                    assert(check_expr_spec(st0.scopes, expr@) == Seq::<Seq<char>>::empty());
                    assert(strings_view(self.errors@) + Seq::<Seq<char>>::empty() =~= strings_view(self.errors@));
                    assert(self.state() == with_errors(st0, check_expr_spec(st0.scopes, expr@)));
                }
            },
            Expression::Binary(bin_expr) => {
                self.analyze_expression(&bin_expr.left);
                self.analyze_expression(&bin_expr.right);
                assert(st0.errors + check_expr_spec(st0.scopes, bin_expr.left@) + check_expr_spec(
                    st0.scopes,
                    bin_expr.right@,
                ) =~= st0.errors + (check_expr_spec(st0.scopes, bin_expr.left@) + check_expr_spec(
                    st0.scopes,
                    bin_expr.right@,
                )));
            },
            Expression::FunctionCall(call) => {
                if text_eq(call.name.as_str(), "print") {
                    proof { crate::parser::models::expression::lemma_exprs_view(call.arguments@); }
                    self.analyze_expressions(&call.arguments);
                    return;
                }
                // None: undefined; Some(None): a variable; Some(Some(n)): a function of n parameters
                let found: Option<Option<usize>> = match self.symbol_table.resolve(call.name.as_str()) {
                    Some(symbol) => match &symbol.symbol_type {
                        SymbolType::Function { parameters, .. } => Some(Some(parameters.len())),
                        SymbolType::Variable(_) => Some(None),
                    },
                    None => None,
                };
                match found {
                    Some(Some(n)) => {
                        proof { crate::parser::models::expression::lemma_exprs_view(call.arguments@); }
                        let ghost count_errors: Seq<Seq<char>> = if n != call.arguments.len() {
                            seq![diagnostics::arg_count_message(call.name@, n as nat, call.arguments@.len())]
                        } else {
                            seq![]
                        };
                        if n != call.arguments.len() {
                            self.report(arg_count(call.name.as_str(), n, call.arguments.len()));
                        } else {
                            assert(strings_view(self.errors@) + Seq::<Seq<char>>::empty() =~= strings_view(self.errors@));
                        }
                        let ghost st1 = self.state();
                        self.analyze_expressions(&call.arguments);
                        assert(st0.errors + count_errors + check_exprs_spec(st0.scopes, exprs_view(call.arguments@))
                            =~= st0.errors + (count_errors + check_exprs_spec(st0.scopes, exprs_view(call.arguments@))));
                    },
                    Some(None) => {
                        self.report(not_a_function(call.name.as_str()));
                    },
                    None => {
                        self.report(undefined_function(call.name.as_str()));
                    },
                }
            },
            _ => {
                assert(check_expr_spec(st0.scopes, expr@) == Seq::<Seq<char>>::empty());
                assert(strings_view(self.errors@) + Seq::<Seq<char>>::empty() =~= strings_view(self.errors@));
            },
        }
    }

    /// Checks the names of each expression in order.
    fn analyze_expressions(&mut self, args: &Vec<Expression>)
        ensures
            final(self).state() == with_errors(
                old(self).state(),
                check_exprs_spec(old(self).state().scopes, exprs_view(args@)),
            ),
            final(self).ast == old(self).ast,
        decreases args,
    {
        let ghost st0 = self.state();
        let mut i: usize = 0;
        assert(exprs_view(args@.take(0)) =~= Seq::<ExprView>::empty());
        assert(st0.errors + Seq::<Seq<char>>::empty() =~= st0.errors);
        while i < args.len()
            invariant
                i <= args@.len(),
                self.ast == old(self).ast,
                self.state() == with_errors(st0, check_exprs_spec(st0.scopes, exprs_view(args@.take(i as int)))),
            decreases args.len() - i,
        {
            proof {
                assert(args@.take(i + 1).drop_last() =~= args@.take(i as int));
                assert(args@.take(i + 1).last() == args@[i as int]);
                assert(decreases_to!(args => args@[i as int]));
            }
            let ghost st1 = self.state();
            self.analyze_expression(&args[i]);
            assert(st1.scopes == st0.scopes);
            assert(exprs_view(args@.take(i + 1)) == exprs_view(args@.take(i as int)).push(expr_view(&args@[i as int])));
            assert(exprs_view(args@.take(i + 1)).drop_last() =~= exprs_view(args@.take(i as int)));
            assert(st0.errors + check_exprs_spec(st0.scopes, exprs_view(args@.take(i as int))) + check_expr_spec(st0.scopes, args@[i as int]@)
                =~= st0.errors + check_exprs_spec(st0.scopes, exprs_view(args@.take(i + 1))));
            i += 1;
        }
        assert(args@.take(args@.len() as int) =~= args@);
    }
}

impl SemanticAnalyzer {
    /// Records the errors for a condition of kind `kind` whose type is `t`.
    fn report_condition(&mut self, kind: &str, t: Option<String>)
        ensures
            final(self).state() == with_errors(old(self).state(), condition_errors(kind@, opt_text(&t))),
            final(self).ast == old(self).ast,
    {
        match t {
            Some(t) => {
                if !text_eq(t.as_str(), "bool") {
                    self.report(cond_not_bool(kind, t.as_str()));
                } else {
                    assert(strings_view(self.errors@) + Seq::<Seq<char>>::empty() =~= strings_view(self.errors@));
                }
            },
            None => {
                self.report(cond_unknown(kind));
            },
        }
    }

    /// Analyses a variable declaration, as `var_decl_spec` states.
    pub fn analyze_var_declaration(&mut self, var_decl: &VarDeclaration)
        ensures
            final(self).state() == var_decl_spec(
                old(self).state(),
                var_decl.name@,
                var_decl.declared_type@,
                opt_expr_view(&var_decl.init),
            ),
            final(self).ast == old(self).ast,
    {
        let ghost st0 = self.state();
        let ghost e1: Seq<Seq<char>> = if type_defined(var_decl.declared_type@) {
            seq![]
        } else {
            seq![diagnostics::type_not_defined_message(var_decl.declared_type@)]
        };
        if !self.is_type_defined(var_decl.declared_type.as_str()) {
            self.report(type_not_defined(var_decl.declared_type.as_str()));
        } else {
            assert(strings_view(self.errors@) + Seq::<Seq<char>>::empty() =~= strings_view(self.errors@));
        }
        let symbol = Symbol {
            name: var_decl.name.clone(),
            symbol_type: SymbolType::Variable(var_decl.declared_type.clone()),
        };
        self.define_symbol(var_decl.name.clone(), symbol);
        let ghost st2 = self.state();
        let ghost e2 = define_in(st0.scopes, var_decl.name@, symbol@).1;
        match &var_decl.init {
            Some(expr) => {
                let expr_type = self.get_expression_type(expr);
                let ghost es = expr_type_spec(st2.scopes, expr@).1;
                match expr_type {
                    Some(t) => {
                        if !text_eq(t.as_str(), var_decl.declared_type.as_str()) {
                            let m = var_decl_mismatch(
                                var_decl.name.as_str(),
                                var_decl.declared_type.as_str(),
                                t.as_str(),
                            );
                            self.report(m);
                            assert(self.state().errors =~= st0.errors + e1 + e2 + (es + seq![m@]));
                        } else {
                            assert(self.state().errors =~= st0.errors + e1 + e2 + (es + Seq::<Seq<char>>::empty()));
                        }
                    },
                    None => {
                        assert(self.state().errors =~= st0.errors + e1 + e2 + (es + Seq::<Seq<char>>::empty()));
                    },
                }
            },
            None => {
                assert(self.state().errors =~= st0.errors + e1 + e2 + Seq::<Seq<char>>::empty());
            },
        }
    }

    /// Analyses a return, as `return_spec` states.
    pub fn analyze_return_statement(&mut self, expr_opt: &Option<Expression>)
        ensures
            final(self).state() == return_spec(old(self).state(), opt_expr_view(expr_opt)),
            final(self).ast == old(self).ast,
    {
        let ghost st0 = self.state();
        let current: Option<String> = match &self.current_function_return_type {
            Some(t) => Some(t.clone()),
            None => None,
        };
        match current {
            Some(expected) => {
                match expr_opt {
                    Some(expr) => {
                        let expr_type = self.get_expression_type(expr);
                        let ghost es = expr_type_spec(st0.scopes, expr@).1;
                        match expr_type {
                            Some(t) => {
                                if !text_eq(t.as_str(), expected.as_str()) {
                                    let m = return_mismatch(expected.as_str(), t.as_str());
                                    self.report(m);
                                    assert(self.state().errors =~= st0.errors + (es + seq![m@]));
                                } else {
                                    assert(self.state().errors =~= st0.errors + (es + Seq::<Seq<char>>::empty()));
                                }
                            },
                            None => {
                                assert(self.state().errors =~= st0.errors + (es + Seq::<Seq<char>>::empty()));
                            },
                        }
                    },
                    None => {
                        if !text_eq(expected.as_str(), "void") {
                            self.report(return_missing(expected.as_str()));
                        }
                    },
                }
            },
            None => {
                self.report(String::from_str("Return statement not inside a function."));
            },
        }
    }

    /// Analyses an assignment, as `affection_spec` states.
    pub fn analyze_var_affection(&mut self, var_affection: &VarAffection)
        ensures
            final(self).state() == affection_spec(
                old(self).state(),
                var_affection.name@,
                expr_view(&var_affection.value),
            ),
            final(self).ast == old(self).ast,
    {
        let ghost st0 = self.state();
        let name = var_affection.name.as_str();
        let defined = self.symbol_table.resolve(name).is_some();
        let ghost e1: Seq<Seq<char>> = if !defined {
            seq![diagnostics::undefined_variable_message(name@)]
        } else {
            seq![]
        };
        if !defined {
            self.report(undefined_variable(name));
        } else {
            assert(strings_view(self.errors@) + Seq::<Seq<char>>::empty() =~= strings_view(self.errors@));
        }
        let expr_type = self.get_expression_type(&var_affection.value);
        let ghost es = expr_type_spec(st0.scopes, var_affection.value@).1;
        let kind: Option<Option<String>> = match self.symbol_table.resolve(name) {
            Some(symbol) => match &symbol.symbol_type {
                SymbolType::Variable(var_type) => Some(Some(var_type.clone())),
                _ => Some(None),
            },
            None => None,
        };
        match kind {
            Some(Some(var_type)) => {
                match expr_type {
                    Some(t) => {
                        if !text_eq(t.as_str(), var_type.as_str()) {
                            let m = assign_mismatch(name, var_type.as_str(), t.as_str());
                            self.report(m);
                            assert(self.state().errors =~= st0.errors + (e1 + es + seq![m@]));
                        } else {
                            assert(self.state().errors =~= st0.errors + (e1 + es + Seq::<Seq<char>>::empty()));
                        }
                    },
                    None => {
                        assert(self.state().errors =~= st0.errors + (e1 + es + Seq::<Seq<char>>::empty()));
                    },
                }
            },
            Some(None) => {
                let m = not_a_variable(name);
                self.report(m);
                assert(self.state().errors =~= st0.errors + (e1 + es + seq![m@]));
            },
            None => {
                assert(self.state().errors =~= st0.errors + (e1 + es + Seq::<Seq<char>>::empty()));
            },
        }
    }
}

impl SemanticAnalyzer {
    /// Analyses statements in order, as `analyze_stmts_spec` states.
    fn analyze_statements(&mut self, stmts: &Vec<Statement>)
        ensures
            final(self).state() == analyze_stmts_spec(old(self).state(), stmts_view(stmts@)),
            final(self).ast == old(self).ast,
        decreases stmts,
    {
        let ghost st0 = self.state();
        let mut i: usize = 0;
        assert(stmts_view(stmts@.take(0)) =~= Seq::<StmtView>::empty());
        while i < stmts.len()
            invariant
                i <= stmts@.len(),
                self.ast == old(self).ast,
                self.state() == analyze_stmts_spec(st0, stmts_view(stmts@.take(i as int))),
            decreases stmts.len() - i,
        {
            proof {
                assert(decreases_to!(stmts => stmts@[i as int]));
                assert(stmts@.take(i + 1).drop_last() =~= stmts@.take(i as int));
            }
            self.analyze_statement(&stmts[i]);
            proof {
                let prev = stmts_view(stmts@.take(i as int));
                assert(stmts_view(stmts@.take(i + 1)) == prev.push(stmt_view(&stmts@[i as int])));
                assert(prev.push(stmt_view(&stmts@[i as int])).drop_last() =~= prev);
            }
            i += 1;
        }
        assert(stmts@.take(stmts@.len() as int) =~= stmts@);
    }

    /// Analyses an `if`: its condition must be a `bool`, and each branch is
    /// analysed in a scope of its own.
    pub fn analyze_if_statement(&mut self, if_stmt: &IfStatement)
        ensures
            final(self).state() == analyze_stmt_spec(old(self).state(), Statement::If(*if_stmt)@),
            final(self).ast == old(self).ast,
        decreases if_stmt,
    {
        let ghost st0 = self.state();
        let cond_type = self.get_expression_type(&if_stmt.condition);
        let ghost t = opt_text(&cond_type);
        self.report_condition("if", cond_type);
        proof {
            let es = expr_type_spec(st0.scopes, if_stmt.condition@).1;
            assert(st0.errors + es + condition_errors("if"@, t) =~= st0.errors + (es + condition_errors("if"@, t)));
        }
        self.enter_scope();
        self.analyze_statements(&if_stmt.then_branch);
        self.exit_scope();
        match &if_stmt.else_branch {
            Some(else_branch) => {
                self.enter_scope();
                self.analyze_statements(else_branch);
                self.exit_scope();
            },
            None => {},
        }
    }

    /// Analyses a `while`: its condition must be a `bool`, and its body is
    /// analysed in a scope of its own.
    pub fn analyze_while_statement(&mut self, while_stmt: &WhileStatement)
        ensures
            final(self).state() == analyze_stmt_spec(old(self).state(), Statement::While(*while_stmt)@),
            final(self).ast == old(self).ast,
        decreases while_stmt,
    {
        let ghost st0 = self.state();
        let cond_type = self.get_expression_type(&while_stmt.condition);
        let ghost t = opt_text(&cond_type);
        self.report_condition("while", cond_type);
        proof {
            let es = expr_type_spec(st0.scopes, while_stmt.condition@).1;
            assert(st0.errors + es + condition_errors("while"@, t) =~= st0.errors + (es + condition_errors("while"@, t)));
        }
        self.enter_scope();
        self.analyze_statements(&while_stmt.body);
        self.exit_scope();
    }
}

impl SemanticAnalyzer {
    /// Analyses a `for` in a scope of its own: its initialisation, its
    /// condition, which must be an expression of type `bool`, its increment
    /// and its body.
    pub fn analyze_for_statement(&mut self, for_stmt: &ForStatement)
        ensures
            final(self).state() == analyze_stmt_spec(old(self).state(), Statement::For(*for_stmt)@),
            final(self).ast == old(self).ast,
        decreases for_stmt,
    {
        let ghost st0 = self.state();
        self.enter_scope();
        self.analyze_statement(&for_stmt.init);
        let ghost s1 = self.state();
        assert(s1 == analyze_stmt_spec(enter_state(st0), for_stmt.init@));
        match &*for_stmt.cond {
            Statement::ExpressionStatement(expr) => {
                let cond_type = self.get_expression_type(expr);
                let ghost t = opt_text(&cond_type);
                self.report_condition("for", cond_type);
                proof {
                    let es = expr_type_spec(s1.scopes, expr@).1;
                    assert(s1.errors + es + condition_errors("for"@, t) =~= s1.errors + (es + condition_errors("for"@, t)));
                }
            },
            _ => {
                self.report(String::from_str("Condition in 'for' statement must be an expression statement."));
            },
        }
        let ghost s2 = self.state();
        assert(s2 == match for_stmt.cond@ {
                StmtView::ExpressionStatement { expr } => {
                    let (t, es) = expr_type_spec(s1.scopes, expr);
                    with_errors(s1, es + condition_errors("for"@, t))
                },
                _ => with_errors(
                    s1,
                    seq!["Condition in 'for' statement must be an expression statement."@],
                ),
            });
        self.analyze_statement(&for_stmt.incr);
        self.analyze_statements(&for_stmt.body);
        self.exit_scope();
    }

    /// Analyses a `switch`: each case value must have the type of the
    /// condition, and each body, the default one included, is analysed in a
    /// scope of its own. Nothing but the condition is analysed when its type
    /// cannot be determined.
    pub fn analyze_switch_statement(&mut self, switch_stmt: &SwitchStatement)
        ensures
            final(self).state() == analyze_stmt_spec(old(self).state(), Statement::Switch(*switch_stmt)@),
            final(self).ast == old(self).ast,
        decreases switch_stmt,
    {
        let switch_type = self.get_expression_type(&switch_stmt.condition);
        match switch_type {
            Some(switch_type) => {
                self.analyze_cases(&switch_stmt.cases, switch_type.as_str());
                match &switch_stmt.default {
                    Some(default_body) => {
                        self.enter_scope();
                        self.analyze_statements(default_body);
                        self.exit_scope();
                    },
                    None => {},
                }
            },
            None => {
                self.report(String::from_str("Unable to determine the type of the condition in 'switch' statement."));
            },
        }
    }

    /// Analyses the cases of a switch on a value of type `t`, as
    /// `analyze_cases_spec` states.
    fn analyze_cases(&mut self, cases: &Vec<SwitchCase>, t: &str)
        ensures
            final(self).state() == analyze_cases_spec(old(self).state(), t@, cases_view(cases@)),
            final(self).ast == old(self).ast,
        decreases cases,
    {
        let ghost st0 = self.state();
        let mut i: usize = 0;
        assert(cases_view(cases@.take(0)) =~= Seq::<(ExprView, Seq<StmtView>)>::empty());
        while i < cases.len()
            invariant
                i <= cases@.len(),
                self.ast == old(self).ast,
                self.state() == analyze_cases_spec(st0, t@, cases_view(cases@.take(i as int))),
            decreases cases.len() - i,
        {
            let case = &cases[i];
            proof {
                assert(decreases_to!(cases => cases@[i as int]));
                assert(decreases_to!(cases@[i as int] => cases@[i as int].body));
                assert(cases@.take(i + 1).drop_last() =~= cases@.take(i as int));
            }
            let ghost s0 = self.state();
            let case_type = self.get_expression_type(&case.value);
            let ghost es = expr_type_spec(s0.scopes, case.value@).1;
            match case_type {
                Some(ct) => {
                    if !text_eq(ct.as_str(), t) {
                        let m = case_mismatch(ct.as_str(), t);
                        self.report(m);
                        assert(s0.errors + es + seq![m@] =~= s0.errors + (es + seq![m@]));
                    } else {
                        assert(s0.errors + es =~= s0.errors + (es + Seq::<Seq<char>>::empty()));
                    }
                },
                None => {
                    let m = String::from_str("Unable to determine the type of a case in 'switch' statement.");
                    self.report(m);
                    assert(s0.errors + es + seq![m@] =~= s0.errors + (es + seq![m@]));
                },
            }
            self.enter_scope();
            self.analyze_statements(&case.body);
            self.exit_scope();
            proof {
                let prev = cases_view(cases@.take(i as int));
                let c = (expr_view(&cases@[i as int].value), stmts_view(cases@[i as int].body@));
                assert(cases_view(cases@.take(i + 1)) == prev.push(c));
                assert(prev.push(c).drop_last() =~= prev);
            }
            i += 1;
        }
        assert(cases@.take(cases@.len() as int) =~= cases@);
    }

    /// Analyses a function declaration: the function is defined in the
    /// current scope; its parameters, each of a defined type, and its body
    /// are analysed in a scope of their own, with the function's return type
    /// as the one a return must give.
    pub fn analyze_function_declaration(&mut self, func_decl: &FunctionDeclaration)
        ensures
            final(self).state() == analyze_stmt_spec(
                old(self).state(),
                Statement::FunctionDeclaration(*func_decl)@,
            ),
            final(self).ast == old(self).ast,
        decreases func_decl,
    {
        let ghost st0 = self.state();
        let ghost pv = params_view(func_decl.parameters@);
        let mut parameter_types: Vec<String> = Vec::new();
        let mut i: usize = 0;
        while i < func_decl.parameters.len()
            invariant
                i <= func_decl.parameters@.len(),
                parameter_types@.len() == i,
                forall|j: int| 0 <= j < i ==> #[trigger] parameter_types@[j]@ == func_decl.parameters@[j].declared_type@,
            decreases func_decl.parameters.len() - i,
        {
            parameter_types.push(func_decl.parameters[i].declared_type.clone());
            i += 1;
        }
        assert(strings_view(parameter_types@) =~= param_types(pv));
        let symbol = Symbol {
            name: func_decl.name.clone(),
            symbol_type: SymbolType::Function {
                parameters: parameter_types,
                return_type: func_decl.return_type.clone(),
            },
        };
        self.define_symbol(func_decl.name.clone(), symbol);
        let ghost s1 = self.state();
        self.enter_scope();
        let ghost scopes1 = enter(s1.scopes);
        let mut k: usize = 0;
        assert(pv.take(0) =~= Seq::<(Seq<char>, Seq<char>)>::empty());
        assert(s1.errors + Seq::<Seq<char>>::empty() =~= s1.errors);
        while k < func_decl.parameters.len()
            invariant
                k <= func_decl.parameters@.len(),
                pv == params_view(func_decl.parameters@),
                self.ast == old(self).ast,
                self.state() == (AnalysisState {
                    scopes: define_params_spec(scopes1, pv.take(k as int)).0,
                    errors: s1.errors + define_params_spec(scopes1, pv.take(k as int)).1,
                    return_type: st0.return_type,
                }),
            decreases func_decl.parameters.len() - k,
        {
            let param = &func_decl.parameters[k];
            let ghost sk = self.state();
            proof {
                assert(pv.take(k + 1).drop_last() =~= pv.take(k as int));
                assert(pv.take(k + 1).last() == (param.name@, param.declared_type@));
            }
            let ghost e1: Seq<Seq<char>> = if type_defined(param.declared_type@) {
                seq![]
            } else {
                seq![diagnostics::param_type_not_defined_message(param.declared_type@, param.name@)]
            };
            if !self.is_type_defined(param.declared_type.as_str()) {
                self.report(param_type_not_defined(param.declared_type.as_str(), param.name.as_str()));
            } else {
                assert(strings_view(self.errors@) + Seq::<Seq<char>>::empty() =~= strings_view(self.errors@));
            }
            let param_symbol = Symbol {
                name: param.name.clone(),
                symbol_type: SymbolType::Variable(param.declared_type.clone()),
            };
            self.define_symbol(param.name.clone(), param_symbol);
            proof {
                let e0 = define_params_spec(scopes1, pv.take(k as int)).1;
                let e2 = define_in(sk.scopes, param.name@, param_symbol@).1;
                assert(s1.errors + e0 + e1 + e2 =~= s1.errors + (e0 + e1 + e2));
            }
            k += 1;
        }
        assert(pv.take(pv.len() as int) =~= pv);
        let mut previous: Option<String> = Some(func_decl.return_type.clone());
        std::mem::swap(&mut previous, &mut self.current_function_return_type);
        self.analyze_statements(&func_decl.body);
        self.current_function_return_type = previous;
        self.exit_scope();
    }
}

impl SemanticAnalyzer {
    /// An analyser of the program that `input` holds: the input's bytes are
    /// read into tokens and parsed, and the analyser starts with one empty
    /// scope and no errors. Every word and number of the input must begin
    /// and end on character boundaries.
    pub fn new(input: String) -> (a: SemanticAnalyzer)
        requires
            encode_utf8(input@).len() + 3 < usize::MAX,
            lexes_cleanly_from(byte_chars(encode_utf8(input@)), 0),
        ensures
            a.ast@ == parse_statements_spec(lex_all(byte_chars(encode_utf8(input@)), 0), 0).0,
            a.state() == (AnalysisState {
                scopes: seq![Seq::empty()],
                errors: Seq::empty(),
                return_type: None,
            }),
    {
        let ghost text = byte_chars(encode_utf8(input@));
        let tokens = tokenize(input);
        proof { law_tokens_end_with_eof(text, 0); }
        let mut parser = Parser::new(tokens);
        let ast = parser.parse_file();
        SemanticAnalyzer::from_ast(ast)
    }

    /// Analyses the program's statements in order, and gives all the errors
    /// recorded.
    pub fn analyze(&mut self) -> (errors: Vec<String>)
        ensures
            final(self).state() == analyze_stmts_spec(old(self).state(), old(self).ast@),
            final(self).ast == old(self).ast,
            strings_view(errors@) == final(self).state().errors,
    {
        let mut ast = AST { statements: Vec::new() };
        std::mem::swap(&mut ast, &mut self.ast);
        self.analyze_statements(&ast.statements);
        self.ast = ast;
        copy_strings(&self.errors)
    }
}

} // verus!
