use vstd::prelude::*;

use crate::parser::models::expression::{expr_view, ExprView, Expression};

verus! {

/// A statement of the language.
#[derive(Debug)]
pub enum Statement {
    VarDeclaration(VarDeclaration),
    VarAffection(VarAffection),
    ExpressionStatement(Expression),
    Return(Option<Expression>),
    If(IfStatement),
    For(ForStatement),
    While(WhileStatement),
    Switch(SwitchStatement),
    FunctionDeclaration(FunctionDeclaration),
}

/// `let name: declared_type = init;`, the initial value being optional.
#[derive(Debug)]
pub struct VarDeclaration {
    pub name: String,
    pub declared_type: String,
    pub init: Option<Expression>,
}

/// `name = value;`
#[derive(Debug)]
pub struct VarAffection {
    pub name: String,
    pub value: Expression,
}

/// A returned value.
#[derive(Debug)]
pub struct Return {
    pub value: Expression,
}

/// `if (condition) { then_branch } else { else_branch }`.
#[derive(Debug)]
pub struct IfStatement {
    pub condition: Expression,
    pub then_branch: Vec<Statement>,
    pub else_branch: Option<Vec<Statement>>,
}

/// `for (init; cond; incr) { body }`.
#[derive(Debug)]
pub struct ForStatement {
    pub init: Box<Statement>,
    pub cond: Box<Statement>,
    pub incr: Box<Statement>,
    pub body: Vec<Statement>,
}

/// `while (condition) { body }`.
#[derive(Debug)]
pub struct WhileStatement {
    pub condition: Expression,
    pub body: Vec<Statement>,
}

/// One `case value: body` of a switch.
#[derive(Debug)]
pub struct SwitchCase {
    pub value: Expression,
    pub body: Vec<Statement>,
}

/// `switch (condition) { cases... default: ... }`.
#[derive(Debug)]
pub struct SwitchStatement {
    pub condition: Expression,
    pub cases: Vec<SwitchCase>,
    pub default: Option<Vec<Statement>>,
}

/// `function name(parameters): return_type { body }`.
#[derive(Debug)]
pub struct FunctionDeclaration {
    pub name: String,
    pub parameters: Vec<Parameter>,
    pub return_type: String,
    pub body: Vec<Statement>,
}

/// A function declaration without a return type.
#[derive(Debug)]
pub struct FunctionDecl {
    pub name: String,
    pub params: Vec<Parameter>,
    pub body: Vec<Statement>,
}

/// A parameter `name: declared_type`.
#[derive(Debug)]
pub struct Parameter {
    pub name: String,
    pub declared_type: String,
}

/// What a statement stands for.
#[allow(inconsistent_fields)]
pub enum StmtView {
    VarDeclaration { name: Seq<char>, declared_type: Seq<char>, init: Option<ExprView> },
    VarAffection { name: Seq<char>, value: ExprView },
    ExpressionStatement { expr: ExprView },
    Return { value: Option<ExprView> },
    If { condition: ExprView, then_branch: Seq<StmtView>, else_branch: Option<Seq<StmtView>> },
    For { init: Box<StmtView>, cond: Box<StmtView>, incr: Box<StmtView>, body: Seq<StmtView> },
    While { condition: ExprView, body: Seq<StmtView> },
    Switch {
        condition: ExprView,
        cases: Seq<(ExprView, Seq<StmtView>)>,
        default: Option<Seq<StmtView>>,
    },
    FunctionDeclaration {
        name: Seq<char>,
        parameters: Seq<(Seq<char>, Seq<char>)>,
        return_type: Seq<char>,
        body: Seq<StmtView>,
    },
}

/// The view of an optional expression.
pub open spec fn opt_expr_view(e: &Option<Expression>) -> Option<ExprView> {
    match e {
        Some(x) => Some(expr_view(x)),
        None => None,
    }
}

/// The view of a statement.
pub open spec fn stmt_view(s: &Statement) -> StmtView
    decreases s,
{
    match s {
        Statement::VarDeclaration(d) => StmtView::VarDeclaration {
            name: d.name@,
            declared_type: d.declared_type@,
            init: opt_expr_view(&d.init),
        },
        Statement::VarAffection(a) => StmtView::VarAffection { name: a.name@, value: expr_view(&a.value) },
        Statement::ExpressionStatement(e) => StmtView::ExpressionStatement { expr: expr_view(e) },
        Statement::Return(e) => StmtView::Return { value: opt_expr_view(e) },
        Statement::If(i) => StmtView::If {
            condition: expr_view(&i.condition),
            then_branch: stmts_view(i.then_branch@),
            else_branch: match &i.else_branch {
                Some(b) => Some(stmts_view(b@)),
                None => None,
            },
        },
        Statement::For(f) => StmtView::For {
            init: Box::new(stmt_view(&f.init)),
            cond: Box::new(stmt_view(&f.cond)),
            incr: Box::new(stmt_view(&f.incr)),
            body: stmts_view(f.body@),
        },
        Statement::While(w) => StmtView::While {
            condition: expr_view(&w.condition),
            body: stmts_view(w.body@),
        },
        Statement::Switch(sw) => StmtView::Switch {
            condition: expr_view(&sw.condition),
            cases: cases_view(sw.cases@),
            default: match &sw.default {
                Some(b) => Some(stmts_view(b@)),
                None => None,
            },
        },
        Statement::FunctionDeclaration(f) => StmtView::FunctionDeclaration {
            name: f.name@,
            parameters: params_view(f.parameters@),
            return_type: f.return_type@,
            body: stmts_view(f.body@),
        },
    }
}

/// The views of a sequence of statements.
pub open spec fn stmts_view(s: Seq<Statement>) -> Seq<StmtView>
    decreases s,
{
    if s.len() == 0 {
        Seq::empty()
    } else {
        stmts_view(s.drop_last()).push(stmt_view(&s.last()))
    }
}

/// The views of the cases of a switch.
pub open spec fn cases_view(s: Seq<SwitchCase>) -> Seq<(ExprView, Seq<StmtView>)>
    decreases s,
{
    if s.len() == 0 {
        Seq::empty()
    } else {
        cases_view(s.drop_last()).push((expr_view(&s.last().value), stmts_view(s.last().body@)))
    }
}

/// The names and type names of parameters.
pub open spec fn params_view(s: Seq<Parameter>) -> Seq<(Seq<char>, Seq<char>)> {
    s.map_values(|p: Parameter| (p.name@, p.declared_type@))
}

/// The views of a sequence of statements are, one by one, the views of its
/// statements.
pub proof fn lemma_stmts_view(s: Seq<Statement>)
    ensures
        stmts_view(s).len() == s.len(),
        forall|i: int| 0 <= i < s.len() ==> #[trigger] stmts_view(s)[i] == stmt_view(&s[i]),
    decreases s.len(),
{
    if s.len() > 0 {
        lemma_stmts_view(s.drop_last());
    }
}

/// The views of the cases of a switch are, one by one, the views of its
/// cases.
pub proof fn lemma_cases_view(s: Seq<SwitchCase>)
    ensures
        cases_view(s).len() == s.len(),
        forall|i: int|
            0 <= i < s.len() ==> #[trigger] cases_view(s)[i] == (
                expr_view(&s[i].value),
                stmts_view(s[i].body@),
            ),
    decreases s.len(),
{
    if s.len() > 0 {
        lemma_cases_view(s.drop_last());
    }
}

impl View for Statement {
    type V = StmtView;

    open spec fn view(&self) -> StmtView {
        stmt_view(self)
    }
}

} // verus!
