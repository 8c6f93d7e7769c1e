use vstd::prelude::*;

use crate::parser::models::expression::ExprView;

verus! {

/// A program of the first parser: its statements in order.
#[derive(Debug)]
pub struct AST {
    pub statements: Vec<Statement>,
}

/// A statement of the first parser.
#[derive(Debug)]
pub enum Statement {
    VarDecl(VarDecl),
    FunctionDecl(FunctionDecl),
}

/// `let name: declared_type = init;`, the initial value being optional.
#[derive(Debug)]
pub struct VarDecl {
    pub name: String,
    pub declared_type: String,
    pub init: Option<Expression>,
}

/// A function: its name, parameters and body.
#[derive(Debug)]
pub struct FunctionDecl {
    pub name: String,
    pub params: Vec<Parameter>,
    pub body: Vec<Statement>,
}

/// A parameter `name: declared_type`.
#[derive(Debug)]
pub struct Parameter {
    pub name: String,
    pub declared_type: String,
}

/// A literal or a name. A floating-point literal is kept as the text it
/// was written with.
#[derive(Debug)]
pub enum Expression {
    Ident(String),
    Int(i64),
    Float(String),
    Str(String),
    Bool(bool),
}

/// What a statement of the first parser stands for.
pub enum NodeView {
    VarDecl { name: Seq<char>, declared_type: Seq<char>, init: Option<ExprView> },
    FunctionDecl { name: Seq<char>, params: Seq<(Seq<char>, Seq<char>)>, body: Seq<NodeView> },
}

impl View for Expression {
    type V = ExprView;

    open spec fn view(&self) -> ExprView {
        match self {
            Expression::Ident(s) => ExprView::Ident(s@),
            Expression::Int(i) => ExprView::Int(*i),
            Expression::Float(s) => ExprView::Float(s@),
            Expression::Str(s) => ExprView::Str(s@),
            Expression::Bool(b) => ExprView::Bool(*b),
        }
    }
}

/// The view of an optional expression.
pub open spec fn opt_node_expr_view(e: &Option<Expression>) -> Option<ExprView> {
    match e {
        Some(x) => Some(x@),
        None => None,
    }
}

/// The view of a statement.
pub open spec fn node_view(s: &Statement) -> NodeView
    decreases s,
{
    match s {
        Statement::VarDecl(d) => NodeView::VarDecl {
            name: d.name@,
            declared_type: d.declared_type@,
            init: opt_node_expr_view(&d.init),
        },
        Statement::FunctionDecl(f) => NodeView::FunctionDecl {
            name: f.name@,
            params: f.params@.map_values(|p: Parameter| (p.name@, p.declared_type@)),
            body: nodes_view(f.body@),
        },
    }
}

/// The views of a sequence of statements.
pub open spec fn nodes_view(s: Seq<Statement>) -> Seq<NodeView>
    decreases s,
{
    if s.len() == 0 {
        Seq::empty()
    } else {
        nodes_view(s.drop_last()).push(node_view(&s.last()))
    }
}

impl View for Statement {
    type V = NodeView;

    open spec fn view(&self) -> NodeView {
        node_view(self)
    }
}

impl View for AST {
    type V = Seq<NodeView>;

    open spec fn view(&self) -> Seq<NodeView> {
        nodes_view(self.statements@)
    }
}

} // verus!
