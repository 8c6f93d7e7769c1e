use vstd::prelude::*;

use crate::text::{int_text, push_int_text};

verus! {

/// An expression of the language. A floating-point literal is kept as the
/// text it was written with.
#[derive(Debug)]
pub enum Expression {
    Ident(String),
    Int(i64),
    Float(String),
    Str(String),
    Bool(bool),
    Binary(Box<BinaryExpression>),
    FunctionCall(Box<FunctionCall>),
}

/// A binary operation `left op right`.
#[derive(Debug)]
pub struct BinaryExpression {
    pub left: Expression,
    pub op: String,
    pub right: Expression,
}

/// A call `name(arguments...)`.
#[derive(Debug)]
pub struct FunctionCall {
    pub name: String,
    pub arguments: Vec<Expression>,
}

/// What an expression stands for.
pub enum ExprView {
    Ident(Seq<char>),
    Int(i64),
    Float(Seq<char>),
    Str(Seq<char>),
    Bool(bool),
    Binary(Box<ExprView>, Seq<char>, Box<ExprView>),
    Call(Seq<char>, Seq<ExprView>),
}

/// The view of an expression.
pub open spec fn expr_view(e: &Expression) -> ExprView
    decreases e,
{
    match e {
        Expression::Ident(s) => ExprView::Ident(s@),
        Expression::Int(i) => ExprView::Int(*i),
        Expression::Float(s) => ExprView::Float(s@),
        Expression::Str(s) => ExprView::Str(s@),
        Expression::Bool(b) => ExprView::Bool(*b),
        Expression::Binary(b) => ExprView::Binary(
            Box::new(expr_view(&b.left)),
            b.op@,
            Box::new(expr_view(&b.right)),
        ),
        Expression::FunctionCall(c) => ExprView::Call(c.name@, exprs_view(c.arguments@)),
    }
}

/// The views of a sequence of expressions.
pub open spec fn exprs_view(s: Seq<Expression>) -> Seq<ExprView>
    decreases s,
{
    if s.len() == 0 {
        Seq::empty()
    } else {
        exprs_view(s.drop_last()).push(expr_view(&s.last()))
    }
}

/// The views of a sequence of expressions are, one by one, the views of its
/// expressions.
pub proof fn lemma_exprs_view(s: Seq<Expression>)
    ensures
        exprs_view(s).len() == s.len(),
        forall|i: int| 0 <= i < s.len() ==> #[trigger] exprs_view(s)[i] == expr_view(&s[i]),
    decreases s.len(),
{
    if s.len() > 0 {
        lemma_exprs_view(s.drop_last());
    }
}

impl View for Expression {
    type V = ExprView;

    open spec fn view(&self) -> ExprView {
        expr_view(self)
    }
}

/// The text of an expression: names and numbers as written, strings in
/// double quotes, binary operations in parentheses with spaces around the
/// operator, and calls as the name followed by the arguments, separated by
/// `, `, in parentheses.
pub open spec fn expr_text(e: ExprView) -> Seq<char>
    decreases e,
{
    match e {
        ExprView::Ident(s) => s,
        ExprView::Int(i) => int_text(i as int),
        ExprView::Float(t) => t,
        ExprView::Str(s) => seq!['"'] + s + seq!['"'],
        ExprView::Bool(b) => if b {
            "true"@
        } else {
            "false"@
        },
        ExprView::Binary(l, op, r) => seq!['('] + expr_text(*l) + seq![' '] + op + seq![' '] + expr_text(
            *r,
        ) + seq![')'],
        ExprView::Call(name, args) => name + seq!['('] + args_text(args) + seq![')'],
    }
}

/// The texts of arguments, separated by `, `.
pub open spec fn args_text(args: Seq<ExprView>) -> Seq<char>
    decreases args,
{
    if args.len() == 0 {
        Seq::empty()
    } else if args.len() == 1 {
        expr_text(args[0])
    } else {
        args_text(args.drop_last()) + seq![',', ' '] + expr_text(args.last())
    }
}

impl Expression {
    /// The text of the expression, as `expr_text` states.
    pub fn to_string(&self) -> (s: String)
        ensures
            s@ == expr_text(self@),
        decreases self,
    {
        match self {
            Expression::Ident(s) => s.clone(),
            Expression::Int(i) => {
                let mut s = String::new();
                push_int_text(&mut s, *i);
                assert(s@ =~= int_text(*i as int));
                s
            },
            Expression::Float(t) => t.clone(),
            Expression::Str(t) => {
                let mut s = String::new();
                s.push('"');
                s.append(t.as_str());
                s.push('"');
                assert(s@ =~= seq!['"'] + t@ + seq!['"']);
                s
            },
            Expression::Bool(b) => if *b {
                String::from_str("true")
            } else {
                String::from_str("false")
            },
            Expression::Binary(b) => b.to_string(),
            Expression::FunctionCall(c) => c.to_string(),
        }
    }

    /// The name or the string that the expression holds.
    pub fn as_ref(&self) -> (r: &str)
        requires
            self is Ident || self is Str,
        ensures
            self matches Expression::Ident(s) ==> r@ == s@,
            self matches Expression::Str(s) ==> r@ == s@,
    {
        match self {
            Expression::Ident(s) => s.as_str(),
            Expression::Str(s) => s.as_str(),
            _ => "",
        }
    }
}

impl BinaryExpression {
    /// The text `(left op right)`.
    pub fn to_string(&self) -> (s: String)
        ensures
            s@ == seq!['('] + expr_text(self.left@) + seq![' '] + self.op@ + seq![' '] + expr_text(
                self.right@,
            ) + seq![')'],
        decreases self,
    {
        let mut s = String::new();
        s.push('(');
        let left = self.left.to_string();
        s.append(left.as_str());
        s.push(' ');
        s.append(self.op.as_str());
        s.push(' ');
        let right = self.right.to_string();
        s.append(right.as_str());
        s.push(')');
        assert(s@ =~= seq!['('] + expr_text(self.left@) + seq![' '] + self.op@ + seq![' '] + expr_text(
            self.right@,
        ) + seq![')']);
        s
    }
}

impl FunctionCall {
    /// The text `name(arguments)`, the arguments separated by `, `.
    pub fn to_string(&self) -> (s: String)
        ensures
            s@ == self.name@ + seq!['('] + args_text(exprs_view(self.arguments@)) + seq![')'],
        decreases self,
    {
        let mut s = self.name.clone();
        s.push('(');
        let ghost start = s@;
        let mut i: usize = 0;
        assert(exprs_view(self.arguments@.take(0)) =~= Seq::<ExprView>::empty());
        assert(start + args_text(Seq::<ExprView>::empty()) =~= start);
        while i < self.arguments.len()
            invariant
                i <= self.arguments@.len(),
                s@ == start + args_text(exprs_view(self.arguments@.take(i as int))),
            decreases self.arguments.len() - i,
        {
            proof {
                assert(decreases_to!(self.arguments => self.arguments@[i as int]));
                assert(self.arguments@.take(i + 1).drop_last() =~= self.arguments@.take(i as int));
            }
            let ghost prev = exprs_view(self.arguments@.take(i as int));
            if i > 0 {
                s.push(',');
                s.push(' ');
            }
            let arg = self.arguments[i].to_string();
            s.append(arg.as_str());
            proof {
                let next = exprs_view(self.arguments@.take(i + 1));
                assert(next == prev.push(self.arguments@[i as int]@));
                assert(next.drop_last() =~= prev);
                if i == 0 {
                    assert(prev =~= Seq::<ExprView>::empty());
                    assert(s@ =~= start + args_text(next));
                } else {
                    assert(s@ =~= start + args_text(next));
                }
            }
            i += 1;
        }
        assert(self.arguments@.take(self.arguments@.len() as int) =~= self.arguments@);
        s.push(')');
        s
    }
}

} // verus!
