use vstd::prelude::*;

use crate::parser::models::expression::Expression;
use crate::semantic::analyzer::{expr_type_spec, opt_text, with_errors, SemanticAnalyzer};

verus! {

/// Typing of expressions.
pub trait ExpressionAnalyzer {
    /// Analyses an expression and gives its type.
    fn get_expression_type(&mut self, expr: &Expression) -> Option<String>;
}

impl ExpressionAnalyzer for SemanticAnalyzer {
    /// The type of an expression, as `expr_type_spec` states, recording the
    /// errors found on the way.
    fn get_expression_type(&mut self, expr: &Expression) -> (r: Option<String>)
        ensures
            opt_text(&r) == expr_type_spec(old(self).state().scopes, expr@).0,
            final(self).state() == with_errors(
                old(self).state(),
                expr_type_spec(old(self).state().scopes, expr@).1,
            ),
            final(self).ast == old(self).ast,
    {
        SemanticAnalyzer::get_expression_type(self, expr)
    }
}

} // verus!
