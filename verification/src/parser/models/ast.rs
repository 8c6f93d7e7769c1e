use vstd::prelude::*;

use crate::parser::models::statement::{stmts_view, Statement, StmtView};

verus! {

/// A program: its statements in order.
#[derive(Debug)]
pub struct AST {
    pub statements: Vec<Statement>,
}

impl View for AST {
    type V = Seq<StmtView>;

    open spec fn view(&self) -> Seq<StmtView> {
        stmts_view(self.statements@)
    }
}

} // verus!
