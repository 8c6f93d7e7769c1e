//! The syntax tree that the parser builds.

pub mod ast;
pub mod expression;
pub mod statement;
