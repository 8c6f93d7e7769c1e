//! The parser of Own-Lang: statements and expressions with operator
//! precedence, read from the lexer's tokens.

pub mod expression_parser;
pub mod models;
pub mod parser;
pub mod properties;
pub mod statement_parser;
