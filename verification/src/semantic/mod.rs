//! Semantic analysis: scopes, declared symbols and type checking.

pub mod analyzer;
pub mod diagnostics;
pub mod expression_analyzer;
pub mod models;
pub mod properties;
pub mod statement_analyzer;
