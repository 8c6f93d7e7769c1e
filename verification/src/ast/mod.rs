//! The first parser of the language: variable declarations whose value is
//! a single literal or name.

pub mod models;
pub mod parser;
