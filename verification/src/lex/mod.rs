//! Lexical analysis: turning source text into tokens.

pub mod lexer;
pub mod models;
