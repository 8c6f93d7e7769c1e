//! A small compiler for the Own-Lang language: lexer, parsers, semantic
//! analyser and NASM code generator, with their contracts.

pub mod text;
pub mod ast;
pub mod codegen;
pub mod lex;
pub mod parser;
pub mod semantic;
