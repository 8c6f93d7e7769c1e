//! The token model shared by the lexer and the parsers.

pub mod token;
pub mod token_reader;
pub mod token_type;
