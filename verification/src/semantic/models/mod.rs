//! Symbols and symbol tables.

pub mod semantic;
