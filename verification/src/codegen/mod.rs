//! Generation of x86-64 NASM assembly from a parsed program.

pub mod codegen;
pub mod emission;
pub mod models;
pub mod properties;
