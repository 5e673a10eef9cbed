//! Front end of the Qi compiler toolchain: the Yul lexer, the grammar lowering
//! engine and the syntax kind table generator.

pub mod cli;
pub mod codegen;
pub mod optimizer;
pub mod sorting;
pub mod text;
pub mod yul;
