//! The Yul language.

pub mod lexer;
