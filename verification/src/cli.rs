//! The command line of the compiler.

pub mod arguments;
