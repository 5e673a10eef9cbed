//! Code generation from the grammar of the language.

pub mod grammar;
