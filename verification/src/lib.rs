//! Front end of a small expression-oriented language: a lexer, a
//! recursive-descent parser with operator-precedence climbing, and a lowering
//! stage that translates the syntax tree into a minimal intermediate
//! representation built in this crate.

pub mod lexer;
pub mod parser;
pub mod codegen;
