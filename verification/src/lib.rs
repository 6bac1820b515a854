//! Front end and code generator of a small imperative language: a tokenizer,
//! a chain of lexical scopes, a recursive-descent parser and a translator
//! that emits jump-and-label intermediate code.

pub mod lexer;
pub mod stream;
pub mod symbols;
pub mod ir;
pub mod expr;
pub mod stmt;
pub mod wiring;
pub mod grammar;
pub mod parser;
