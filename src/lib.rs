//! A small scripting language: a lexer, a recursive-descent parser and a
//! tree-walking evaluator over one flat variable store.

pub mod scanner;
pub mod parse;
pub mod interpret;
pub mod session;
