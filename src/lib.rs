//! A small interpreter front end: a pull-based lexer over source bytes, a
//! precedence-climbing parser with error recovery, and a tree-walking
//! evaluator over a flat environment.
pub mod token;
pub mod lexer;
pub mod ast;
pub mod object;
pub mod env;
pub mod evaluator;
pub mod laws;
pub mod parser;
