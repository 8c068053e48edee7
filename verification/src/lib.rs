//! A small language front end: a scanner that turns source text into tokens,
//! a recursive-descent parser that turns tokens into a syntax tree, and an
//! evaluator that turns the tree into the ordered arithmetic steps to run.

pub mod token;
pub mod chars;
pub mod scan;
pub mod scan_laws;
pub mod lexer;
pub mod expr;
pub mod grammar;
pub mod grammar_laws;
pub mod parser;
pub mod plan;
pub mod machine;
pub mod interpreter;
pub mod ast_printer;
pub mod program;
