//! A tree-walking interpreter for a small dynamically typed scripting
//! language: scanner, recursive-descent parser, and evaluator with
//! lexically scoped environments.

pub mod num;
pub mod token_type;
pub mod lit;
pub mod token;
pub mod error;
pub mod expr;
pub mod stmt;
pub mod environment;
pub mod interpreter;
pub mod scanner;
pub mod parser;
pub mod ast_printer;
pub mod generate_ast;
