//! A small scripting language: a parser from source text to a syntax tree,
//! and a tree-walking evaluator over that tree.

pub mod ast;
pub mod grammar;
pub mod parser;
pub mod laws;
pub mod runtime;

pub use ast::{Ast, Node, Val, Value};
pub use runtime::{run, EvalError, Runtime};
