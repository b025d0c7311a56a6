//! An interpreter for the eight-symbol tape language: a lexer from source text
//! to operations, a parser from operations to a nested instruction tree, and a
//! tree-walking evaluator over a byte tape.

pub mod ops;
pub mod lexer;
pub mod parser;
pub mod eval;
