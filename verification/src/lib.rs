//! A tree-walking interpreter for a small dynamically typed scripting
//! language: a scanner that turns bytes into tokens, a recursive-descent
//! parser that builds an abstract syntax tree and recovers from syntax
//! errors, and an evaluator that walks the tree over a chain of lexically
//! scoped environments with first-class closures.

pub mod num;
pub mod scanner;
pub mod parser;
pub mod environment;
pub mod interpreter;
