//! A small dynamically typed expression language with a matrix data type:
//! source text is tokenized, parsed by precedence-climbing recursive
//! descent, and interpreted by a tree-walking evaluator. The parser is
//! error-tolerant and always terminates; the evaluator returns explicit
//! error values and matches the mathematical semantics of `semantics`
//! exactly, which is what every contract in this crate states.
pub mod ast;
pub mod env;
pub mod evaluate;
pub mod laws;
pub mod lexer;
pub mod object;
pub mod parser;
pub mod semantics;
pub mod token;

pub use token::Token;
