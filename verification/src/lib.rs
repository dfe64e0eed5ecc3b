//! A front end and a tree-walking evaluator for a small expression language:
//! a scanner, a precedence-climbing parser that gathers diagnostics instead
//! of stopping at the first, the syntax tree with its printer, and the
//! evaluator of the tree.

pub mod ast;
pub mod eval;
pub mod faithful;
pub mod grammar;
pub mod lexer;
pub mod object;
pub mod parser;
pub mod precedence;
pub mod progress;
pub mod roundtrip;
pub mod scanning;
pub mod text;
pub mod token;

pub use ast::{Expression, Identifier, Program, Statement};
pub use eval::{eval, eval_program};
pub use lexer::Lexer;
pub use object::Object;
pub use parser::Parser;
pub use precedence::Precedence;
pub use token::{Token, TokenType};
