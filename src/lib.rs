//! The core of a small dynamically typed scripting language: a lexer from
//! source text to tokens, the syntax tree, a recursive-descent parser with
//! per-declaration error recovery, and the arena of nested scopes that an
//! evaluator binds variables in.

pub mod ast;
pub mod environment;
pub mod lexer;
pub mod parser;
pub mod progress;
pub mod token;

pub use ast::{Expr, List, Lit, Stmt};
pub use parser::{parse, Error, ErrorKind};
pub use token::{Token, TokenKind};
