//! Front end for a small expression language: a one-token-lookahead lexer,
//! a recursive-descent parser with precedence climbing, and a code generator
//! that lowers the syntax tree into a function-level intermediate
//! representation while checking arities, redefinitions and symbol use.

pub mod ast;
pub mod compile;
pub mod error;
pub mod lex;
pub mod parser;
