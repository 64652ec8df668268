//! Surface syntax: the lexer.

pub mod grammar;
pub mod lexer;
pub mod parser;
pub mod surface;
