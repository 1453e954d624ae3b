//! A small dynamically typed scripting language: a lexer and parser for its
//! source text, its syntax tree, the free-variable elaboration pass over
//! closures, and an interpreter that runs its functions over a heap of shared
//! storage cells.

pub mod ident;
pub mod lexer;
pub mod ast;
pub mod parser;
pub mod elaborate;
pub mod runtime;
pub mod interp;
