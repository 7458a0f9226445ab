//! A small compiler front to back: source text to tokens, tokens to a syntax
//! tree, and the tree to assembly text.

pub mod chars;
pub mod text;
pub mod lexer;
pub mod ast;
pub mod grammar;
pub mod parser;
pub mod assembly;
pub mod codegen;
