//! Front end of a small C-like scripting language: a byte-level tokenizer
//! that turns source text into a stream of typed tokens, and a
//! recursive-descent parser that assembles `let` statements into a program.

pub mod ast;
pub mod lexer;
pub mod parser;
