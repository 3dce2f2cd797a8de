//! A small interpreter for a Scheme-like language: characters are read into
//! positioned tokens, tokens into data, data are compiled against a lexical
//! environment into bytecode, and the bytecode runs on a stack machine.

pub mod lexer;
pub mod parser;
pub mod compiler;
pub mod runtime;
