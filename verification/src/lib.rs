//! A small statically typed toy language: tokenizer, type-checking parser and
//! tree-walking interpreter.
pub mod token;
pub mod text;
pub mod ast;
pub mod scope;
pub mod parser;
pub mod interpreter;
pub mod output;
pub mod laws;
