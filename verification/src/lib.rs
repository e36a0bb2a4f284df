//! Tokenizer and parser for the Candle language, a small declarative
//! language for machine-learning workflows.
pub mod token;
pub mod chars;
pub mod tokenizer;
pub mod parser;
pub mod text;
pub mod ast;
