//! Front end of the Intrus scripting language: a character-stream tokenizer
//! and a two-token-lookahead recursive-descent parser that turns raw source
//! text into a stream of lexical tokens and then into a program of statements.

pub mod ast;
pub mod lexer;
pub mod parser;
