//! A front end for a Swift-like language: a lexer that turns source text into tokens, a
//! content-addressed tokenizer cache, and a Pratt parser whose expression, statement and
//! type grammars are tables from token kinds to handlers and binding powers.
//!
//! Each stage is stated as spec functions (`lexer::lex`, `statements::program`,
//! `cache::tokenize_step`) and the executable code is proved to compute them.

pub mod text;
pub mod token;
pub mod lexer;
pub mod ast;
pub mod lookup;
pub mod parser;
pub mod types;
pub mod expressions;
pub mod statements;
pub mod frontend;
pub mod codec;
pub mod cache;
