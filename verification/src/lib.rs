//! Front end of the boop scripting language: source text to tokens, tokens to
//! a syntax tree.
//!
//! The tokenizer stands in `lexer`, on top of `chars`, `number` and `token`;
//! what holds of every token sequence stands in `scan_laws` and `round_trip`.
//! The syntax tree stands in `ast`, the grammar in `grammar`, and the parser,
//! which follows the grammar, in `parser`; what holds of every parse stands
//! in `grammar_laws` and `unparse`.
pub mod chars;
pub mod number;
pub mod token;
pub mod lexer;
pub mod scan_laws;
pub mod round_trip;
pub mod ast;
pub mod grammar;
pub mod grammar_laws;
pub mod parser;
pub mod unparse;
