//! Front end of a small Python-like scripting language: a lexer that turns
//! source text into a token stream (with synthesized `Newline` / `Indent` /
//! `Dedent` / `EOF` tokens derived from indentation), and a recursive-descent
//! parser that turns the token stream into an abstract syntax tree.
//!
//! Both stages are specified against mathematical models: the lexer against
//! `spec_tokenize`, a character-by-character description of the scan, and the
//! parser against a spec-level recursive-descent grammar over token views.

pub mod tokenizer;
pub mod parser;
