//! A lexical scanner for a small C-like language.
//!
//! The scanner walks raw source bytes and classifies them into a linear
//! stream of tokens: identifiers, keywords, unsigned integer literals,
//! eight fixed single-byte punctuation marks, an `ILLEGAL` marker for any
//! other byte, and a terminal `EOF` token once the input is exhausted.

pub mod lexer;
pub mod token;
