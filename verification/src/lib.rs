//! A tokenizer for stylesheet source text: plain CSS and the Sass dialects.
//!
//! The scanner follows the CSS Syntax Level 3 tokenization rules, extended with
//! the lexical forms of Sass, and reports malformed input as diagnostics rather
//! than stopping. Every function is verified against the grammar stated in
//! [`grammar`].
pub mod coverage;
pub mod definitions;
pub mod diagnostics;
pub mod grammar;
pub mod kind;
pub mod lexer;
pub mod source_type;
pub mod stream;
pub mod string_builder;
pub mod token;
pub mod utf8;
