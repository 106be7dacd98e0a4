//! A tokenizer: source text in, a stream of typed and positioned tokens out.
//!
//! [`lexer::lex`] scans a whole text. It answers with the [`token::Tokens`] of
//! the text, or with the first [`error::LexError`]; it never panics. What the
//! tokens of a text are is written down in [`grammar`] as functions of the
//! text's bytes, and `lex` is proved to compute exactly those.
//!
//! - [`token`]: the kinds of token, the span of a token, the token stream.
//! - [`error`]: the lexical errors.
//! - [`position`]: lines and columns, and the cursor of the scan.
//! - [`classes`]: classes of bytes and runs of them.
//! - [`tables`]: operators, punctuation, group delimiters and keywords.
//! - [`grammar`]: the lexical grammar.
//! - [`lexer`]: the scanning engine.
//! - [`laws`]: what holds of every scan.
//! - [`text`]: cutting a piece out of a text between two characters.
//! - [`render`]: token streams and errors as text.

pub mod classes;
pub mod error;
pub mod grammar;
pub mod laws;
pub mod lexer;
pub mod position;
pub mod render;
pub mod tables;
pub mod text;
pub mod token;
