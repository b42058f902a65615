//! Turning `.aero` source text into tokens.

pub mod token;
pub mod tokenizer;

pub use token::{Token, TokenKind, TokenView};
pub use tokenizer::{LexerError, LexerErrorView, Tokenizer};
