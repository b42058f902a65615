//! The LL(1) parser from tokens to rule sets.

pub mod error;
pub mod parser;

pub use error::{ParseError, ParseErrorView};
pub use parser::Parser;
