//! AeroSchedule DSL: a lexer, an LL(1) parser and a validator for
//! aeronautical operational rules written in `.aero` files, checked against
//! tabular data loaded from CSV text.

pub mod text;
pub mod lexer;
pub mod ast;
pub mod parser;
pub mod validator;
pub mod render;
