use vstd::prelude::*;

verus! {

/// A syntax error: what was expected, the text of the token found instead
/// and the line of that token.
#[derive(Debug, Clone, PartialEq, Eq)]
pub struct ParseError {
    pub expected: String,
    pub found: String,
    pub line: usize,
}

/// The mathematical model of a syntax error.
pub struct ParseErrorView {
    pub expected: Seq<char>,
    pub found: Seq<char>,
    pub line: int,
}

impl View for ParseError {
    type V = ParseErrorView;

    open spec fn view(&self) -> ParseErrorView {
        ParseErrorView { expected: self.expected@, found: self.found@, line: self.line as int }
    }
}

} // verus!
