use vstd::prelude::*;

verus! {

/// The kinds of lexical tokens of the rule language.
#[derive(Debug, Clone, Copy, PartialEq, Eq, Structural)]
pub enum TokenKind {
    KeywordRestriccion,
    KeywordContexto,
    KeywordCuando,
    KeywordEntonces,
    KeywordSiempre,
    KeywordUnidad,
    KeywordSeveridad,
    KeywordNorma,
    KeywordFueraDe,
    Identifier,
    Number,
    Time,
    String,
    Comparator,
    Colon,
    Eof,
}

/// A token: its kind, the text it stands for and the line it starts on.
#[derive(Debug, Clone, PartialEq, Eq)]
pub struct Token {
    pub kind: TokenKind,
    pub lexeme: String,
    pub line: usize,
}

/// The mathematical model of a token.
pub struct TokenView {
    pub kind: TokenKind,
    pub lexeme: Seq<char>,
    pub line: int,
}

impl View for Token {
    type V = TokenView;

    open spec fn view(&self) -> TokenView {
        TokenView { kind: self.kind, lexeme: self.lexeme@, line: self.line as int }
    }
}

/// The models of a sequence of tokens.
pub open spec fn tokens_view(ts: Seq<Token>) -> Seq<TokenView> {
    ts.map_values(|t: Token| t@)
}

} // verus!
