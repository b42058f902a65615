use vstd::prelude::*;

use super::token::{tokens_view, Token, TokenKind, TokenView};
use crate::text::{
    chars_of, is_ascii_alphabetic, is_ascii_alphanumeric, is_ascii_digit, is_whitespace,
    push_char, spec_is_ascii_alphabetic, spec_is_ascii_alphanumeric, spec_is_ascii_digit,
    spec_is_whitespace, str_eq,
};

verus! {

/// A lexical error, with the line and column where it was detected.
#[derive(Debug, Clone, PartialEq, Eq)]
pub struct LexerError {
    pub msg: String,
    pub line: usize,
    pub column: usize,
}

/// The mathematical model of a lexical error.
pub struct LexerErrorView {
    pub msg: Seq<char>,
    pub line: int,
    pub column: int,
}

impl View for LexerError {
    type V = LexerErrorView;

    open spec fn view(&self) -> LexerErrorView {
        LexerErrorView { msg: self.msg@, line: self.line as int, column: self.column as int }
    }
}

// ------------------------------------------------------------------------
// The token language, stated over the sequence of characters of the input.
// ------------------------------------------------------------------------
/// The line (counted from 1) on which position `i` of `s` lies.
pub open spec fn line_at(s: Seq<char>, i: int) -> int
    decreases i,
{
    if i <= 0 {
        1
    } else {
        line_at(s, i - 1) + if s[i - 1] == '\n' {
            1int
        } else {
            0int
        }
    }
}

/// The column (counted from 1) of position `i` of `s` within its line.
pub open spec fn column_at(s: Seq<char>, i: int) -> int
    decreases i,
{
    if i <= 0 {
        1
    } else if s[i - 1] == '\n' {
        1
    } else {
        column_at(s, i - 1) + 1
    }
}

/// The character classes that make up multi-character tokens.
pub enum CharClass {
    /// Characters of identifiers and keywords after the first one.
    Word,
    /// Decimal digits.
    Digit,
    /// Characters inside a string literal.
    NotQuote,
}

pub open spec fn in_class(class: CharClass, c: char) -> bool {
    match class {
        CharClass::Word => spec_is_ascii_alphanumeric(c) || c == '_' || c == '.',
        CharClass::Digit => spec_is_ascii_digit(c),
        CharClass::NotQuote => c != '"',
    }
}

/// The end of the longest run of characters of `class` that starts at `i`.
pub open spec fn scan_end(s: Seq<char>, i: int, class: CharClass) -> int
    decreases s.len() - i,
{
    if 0 <= i < s.len() && in_class(class, s[i]) {
        scan_end(s, i + 1, class)
    } else {
        i
    }
}

/// The position just after the end of the line that holds position `i`
/// (the end of the input when no line break follows).
pub open spec fn comment_end(s: Seq<char>, i: int) -> int
    decreases s.len() - i,
{
    if i < 0 || i >= s.len() {
        s.len() as int
    } else if s[i] == '\n' {
        i + 1
    } else {
        comment_end(s, i + 1)
    }
}

pub open spec fn is_comparator_start(c: char) -> bool {
    c == '>' || c == '<' || c == '=' || c == '!'
}

/// The two-character comparators `>=`, `<=`, `==` and `!=`.
pub open spec fn is_comparator_pair(a: char, b: char) -> bool {
    (a == '>' || a == '<' || a == '=' || a == '!') && b == '='
}

/// The comparators are `>=`, `<=`, `>`, `<`, `==` and `!=`: an `=` or a `!`
/// that no `=` follows is no comparator.
pub open spec fn lone_comparator_char(s: Seq<char>, i: int) -> bool {
    (s[i] == '=' || s[i] == '!') && !(i + 1 < s.len() && s[i + 1] == '=')
}

/// A time `[0-9]{2}:[0-9]{2}` starts at position `i`.
pub open spec fn time_at(s: Seq<char>, i: int) -> bool {
    &&& 0 <= i
    &&& i + 5 <= s.len()
    &&& spec_is_ascii_digit(s[i])
    &&& spec_is_ascii_digit(s[i + 1])
    &&& s[i + 2] == ':'
    &&& spec_is_ascii_digit(s[i + 3])
    &&& spec_is_ascii_digit(s[i + 4])
}

/// The end of the number `[0-9]+(\.[0-9]+)?` that starts at `i`: its digits,
/// then a point and further digits when a digit follows the point.
pub open spec fn number_end(s: Seq<char>, i: int) -> int {
    let d = scan_end(s, i, CharClass::Digit);
    if d + 1 < s.len() && s[d] == '.' && spec_is_ascii_digit(s[d + 1]) {
        scan_end(s, d + 1, CharClass::Digit)
    } else {
        d
    }
}

/// The end of the longest number or time token that starts at `i`.
pub open spec fn numeric_end(s: Seq<char>, i: int) -> int {
    if time_at(s, i) {
        i + 5
    } else {
        number_end(s, i)
    }
}

pub open spec fn numeric_kind(s: Seq<char>, i: int) -> TokenKind {
    if time_at(s, i) {
        TokenKind::Time
    } else {
        TokenKind::Number
    }
}

/// The kind of a word: a keyword when it spells one, else an identifier.
pub open spec fn keyword_kind(w: Seq<char>) -> TokenKind {
    if w == "RESTRICCION"@ {
        TokenKind::KeywordRestriccion
    } else if w == "CONTEXTO"@ {
        TokenKind::KeywordContexto
    } else if w == "CUANDO"@ {
        TokenKind::KeywordCuando
    } else if w == "ENTONCES"@ {
        TokenKind::KeywordEntonces
    } else if w == "SIEMPRE"@ {
        TokenKind::KeywordSiempre
    } else if w == "UNIDAD"@ {
        TokenKind::KeywordUnidad
    } else if w == "SEVERIDAD"@ {
        TokenKind::KeywordSeveridad
    } else if w == "NORMA"@ {
        TokenKind::KeywordNorma
    } else if w == "FUERA_DE"@ {
        TokenKind::KeywordFueraDe
    } else {
        TokenKind::Identifier
    }
}

pub open spec fn tok(kind: TokenKind, lexeme: Seq<char>, line: int) -> TokenView {
    TokenView { kind, lexeme, line }
}

/// `t` followed by the tokens of `rest`, or the error of `rest`.
pub open spec fn prepend(t: TokenView, rest: Result<Seq<TokenView>, LexerErrorView>) -> Result<
    Seq<TokenView>,
    LexerErrorView,
> {
    match rest {
        Ok(ts) => Ok(seq![t] + ts),
        Err(e) => Err(e),
    }
}

/// `prefix` followed by the tokens of `rest`, or the error of `rest`.
pub open spec fn chain(prefix: Seq<TokenView>, rest: Result<Seq<TokenView>, LexerErrorView>) -> Result<
    Seq<TokenView>,
    LexerErrorView,
> {
    match rest {
        Ok(ts) => Ok(prefix + ts),
        Err(e) => Err(e),
    }
}

pub open spec fn unrecognized_msg(c: char) -> Seq<char> {
    "Unrecognized character '"@ + seq![c] + "'"@
}

/// The tokens of `s` from position `i` on, ending with an end-of-input
/// token, or the first lexical error met there. White space and comments
/// (`--` up to the end of the line) separate tokens and yield none.
pub open spec fn lex_from(s: Seq<char>, i: int) -> Result<Seq<TokenView>, LexerErrorView>
    decreases s.len() - i,
{
    if i < 0 || i >= s.len() {
        Ok(seq![tok(TokenKind::Eof, Seq::empty(), line_at(s, s.len() as int))])
    } else {
        let c = s[i];
        let line = line_at(s, i);
        if spec_is_whitespace(c) {
            lex_from(s, i + 1)
        } else if c == '-' && i + 1 < s.len() && s[i + 1] == '-' {
            proof {
                lemma_comment_end_bounds(s, i);
            }
            lex_from(s, comment_end(s, i))
        } else if c == ':' {
            prepend(tok(TokenKind::Colon, seq![':'], line), lex_from(s, i + 1))
        } else if is_comparator_start(c) {
            if lone_comparator_char(s, i) {
                Err(LexerErrorView { msg: unrecognized_msg(c), line, column: column_at(s, i) })
            } else {
                let j = if i + 1 < s.len() && is_comparator_pair(c, s[i + 1]) {
                    i + 2
                } else {
                    i + 1
                };
                prepend(tok(TokenKind::Comparator, s.subrange(i, j), line), lex_from(s, j))
            }
        } else if c == '"' {
            proof {
                lemma_scan_end_bounds(s, i + 1, CharClass::NotQuote);
            }
            let k = scan_end(s, i + 1, CharClass::NotQuote);
            if k >= s.len() {
                Err(
                    LexerErrorView {
                        msg: "Unclosed string"@,
                        line,
                        column: column_at(s, s.len() as int),
                    },
                )
            } else {
                prepend(tok(TokenKind::String, s.subrange(i + 1, k), line), lex_from(s, k + 1))
            }
        } else if spec_is_ascii_digit(c) {
            proof {
                lemma_numeric_end_bounds(s, i);
            }
            let j = numeric_end(s, i);
            prepend(tok(numeric_kind(s, i), s.subrange(i, j), line), lex_from(s, j))
        } else if spec_is_ascii_alphabetic(c) {
            proof {
                lemma_scan_end_bounds(s, i, CharClass::Word);
            }
            let j = scan_end(s, i, CharClass::Word);
            let lexeme = s.subrange(i, j);
            prepend(tok(keyword_kind(lexeme), lexeme, line), lex_from(s, j))
        } else {
            Err(LexerErrorView { msg: unrecognized_msg(c), line, column: column_at(s, i) })
        }
    }
}

/// The result of tokenizing the whole of `s`.
pub open spec fn spec_tokenize(s: Seq<char>) -> Result<Seq<TokenView>, LexerErrorView> {
    lex_from(s, 0)
}

pub proof fn lemma_scan_end_bounds(s: Seq<char>, i: int, class: CharClass)
    requires
        0 <= i <= s.len(),
    ensures
        i <= scan_end(s, i, class) <= s.len(),
        i < s.len() && in_class(class, s[i]) ==> i < scan_end(s, i, class),
        forall|k: int| i <= k < scan_end(s, i, class) ==> in_class(class, #[trigger] s[k]),
        scan_end(s, i, class) < s.len() ==> !in_class(class, s[scan_end(s, i, class)]),
    decreases s.len() - i,
{
    if i < s.len() && in_class(class, s[i]) {
        lemma_scan_end_bounds(s, i + 1, class);
    }
}

pub proof fn lemma_numeric_end_bounds(s: Seq<char>, i: int)
    requires
        0 <= i < s.len(),
        spec_is_ascii_digit(s[i]),
    ensures
        i < numeric_end(s, i) <= s.len(),
{
    lemma_scan_end_bounds(s, i, CharClass::Digit);
    let d = scan_end(s, i, CharClass::Digit);
    if d + 1 < s.len() && s[d] == '.' && spec_is_ascii_digit(s[d + 1]) {
        lemma_scan_end_bounds(s, d + 1, CharClass::Digit);
    }
}

pub proof fn lemma_comment_end_bounds(s: Seq<char>, i: int)
    requires
        0 <= i < s.len(),
    ensures
        i < comment_end(s, i) <= s.len(),
    decreases s.len() - i,
{
    if s[i] != '\n' {
        if i + 1 < s.len() {
            lemma_comment_end_bounds(s, i + 1);
        } else {
            assert(comment_end(s, i + 1) == s.len());
        }
    }
}

proof fn lemma_line_column_bounds(s: Seq<char>, i: int)
    requires
        0 <= i,
    ensures
        1 <= line_at(s, i) <= i + 1,
        1 <= column_at(s, i) <= i + 1,
    decreases i,
{
    if i > 0 {
        lemma_line_column_bounds(s, i - 1);
    }
}

proof fn lemma_chain_push(p: Seq<TokenView>, t: TokenView, rest: Result<Seq<TokenView>, LexerErrorView>)
    ensures
        chain(p, prepend(t, rest)) == chain(p.push(t), rest),
{
    if let Ok(ts) = rest {
        assert(p + (seq![t] + ts) =~= p.push(t) + ts);
    }
}


/// The tokens of any input that tokenizes end with exactly one
/// end-of-input token, its last.
pub proof fn lemma_lex_ends_with_eof(s: Seq<char>, i: int)
    requires
        0 <= i,
    ensures
        lex_from(s, i) is Ok ==> {
            let ts = lex_from(s, i)->Ok_0;
            &&& ts.len() >= 1
            &&& ts.last().kind == TokenKind::Eof
            &&& forall|j: int| 0 <= j < ts.len() - 1 ==> (#[trigger] ts[j]).kind != TokenKind::Eof
        },
    decreases s.len() - i,
{
    if i < s.len() {
        let c = s[i];
        if spec_is_whitespace(c) {
            lemma_lex_ends_with_eof(s, i + 1);
        } else if c == '-' && i + 1 < s.len() && s[i + 1] == '-' {
            lemma_comment_end_bounds(s, i);
            lemma_lex_ends_with_eof(s, comment_end(s, i));
        } else if c == ':' {
            lemma_lex_ends_with_eof(s, i + 1);
            lemma_prepend_keeps_eof_last(tok(TokenKind::Colon, seq![':'], line_at(s, i)), lex_from(s, i + 1));
        } else if is_comparator_start(c) && !lone_comparator_char(s, i) {
            let j = if i + 1 < s.len() && is_comparator_pair(c, s[i + 1]) {
                i + 2
            } else {
                i + 1
            };
            lemma_lex_ends_with_eof(s, j);
            lemma_prepend_keeps_eof_last(
                tok(TokenKind::Comparator, s.subrange(i, j), line_at(s, i)),
                lex_from(s, j),
            );
        } else if c == '"' {
            lemma_scan_end_bounds(s, i + 1, CharClass::NotQuote);
            let k = scan_end(s, i + 1, CharClass::NotQuote);
            if k < s.len() {
                lemma_lex_ends_with_eof(s, k + 1);
                lemma_prepend_keeps_eof_last(
                    tok(TokenKind::String, s.subrange(i + 1, k), line_at(s, i)),
                    lex_from(s, k + 1),
                );
            }
        } else if spec_is_ascii_digit(c) {
            lemma_numeric_end_bounds(s, i);
            let j = numeric_end(s, i);
            lemma_lex_ends_with_eof(s, j);
            lemma_prepend_keeps_eof_last(
                tok(numeric_kind(s, i), s.subrange(i, j), line_at(s, i)),
                lex_from(s, j),
            );
        } else if spec_is_ascii_alphabetic(c) {
            lemma_scan_end_bounds(s, i, CharClass::Word);
            let j = scan_end(s, i, CharClass::Word);
            let lexeme = s.subrange(i, j);
            lemma_lex_ends_with_eof(s, j);
            lemma_prepend_keeps_eof_last(
                tok(keyword_kind(lexeme), lexeme, line_at(s, i)),
                lex_from(s, j),
            );
        }
    }
}

proof fn lemma_prepend_keeps_eof_last(t: TokenView, rest: Result<Seq<TokenView>, LexerErrorView>)
    requires
        t.kind != TokenKind::Eof,
        rest is Ok ==> {
            let ts = rest->Ok_0;
            &&& ts.len() >= 1
            &&& ts.last().kind == TokenKind::Eof
            &&& forall|j: int| 0 <= j < ts.len() - 1 ==> (#[trigger] ts[j]).kind != TokenKind::Eof
        },
    ensures
        prepend(t, rest) is Ok ==> {
            let ts = prepend(t, rest)->Ok_0;
            &&& ts.len() >= 1
            &&& ts.last().kind == TokenKind::Eof
            &&& forall|j: int| 0 <= j < ts.len() - 1 ==> (#[trigger] ts[j]).kind != TokenKind::Eof
        },
{
    if let Ok(ts) = rest {
        let all = seq![t] + ts;
        assert forall|j: int| 0 <= j < all.len() - 1 implies (#[trigger] all[j]).kind
            != TokenKind::Eof by {
            if j > 0 {
                assert(all[j] == ts[j - 1]);
            }
        }
    }
}

/// The characters with the Unicode `White_Space` property, which
/// `char::is_whitespace` accepts: tab, line feed, vertical tab, form feed,
/// carriage return, space, next line, no-break space, ogham space mark,
/// the spaces from en quad to hair space, line separator, paragraph
/// separator, narrow no-break space, medium mathematical space and
/// ideographic space.
pub open spec fn unicode_white_space(c: char) -> bool {
    ||| c == '\t'
    ||| c == '\n'
    ||| c == '\u{b}'
    ||| c == '\u{c}'
    ||| c == '\r'
    ||| c == ' '
    ||| c == '\u{85}'
    ||| c == '\u{a0}'
    ||| c == '\u{1680}'
    ||| ('\u{2000}' <= c && c <= '\u{200a}')
    ||| c == '\u{2028}'
    ||| c == '\u{2029}'
    ||| c == '\u{202f}'
    ||| c == '\u{205f}'
    ||| c == '\u{3000}'
}

/// White space separates tokens and yields none: at any white-space
/// character (space, tab, line feed, carriage return, and the others that
/// `char::is_whitespace` accepts), lexing goes on from the next character;
/// at any other character it does not skip.
pub proof fn lemma_white_space_is_skipped(s: Seq<char>, i: int)
    requires
        0 <= i < s.len(),
    ensures
        unicode_white_space(s[i]) ==> lex_from(s, i) == lex_from(s, i + 1),
        spec_is_whitespace(s[i]) <==> unicode_white_space(s[i]),
{
    let c = s[i];
    let u = c as u32;
    if spec_is_whitespace(c) {
        vstd::utf8::char_u32_cast(c, u);
    }
}

/// The tokens of a text that tokenizes end with exactly one end-of-input
/// token, its last: what the parser needs to read them.
pub proof fn lemma_tokenize_ends_with_eof(s: Seq<char>)
    ensures
        spec_tokenize(s) is Ok ==> {
            let ts = spec_tokenize(s)->Ok_0;
            &&& ts.len() >= 1
            &&& ts.last().kind == TokenKind::Eof
            &&& forall|j: int| 0 <= j < ts.len() - 1 ==> (#[trigger] ts[j]).kind != TokenKind::Eof
        },
{
    lemma_lex_ends_with_eof(s, 0);
}

proof fn lemma_line_column_prefix(t: Seq<char>, u: Seq<char>, k: int)
    requires
        0 <= k <= t.len(),
    ensures
        line_at(t + u, k) == line_at(t, k),
        column_at(t + u, k) == column_at(t, k),
    decreases k,
{
    if k > 0 {
        lemma_line_column_prefix(t, u, k - 1);
        assert((t + u)[k - 1] == t[k - 1]);
    }
}

proof fn lemma_line_no_break(s: Seq<char>, a: int, k: int)
    requires
        0 <= a <= k <= s.len(),
        forall|m: int| a <= m < s.len() ==> s[m] != '\n',
    ensures
        line_at(s, k) == line_at(s, a),
    decreases k,
{
    if k > a {
        lemma_line_no_break(s, a, k - 1);
    }
}

proof fn lemma_scan_end_prefix(t: Seq<char>, u: Seq<char>, k: int, class: CharClass)
    requires
        0 <= k <= t.len(),
        scan_end(t, k, class) < t.len(),
    ensures
        scan_end(t + u, k, class) == scan_end(t, k, class),
    decreases t.len() - k,
{
    if k < t.len() && in_class(class, t[k]) {
        assert((t + u)[k] == t[k]);
        lemma_scan_end_prefix(t, u, k + 1, class);
    } else {
        assert((t + u)[k] == t[k]);
    }
}

proof fn lemma_scan_end_to_end(s: Seq<char>, k: int, class: CharClass)
    requires
        0 <= k <= s.len(),
        forall|m: int| k <= m < s.len() ==> in_class(class, #[trigger] s[m]),
    ensures
        scan_end(s, k, class) == s.len(),
    decreases s.len() - k,
{
    if k < s.len() {
        lemma_scan_end_to_end(s, k + 1, class);
    }
}

proof fn lemma_comment_end_prefix(t: Seq<char>, u: Seq<char>, k: int)
    requires
        0 <= k < t.len(),
        t.last() == '\n',
    ensures
        comment_end(t + u, k) == comment_end(t, k),
        comment_end(t, k) <= t.len(),
    decreases t.len() - k,
{
    assert((t + u)[k] == t[k]);
    if t[k] != '\n' {
        lemma_comment_end_prefix(t, u, k + 1);
    }
}

proof fn lemma_comment_end_no_break(s: Seq<char>, k: int)
    requires
        0 <= k <= s.len(),
        forall|m: int| k <= m < s.len() ==> s[m] != '\n',
    ensures
        comment_end(s, k) == s.len(),
    decreases s.len() - k,
{
    if k < s.len() {
        lemma_comment_end_no_break(s, k + 1);
    }
}

/// A word or a number ends before the line break that ends `t`.
proof fn lemma_run_ends_in_line(t: Seq<char>, k: int, class: CharClass)
    requires
        0 <= k < t.len(),
        t.last() == '\n',
        !in_class(class, '\n'),
    ensures
        scan_end(t, k, class) < t.len(),
{
    lemma_scan_end_bounds(t, k, class);
    if scan_end(t, k, class) == t.len() {
        assert(in_class(class, t[t.len() - 1]));
    }
}

proof fn lemma_lex_with_trailing_comment(t: Seq<char>, u: Seq<char>, i: int)
    requires
        0 <= i <= t.len(),
        t.len() > 0,
        t.last() == '\n',
        u.len() >= 2,
        u[0] == '-',
        u[1] == '-',
        forall|m: int| 0 <= m < u.len() ==> u[m] != '\n',
    ensures
        lex_from(t, i) is Ok ==> lex_from(t + u, i) == lex_from(t, i),
        lex_from(t, i) is Err && lex_from(t, i)->Err_0.msg != "Unclosed string"@ ==> lex_from(
            t + u,
            i,
        ) == lex_from(t, i),
        (forall|m: int| 0 <= m < u.len() ==> u[m] != '"') && lex_from(t + u, i) is Ok ==> lex_from(
            t,
            i,
        ) is Ok,
    decreases t.len() - i,
{
    let s = t + u;
    let n = t.len() as int;
    if i == n {
        assert(s[n] == '-' && s[n + 1] == '-');
        assert(!spec_is_whitespace('-'));
        assert forall|m: int| n <= m < s.len() implies s[m] != '\n' by {
            assert(s[m] == u[m - n]);
        }
        lemma_comment_end_no_break(s, n);
        lemma_line_no_break(s, n, s.len() as int);
        lemma_line_column_prefix(t, u, n);
        assert(lex_from(s, n) == lex_from(s, s.len() as int));
        assert(lex_from(s, n) == lex_from(t, n));
        return;
    }
    assert(s[i] == t[i]);
    assert(s[n - 1] == '\n');
    lemma_line_column_prefix(t, u, i);
    let c = t[i];
    if spec_is_whitespace(c) {
        lemma_lex_with_trailing_comment(t, u, i + 1);
    } else if c == '-' && i + 1 < t.len() && t[i + 1] == '-' {
        assert(s[i + 1] == t[i + 1]);
        lemma_comment_end_prefix(t, u, i);
        lemma_comment_end_bounds(t, i);
        lemma_lex_with_trailing_comment(t, u, comment_end(t, i));
    } else if c == '-' {
        assert(i + 1 < n);
        assert(s[i + 1] == t[i + 1]);
    } else if c == ':' {
        lemma_lex_with_trailing_comment(t, u, i + 1);
    } else if is_comparator_start(c) {
        assert(i + 1 < n);
        assert(s[i + 1] == t[i + 1]);
        let j = if is_comparator_pair(c, t[i + 1]) {
            i + 2
        } else {
            i + 1
        };
        assert(s.subrange(i, j) =~= t.subrange(i, j));
        lemma_lex_with_trailing_comment(t, u, j);
    } else if c == '"' {
        lemma_scan_end_bounds(t, i + 1, CharClass::NotQuote);
        let k = scan_end(t, i + 1, CharClass::NotQuote);
        if k < n {
            lemma_scan_end_prefix(t, u, i + 1, CharClass::NotQuote);
            assert(s.subrange(i + 1, k) =~= t.subrange(i + 1, k));
            lemma_lex_with_trailing_comment(t, u, k + 1);
        } else if forall|m: int| 0 <= m < u.len() ==> u[m] != '"' {
            assert forall|m: int| i + 1 <= m < s.len() implies in_class(
                CharClass::NotQuote,
                #[trigger] s[m],
            ) by {
                if m >= n {
                    assert(s[m] == u[m - n]);
                } else {
                    assert(s[m] == t[m]);
                    assert(in_class(CharClass::NotQuote, t[m]));
                }
            }
            lemma_scan_end_to_end(s, i + 1, CharClass::NotQuote);
        }
    } else if spec_is_ascii_digit(c) {
        lemma_run_ends_in_line(t, i, CharClass::Digit);
        lemma_scan_end_prefix(t, u, i, CharClass::Digit);
        lemma_scan_end_bounds(t, i, CharClass::Digit);
        let d = scan_end(t, i, CharClass::Digit);
        assert(s[d] == t[d]);
        if d + 1 < n {
            assert(s[d + 1] == t[d + 1]);
            lemma_run_ends_in_line(t, d + 1, CharClass::Digit);
            lemma_scan_end_prefix(t, u, d + 1, CharClass::Digit);
        }
        if i + 5 <= n {
            assert(s[i + 1] == t[i + 1] && s[i + 2] == t[i + 2] && s[i + 3] == t[i + 3] && s[i
                + 4] == t[i + 4]);
        } else {
            assert(!time_at(s, i)) by {
                if i + 5 <= s.len() {
                    let p = n - 1;
                    assert(i < p < i + 5);
                    assert(s[p] == '\n');
                }
            }
        }
        assert(numeric_end(s, i) == numeric_end(t, i));
        assert(numeric_kind(s, i) == numeric_kind(t, i));
        lemma_numeric_end_bounds(t, i);
        let j = numeric_end(t, i);
        assert(s.subrange(i, j) =~= t.subrange(i, j));
        lemma_lex_with_trailing_comment(t, u, j);
    } else if spec_is_ascii_alphabetic(c) {
        lemma_run_ends_in_line(t, i, CharClass::Word);
        lemma_scan_end_prefix(t, u, i, CharClass::Word);
        lemma_scan_end_bounds(t, i, CharClass::Word);
        let j = scan_end(t, i, CharClass::Word);
        assert(s.subrange(i, j) =~= t.subrange(i, j));
        lemma_lex_with_trailing_comment(t, u, j);
    }
}

/// A comment after the last line break of a text adds no token: when `t`
/// ends with a line break and `c` holds none, `t` followed by `--` and `c`
/// gives what `t` gives, tokens or error, unless tokenizing `t` fails on an
/// unclosed string (a `"` in the comment may close it); and when `c` holds
/// no `"`, it tokenizes only when `t` does.
pub proof fn lemma_trailing_comment_adds_no_token(t: Seq<char>, c: Seq<char>)
    requires
        t.len() > 0,
        t.last() == '\n',
        !c.contains('\n'),
    ensures
        spec_tokenize(t) is Ok ==> spec_tokenize(t + seq!['-', '-'] + c) == spec_tokenize(t),
        spec_tokenize(t) is Err && spec_tokenize(t)->Err_0.msg != "Unclosed string"@
            ==> spec_tokenize(t + seq!['-', '-'] + c) == spec_tokenize(t),
        !c.contains('"') && spec_tokenize(t + seq!['-', '-'] + c) is Ok ==> spec_tokenize(t) is Ok,
{
    let u = seq!['-', '-'] + c;
    assert(t + seq!['-', '-'] + c =~= t + u);
    assert forall|m: int| 0 <= m < u.len() implies u[m] != '\n' by {
        if m >= 2 {
            assert(u[m] == c[m - 2]);
        }
    }
    if !c.contains('"') {
        assert forall|m: int| 0 <= m < u.len() implies u[m] != '"' by {
            if m >= 2 {
                assert(u[m] == c[m - 2]);
            }
        }
    }
    lemma_lex_with_trailing_comment(t, u, 0);
}

// ------------------------------------------------------------------------
// The tokenizer.
// ------------------------------------------------------------------------
/// A cursor over the characters of a rule text that produces its tokens.
pub struct Tokenizer {
    chars: Vec<char>,
    index: usize,
    line: usize,
    column: usize,
}

impl Tokenizer {
    /// The characters the tokenizer reads.
    pub closed spec fn source(&self) -> Seq<char> {
        self.chars@
    }

    /// The tokenizer has not read anything yet.
    pub closed spec fn is_fresh(&self) -> bool {
        &&& self.index == 0
        &&& self.line == 1
        &&& self.column == 1
        &&& self.chars.len() < usize::MAX
    }

    spec fn wf(&self) -> bool {
        &&& self.chars.len() < usize::MAX
        &&& self.index <= self.chars.len()
        &&& self.line == line_at(self.chars@, self.index as int)
        &&& self.column == column_at(self.chars@, self.index as int)
    }

    /// A tokenizer positioned at the start of `input`. (No text can hold
    /// `usize::MAX` characters in memory.)
    pub fn new(input: &str) -> (t: Self)
        requires
            input@.len() < usize::MAX,
        ensures
            t.source() == input@,
            t.is_fresh(),
    {
        Self { chars: chars_of(input), index: 0, line: 1, column: 1 }
    }

    /// The tokens of the whole input, ending with an end-of-input token, or
    /// the first lexical error.
    pub fn tokenize(self) -> (r: Result<Vec<Token>, LexerError>)
        requires
            self.is_fresh(),
        ensures
            match r {
                Ok(ts) => spec_tokenize(self.source()) == Ok::<_, LexerErrorView>(
                    tokens_view(ts@),
                ),
                Err(e) => spec_tokenize(self.source()) == Err::<Seq<TokenView>, _>(e@),
            },
    {
        let mut lexer = self;
        let ghost s = lexer.chars@;
        let mut tokens: Vec<Token> = Vec::new();
        assert(tokens_view(tokens@) =~= Seq::<TokenView>::empty());
        loop
            invariant
                lexer.wf(),
                lexer.chars@ == s,
                spec_tokenize(s) == chain(tokens_view(tokens@), lex_from(s, lexer.index as int)),
                s == self.chars@,
            ensures
                lexer.wf(),
                lexer.chars@ == s,
                lexer.index == s.len(),
                spec_tokenize(s) == chain(tokens_view(tokens@), lex_from(s, lexer.index as int)),
            decreases s.len() - lexer.index,
        {
            let ghost i = lexer.index as int;
            let ghost prev = tokens_view(tokens@);
            let ch = match lexer.peek() {
                Some(ch) => ch,
                None => break,
            };
            proof {
                lemma_line_column_bounds(s, i);
            }
            if is_whitespace(ch) {
                lexer.consume_whitespace();
                continue;
            }
            if ch == '-' && lexer.peek_next() == Some('-') {
                proof {
                    lemma_comment_end_bounds(s, i);
                }
                lexer.consume_comment();
                continue;
            }
            if ch == ':' {
                let t = lexer.simple(TokenKind::Colon, ":");
                proof {
                    reveal_strlit(":");
                    assert(t@.lexeme =~= seq![':']);
                    lemma_chain_push(prev, t@, lex_from(s, i + 1));
                }
                tokens.push(t);
                lexer.advance();
                assert(tokens_view(tokens@) =~= prev.push(t@));
                continue;
            }
            if ch == '>' || ch == '<' || ch == '=' || ch == '!' {
                match lexer.consume_comparator() {
                    Ok(t) => {
                        proof {
                            lemma_chain_push(prev, t@, lex_from(s, lexer.index as int));
                        }
                        tokens.push(t);
                        assert(tokens_view(tokens@) =~= prev.push(t@));
                        continue;
                    },
                    Err(e) => {
                        return Err(e);
                    },
                }
            }
            if ch == '"' {
                match lexer.consume_string() {
                    Ok(t) => {
                        proof {
                            lemma_chain_push(prev, t@, lex_from(s, lexer.index as int));
                        }
                        tokens.push(t);
                        assert(tokens_view(tokens@) =~= prev.push(t@));
                        continue;
                    },
                    Err(e) => {
                        return Err(e);
                    },
                }
            }
            if is_ascii_digit(ch) {
                let t = lexer.consume_number_or_time();
                proof {
                    lemma_chain_push(prev, t@, lex_from(s, lexer.index as int));
                }
                tokens.push(t);
                assert(tokens_view(tokens@) =~= prev.push(t@));
                continue;
            }
            if is_ascii_alphabetic(ch) {
                let t = lexer.consume_word();
                proof {
                    lemma_chain_push(prev, t@, lex_from(s, lexer.index as int));
                }
                tokens.push(t);
                assert(tokens_view(tokens@) =~= prev.push(t@));
                continue;
            }
            let mut msg = String::from_str("Unrecognized character '");
            push_char(&mut msg, ch);
            msg.append("'");
            assert(msg@ =~= unrecognized_msg(ch));
            return Err(LexerError { msg, line: lexer.line, column: lexer.column });
        }
        let ghost prev = tokens_view(tokens@);
        let t = Token { kind: TokenKind::Eof, lexeme: String::new(), line: lexer.line };
        tokens.push(t);
        assert(tokens_view(tokens@) =~= prev.push(t@));
        assert(t@ == tok(TokenKind::Eof, Seq::empty(), line_at(s, s.len() as int)));
        assert(prev + seq![t@] =~= prev.push(t@));
        Ok(tokens)
    }

    fn peek(&self) -> (r: Option<char>)
        requires
            self.wf(),
        ensures
            r == if self.index < self.chars.len() {
                Some(self.chars@[self.index as int])
            } else {
                None::<char>
            },
    {
        if self.index < self.chars.len() {
            Some(self.chars[self.index])
        } else {
            None
        }
    }

    fn peek_next(&self) -> (r: Option<char>)
        requires
            self.wf(),
        ensures
            r == if self.index + 1 < self.chars.len() {
                Some(self.chars@[self.index + 1])
            } else {
                None::<char>
            },
    {
        if self.index + 1 < self.chars.len() {
            Some(self.chars[self.index + 1])
        } else {
            None
        }
    }

    fn advance(&mut self) -> (r: Option<char>)
        requires
            old(self).wf(),
        ensures
            final(self).wf(),
            final(self).chars@ == old(self).chars@,
            old(self).index < old(self).chars.len() ==> r == Some(
                old(self).chars@[old(self).index as int],
            ) && final(self).index == old(self).index + 1,
            old(self).index >= old(self).chars.len() ==> r == None::<char> && final(self).index
                == old(self).index,
    {
        if self.index < self.chars.len() {
            let c = self.chars[self.index];
            proof {
                lemma_line_column_bounds(self.chars@, self.index as int);
            }
            self.index += 1;
            if c == '\n' {
                self.line += 1;
                self.column = 1;
            } else {
                self.column += 1;
            }
            Some(c)
        } else {
            None
        }
    }

    fn consume_whitespace(&mut self)
        requires
            old(self).wf(),
        ensures
            final(self).wf(),
            final(self).chars@ == old(self).chars@,
            old(self).index <= final(self).index,
            old(self).index < old(self).chars.len() && spec_is_whitespace(
                old(self).chars@[old(self).index as int],
            ) ==> old(self).index < final(self).index,
            lex_from(old(self).chars@, old(self).index as int) == lex_from(
                final(self).chars@,
                final(self).index as int,
            ),
    {
        let ghost s = self.chars@;
        let ghost start = self.index as int;
        loop
            invariant
                self.wf(),
                self.chars@ == s,
                start <= self.index,
                start < s.len() && spec_is_whitespace(s[start]) && self.index == start
                    ==> self.index < s.len() && spec_is_whitespace(s[self.index as int]),
                lex_from(s, start) == lex_from(s, self.index as int),
            ensures
                self.wf(),
                self.chars@ == s,
                start <= self.index,
                start < s.len() && spec_is_whitespace(s[start]) ==> start < self.index,
                lex_from(s, start) == lex_from(s, self.index as int),
            decreases s.len() - self.index,
        {
            match self.peek() {
                Some(ch) => {
                    if !is_whitespace(ch) {
                        break;
                    }
                    self.advance();
                },
                None => break,
            }
        }
    }

    fn consume_comment(&mut self)
        requires
            old(self).wf(),
            old(self).index < old(self).chars.len(),
        ensures
            final(self).wf(),
            final(self).chars@ == old(self).chars@,
            final(self).index == comment_end(old(self).chars@, old(self).index as int),
    {
        let ghost s = self.chars@;
        let ghost start = self.index as int;
        loop
            invariant_except_break
                comment_end(s, start) == comment_end(s, self.index as int),
            invariant
                self.wf(),
                self.chars@ == s,
            ensures
                self.wf(),
                self.chars@ == s,
                self.index == comment_end(s, start),
            decreases s.len() - self.index,
        {
            match self.peek() {
                Some(ch) => {
                    self.advance();
                    if ch == '\n' {
                        break;
                    }
                },
                None => break,
            }
        }
    }

    fn simple(&self, kind: TokenKind, lexeme: &str) -> (t: Token)
        ensures
            t@ == tok(kind, lexeme@, self.line as int),
    {
        Token { kind, lexeme: lexeme.to_string(), line: self.line }
    }

    fn consume_string(&mut self) -> (r: Result<Token, LexerError>)
        requires
            old(self).wf(),
            old(self).index < old(self).chars.len(),
            old(self).chars@[old(self).index as int] == '"',
        ensures
            final(self).wf(),
            final(self).chars@ == old(self).chars@,
            ({
                let s = old(self).chars@;
                let i = old(self).index as int;
                let k = scan_end(s, i + 1, CharClass::NotQuote);
                if k >= s.len() {
                    &&& r is Err
                    &&& r->Err_0@ == LexerErrorView {
                        msg: "Unclosed string"@,
                        line: line_at(s, i),
                        column: column_at(s, s.len() as int),
                    }
                    &&& final(self).index == s.len()
                } else {
                    &&& r is Ok
                    &&& r->Ok_0@ == tok(TokenKind::String, s.subrange(i + 1, k), line_at(s, i))
                    &&& final(self).index == k + 1
                    &&& i < k + 1
                }
            }),
    {
        let ghost s = self.chars@;
        let ghost i = self.index as int;
        let line = self.line;
        self.advance();
        proof {
            lemma_scan_end_bounds(s, i + 1, CharClass::NotQuote);
        }
        let ghost k = scan_end(s, i + 1, CharClass::NotQuote);
        let mut value = String::new();
        loop
            invariant
                self.wf(),
                self.chars@ == s,
                i + 1 <= self.index <= k,
                k == scan_end(s, i + 1, CharClass::NotQuote),
                k <= s.len(),
                forall|m: int| i + 1 <= m < k ==> s[m] != '"',
                k < s.len() ==> s[k] == '"',
                value@ == s.subrange(i + 1, self.index as int),
                line == line_at(s, i),
                s == old(self).chars@,
                i == old(self).index,
            ensures
                self.wf(),
                self.chars@ == s,
                self.index == s.len(),
                k == s.len(),
            decreases s.len() - self.index,
        {
            let ch = match self.peek() {
                Some(ch) => ch,
                None => break,
            };
            if ch == '"' {
                self.advance();
                return Ok(Token { kind: TokenKind::String, lexeme: value, line });
            }
            push_char(&mut value, ch);
            self.advance();
            assert(value@ =~= s.subrange(i + 1, self.index as int));
        }
        Err(
            LexerError {
                msg: String::from_str("Unclosed string"),
                line,
                column: self.column,
            },
        )
    }

    /// Reads the run of digits at the cursor onto `lexeme`.
    fn take_digits(&mut self, lexeme: &mut String)
        requires
            old(self).wf(),
        ensures
            final(self).wf(),
            final(self).chars@ == old(self).chars@,
            final(self).index == scan_end(old(self).chars@, old(self).index as int, CharClass::Digit),
            final(lexeme)@ == old(lexeme)@ + old(self).chars@.subrange(
                old(self).index as int,
                final(self).index as int,
            ),
    {
        let ghost s = self.chars@;
        let ghost i = self.index as int;
        let ghost l0 = lexeme@;
        proof {
            lemma_scan_end_bounds(s, i, CharClass::Digit);
        }
        let ghost j = scan_end(s, i, CharClass::Digit);
        loop
            invariant
                self.wf(),
                self.chars@ == s,
                i <= self.index <= j,
                j == scan_end(s, i, CharClass::Digit),
                j <= s.len(),
                forall|m: int| i <= m < j ==> in_class(CharClass::Digit, #[trigger] s[m]),
                j < s.len() ==> !in_class(CharClass::Digit, s[j]),
                lexeme@ == l0 + s.subrange(i, self.index as int),
            ensures
                self.wf(),
                self.chars@ == s,
                self.index == j,
                lexeme@ == l0 + s.subrange(i, j),
            decreases s.len() - self.index,
        {
            let ch = match self.peek() {
                Some(ch) => ch,
                None => break,
            };
            if is_ascii_digit(ch) {
                push_char(lexeme, ch);
                self.advance();
                assert(lexeme@ =~= l0 + s.subrange(i, self.index as int));
            } else {
                break;
            }
        }
    }

    /// A time `[0-9]{2}:[0-9]{2}` starts at the cursor.
    fn time_here(&self) -> (b: bool)
        requires
            self.wf(),
        ensures
            b == time_at(self.chars@, self.index as int),
    {
        let i = self.index;
        if self.chars.len() - i < 5 {
            return false;
        }
        is_ascii_digit(self.chars[i]) && is_ascii_digit(self.chars[i + 1]) && self.chars[i + 2]
            == ':' && is_ascii_digit(self.chars[i + 3]) && is_ascii_digit(self.chars[i + 4])
    }

    fn consume_number_or_time(&mut self) -> (t: Token)
        requires
            old(self).wf(),
            old(self).index < old(self).chars.len(),
            spec_is_ascii_digit(old(self).chars@[old(self).index as int]),
        ensures
            final(self).wf(),
            final(self).chars@ == old(self).chars@,
            ({
                let s = old(self).chars@;
                let i = old(self).index as int;
                let j = numeric_end(s, i);
                &&& final(self).index == j
                &&& i < j
                &&& t@ == tok(numeric_kind(s, i), s.subrange(i, j), line_at(s, i))
            }),
    {
        let ghost s = self.chars@;
        let ghost i = self.index as int;
        proof {
            lemma_numeric_end_bounds(s, i);
            lemma_scan_end_bounds(s, i, CharClass::Digit);
        }
        let line = self.line;
        let mut lexeme = String::new();
        if self.time_here() {
            let mut n: usize = 0;
            while n < 5
                invariant
                    self.wf(),
                    self.chars@ == s,
                    n <= 5,
                    0 <= i,
                    self.index == i + n,
                    i + 5 <= s.len(),
                    lexeme@ == s.subrange(i, i + n),
                    line == line_at(s, i),
                decreases 5 - n,
            {
                let c = self.chars[self.index];
                self.advance();
                push_char(&mut lexeme, c);

                n = n + 1;
                assert(lexeme@ =~= s.subrange(i, i + n));
            }
            return Token { kind: TokenKind::Time, lexeme, line };
        }
        self.take_digits(&mut lexeme);
        let ghost d = self.index as int;
        assert(lexeme@ =~= s.subrange(i, d));
        let point = self.peek();
        let after = self.peek_next();
        if let (Some(c1), Some(c2)) = (point, after) {
            if c1 == '.' && is_ascii_digit(c2) {
                self.advance();
                push_char(&mut lexeme, '.');
                assert(lexeme@ =~= s.subrange(i, d + 1));
                proof {
                    lemma_scan_end_bounds(s, d + 1, CharClass::Digit);
                }
                self.take_digits(&mut lexeme);
            }
        }
        assert(lexeme@ =~= s.subrange(i, self.index as int));
        Token { kind: TokenKind::Number, lexeme, line }
    }

    fn consume_comparator(&mut self) -> (r: Result<Token, LexerError>)
        requires
            old(self).wf(),
            old(self).index < old(self).chars.len(),
            is_comparator_start(old(self).chars@[old(self).index as int]),
        ensures
            final(self).wf(),
            final(self).chars@ == old(self).chars@,
            ({
                let s = old(self).chars@;
                let i = old(self).index as int;
                if lone_comparator_char(s, i) {
                    &&& r is Err
                    &&& r->Err_0@ == LexerErrorView {
                        msg: unrecognized_msg(s[i]),
                        line: line_at(s, i),
                        column: column_at(s, i),
                    }
                } else {
                    let j = if i + 1 < s.len() && is_comparator_pair(s[i], s[i + 1]) {
                        i + 2
                    } else {
                        i + 1
                    };
                    &&& r is Ok
                    &&& final(self).index == j
                    &&& i < j
                    &&& r->Ok_0@ == tok(TokenKind::Comparator, s.subrange(i, j), line_at(s, i))
                }
            }),
    {
        let ghost s = self.chars@;
        let ghost i = self.index as int;
        let line = self.line;
        let column = self.column;
        let first = match self.advance() {
            Some(c) => c,
            None => return Err(LexerError { msg: String::new(), line, column }),
        };
        let mut lexeme = String::new();
        push_char(&mut lexeme, first);
        let mut paired = false;
        if let Some(next) = self.peek() {
            if next == '=' {
                push_char(&mut lexeme, next);
                self.advance();
                paired = true;
            }
        }
        if !paired && (first == '=' || first == '!') {
            let mut msg = String::from_str("Unrecognized character '");
            push_char(&mut msg, first);
            msg.append("'");
            assert(msg@ =~= unrecognized_msg(first));
            return Err(LexerError { msg, line, column });
        }
        assert(lexeme@ =~= s.subrange(i, self.index as int));
        Ok(Token { kind: TokenKind::Comparator, lexeme, line })
    }

    fn consume_word(&mut self) -> (t: Token)
        requires
            old(self).wf(),
            old(self).index < old(self).chars.len(),
            spec_is_ascii_alphabetic(old(self).chars@[old(self).index as int]),
        ensures
            final(self).wf(),
            final(self).chars@ == old(self).chars@,
            ({
                let s = old(self).chars@;
                let i = old(self).index as int;
                let j = scan_end(s, i, CharClass::Word);
                let lexeme = s.subrange(i, j);
                &&& final(self).index == j
                &&& i < j
                &&& t@ == tok(keyword_kind(lexeme), lexeme, line_at(s, i))
            }),
    {
        let ghost s = self.chars@;
        let ghost i = self.index as int;
        proof {
            lemma_scan_end_bounds(s, i, CharClass::Word);
        }
        let ghost j = scan_end(s, i, CharClass::Word);
        let line = self.line;
        let mut lexeme = String::new();
        loop
            invariant
                self.wf(),
                self.chars@ == s,
                i <= self.index <= j,
                j == scan_end(s, i, CharClass::Word),
                j <= s.len(),
                forall|m: int| i <= m < j ==> in_class(CharClass::Word, #[trigger] s[m]),
                j < s.len() ==> !in_class(CharClass::Word, s[j]),
                lexeme@ == s.subrange(i, self.index as int),
            ensures
                self.index == j,
                lexeme@ == s.subrange(i, j),
            decreases s.len() - self.index,
        {
            let ch = match self.peek() {
                Some(ch) => ch,
                None => break,
            };
            if is_ascii_alphanumeric(ch) || ch == '_' || ch == '.' {
                push_char(&mut lexeme, ch);
                self.advance();
                assert(lexeme@ =~= s.subrange(i, self.index as int));
            } else {
                break;
            }
        }
        let kind = word_kind(&lexeme);
        Token { kind, lexeme, line }
    }
}

/// The kind of the word `w`: the keyword it spells, or an identifier.
fn word_kind(w: &String) -> (k: TokenKind)
    ensures
        k == keyword_kind(w@),
{
    let w = w.as_str();
    if str_eq(w, "RESTRICCION") {
        TokenKind::KeywordRestriccion
    } else if str_eq(w, "CONTEXTO") {
        TokenKind::KeywordContexto
    } else if str_eq(w, "CUANDO") {
        TokenKind::KeywordCuando
    } else if str_eq(w, "ENTONCES") {
        TokenKind::KeywordEntonces
    } else if str_eq(w, "SIEMPRE") {
        TokenKind::KeywordSiempre
    } else if str_eq(w, "UNIDAD") {
        TokenKind::KeywordUnidad
    } else if str_eq(w, "SEVERIDAD") {
        TokenKind::KeywordSeveridad
    } else if str_eq(w, "NORMA") {
        TokenKind::KeywordNorma
    } else if str_eq(w, "FUERA_DE") {
        TokenKind::KeywordFueraDe
    } else {
        TokenKind::Identifier
    }
}

} // verus!
