//! The text and JSON renderings of validation reports, and the text of
//! syntax errors.
use vstd::prelude::*;

use crate::ast::{severity_name, Severity};
use crate::parser::error::{ParseError, ParseErrorView};
use crate::text::{chars_of, nat_text, push_char, push_nat, push_str};
use crate::validator::report::{ReportView, ValidationReport, Violation, ViolationView};

verus! {

/// The hexadecimal digit of `n`, below 16, in lower case.
pub open spec fn hex_digit(n: int) -> char {
    seq!['0', '1', '2', '3', '4', '5', '6', '7', '8', '9', 'a', 'b', 'c', 'd', 'e', 'f'][n]
}

/// How `c` is written inside a JSON string: `"` and `\` after a backslash,
/// the control characters as `\n`, `\r`, `\t`, `\b`, `\f` or `\u00XX`, and
/// every other character as itself.
pub open spec fn json_escape_char(c: char) -> Seq<char> {
    if c == '"' {
        seq!['\\', '"']
    } else if c == '\\' {
        seq!['\\', '\\']
    } else if c == '\n' {
        seq!['\\', 'n']
    } else if c == '\r' {
        seq!['\\', 'r']
    } else if c == '\t' {
        seq!['\\', 't']
    } else if c == '\u{8}' {
        seq!['\\', 'b']
    } else if c == '\u{c}' {
        seq!['\\', 'f']
    } else if (c as u32) < 0x20 {
        seq!['\\', 'u', '0', '0', hex_digit((c as u32) as int / 16), hex_digit((c as u32) as int % 16)]
    } else {
        seq![c]
    }
}

/// The body of the JSON string literal that stands for `s`.
pub open spec fn spec_escape_json(s: Seq<char>) -> Seq<char>
    decreases s.len(),
{
    if s.len() == 0 {
        Seq::empty()
    } else {
        spec_escape_json(s.drop_last()) + json_escape_char(s.last())
    }
}

/// The value of a hexadecimal digit, in either case.
pub open spec fn hex_value(c: char) -> Option<int> {
    if '0' <= c <= '9' {
        Some(c as int - '0' as int)
    } else if 'a' <= c <= 'f' {
        Some(c as int - 'a' as int + 10)
    } else if 'A' <= c <= 'F' {
        Some(c as int - 'A' as int + 10)
    } else {
        None
    }
}

/// The number written by the four hexadecimal digits at `i` in `s`.
pub open spec fn hex4(s: Seq<char>, i: int) -> Option<int> {
    if 0 <= i && i + 4 <= s.len() {
        match (hex_value(s[i]), hex_value(s[i + 1]), hex_value(s[i + 2]), hex_value(s[i + 3])) {
            (Some(a), Some(b), Some(c), Some(d)) => Some(a * 4096 + b * 256 + c * 16 + d),
            _ => None,
        }
    } else {
        None
    }
}

pub open spec fn prepend_char(c: char, rest: Option<Seq<char>>) -> Option<Seq<char>> {
    match rest {
        Some(r) => Some(seq![c] + r),
        None => None,
    }
}

/// The character a one-letter JSON escape `\e` stands for.
pub open spec fn short_escape(e: char) -> Option<char> {
    if e == '"' {
        Some('"')
    } else if e == '\\' {
        Some('\\')
    } else if e == '/' {
        Some('/')
    } else if e == 'b' {
        Some('\u{8}')
    } else if e == 'f' {
        Some('\u{c}')
    } else if e == 'n' {
        Some('\n')
    } else if e == 'r' {
        Some('\r')
    } else if e == 't' {
        Some('\t')
    } else {
        None
    }
}

/// The characters that `s`, the inside of a JSON string literal, stands
/// for (RFC 8259: one-letter escapes, `\uXXXX` with surrogate pairs, and
/// any other character but `"`, `\` and the control characters as
/// itself); `None` when `s` is not such an inside.
pub open spec fn json_unescape(s: Seq<char>) -> Option<Seq<char>>
    decreases s.len(),
{
    if s.len() == 0 {
        Some(Seq::empty())
    } else if s[0] == '\\' {
        if s.len() < 2 {
            None
        } else if short_escape(s[1]) is Some {
            prepend_char(short_escape(s[1])->Some_0, json_unescape(s.skip(2)))
        } else if s[1] == 'u' && s.len() >= 6 {
            match hex4(s, 2) {
                None => None,
                Some(h) => if 0xD800 <= h <= 0xDBFF {
                    if s.len() >= 12 && s[6] == '\\' && s[7] == 'u' {
                        match hex4(s, 8) {
                            Some(l) => if 0xDC00 <= l <= 0xDFFF {
                                prepend_char(
                                    (0x10000 + (h - 0xD800) * 1024 + (l - 0xDC00)) as char,
                                    json_unescape(s.skip(12)),
                                )
                            } else {
                                None
                            },
                            None => None,
                        }
                    } else {
                        None
                    }
                } else if 0xDC00 <= h <= 0xDFFF {
                    None
                } else {
                    prepend_char(h as char, json_unescape(s.skip(6)))
                },
            }
        } else {
            None
        }
    } else if s[0] == '"' || (s[0] as u32) < 0x20 {
        None
    } else {
        prepend_char(s[0], json_unescape(s.drop_first()))
    }
}

proof fn lemma_hex_digit_value(n: int)
    requires
        0 <= n < 16,
    ensures
        hex_value(hex_digit(n)) == Some(n),
{
    let d = seq!['0', '1', '2', '3', '4', '5', '6', '7', '8', '9', 'a', 'b', 'c', 'd', 'e', 'f'];
    assert(hex_digit(n) == d[n]);
    if n < 10 {
        assert(d[n] as int == '0' as int + n) by {
            assert(d[0] == '0' && d[1] == '1' && d[2] == '2' && d[3] == '3' && d[4] == '4');
            assert(d[5] == '5' && d[6] == '6' && d[7] == '7' && d[8] == '8' && d[9] == '9');
        }
    } else {
        assert(d[n] as int == 'a' as int + n - 10) by {
            assert(d[10] == 'a' && d[11] == 'b' && d[12] == 'c' && d[13] == 'd' && d[14] == 'e'
                && d[15] == 'f');
        }
    }
}

proof fn lemma_escape_front(s: Seq<char>)
    requires
        s.len() > 0,
    ensures
        spec_escape_json(s) == json_escape_char(s[0]) + spec_escape_json(s.drop_first()),
    decreases s.len(),
{
    if s.len() == 1 {
        assert(s.drop_last() =~= Seq::<char>::empty());
        assert(s.drop_first() =~= Seq::<char>::empty());
        assert(json_escape_char(s[0]) + Seq::<char>::empty() =~= json_escape_char(s[0]));
    } else {
        let init = s.drop_last();
        lemma_escape_front(init);
        assert(init.drop_first() =~= s.drop_first().drop_last());
        assert(s.drop_first().last() == s.last());
        assert(init[0] == s[0]);
        assert(spec_escape_json(s) =~= json_escape_char(s[0]) + spec_escape_json(s.drop_first()));
    }
}

proof fn lemma_unescape_escaped_char(c: char, rest: Seq<char>)
    ensures
        json_unescape(json_escape_char(c) + rest) == prepend_char(c, json_unescape(rest)),
{
    let x = json_escape_char(c) + rest;
    if c == '"' || c == '\\' || c == '\n' || c == '\r' || c == '\t' || c == '\u{8}' || c == '\u{c}' {
        assert(x[0] == '\\');
        assert(x.skip(2) =~= rest);
    } else if (c as u32) < 0x20 {
        let u = (c as u32) as int;
        lemma_hex_digit_value(u / 16);
        lemma_hex_digit_value(u % 16);
        assert(x[0] == '\\' && x[1] == 'u' && x[2] == '0' && x[3] == '0');
        assert(x[4] == hex_digit(u / 16) && x[5] == hex_digit(u % 16));
        assert(short_escape(x[1]) is None);
        assert(hex4(x, 2) == Some(u));
        assert(x.skip(6) =~= rest);
    } else {
        assert(x[0] == c);
        assert(x.drop_first() =~= rest);
    }
}

/// The inside of a JSON string that `escape_json` writes stands for exactly
/// the text it was given: `"` followed by `escape_json(s)` and `"` is a
/// JSON string literal whose value is `s`.
pub proof fn lemma_escape_json_decodes(s: Seq<char>)
    ensures
        json_unescape(spec_escape_json(s)) == Some(s),
    decreases s.len(),
{
    if s.len() > 0 {
        lemma_escape_front(s);
        lemma_escape_json_decodes(s.drop_first());
        lemma_unescape_escaped_char(s[0], spec_escape_json(s.drop_first()));
        assert(seq![s[0]] + s.drop_first() =~= s);
    }
}

fn hex_digit_char(n: u32) -> (c: char)
    requires
        n < 16,
    ensures
        c == hex_digit(n as int),
{
    match n {
        0 => '0',
        1 => '1',
        2 => '2',
        3 => '3',
        4 => '4',
        5 => '5',
        6 => '6',
        7 => '7',
        8 => '8',
        9 => '9',
        10 => 'a',
        11 => 'b',
        12 => 'c',
        13 => 'd',
        14 => 'e',
        _ => 'f',
    }
}

fn push_json_escaped(r: &mut String, c: char)
    ensures
        final(r)@ == old(r)@ + json_escape_char(c),
{
    let ghost r0 = r@;
    if c == '"' {
        push_char(r, '\\');
        push_char(r, '"');
    } else if c == '\\' {
        push_char(r, '\\');
        push_char(r, '\\');
    } else if c == '\n' {
        push_char(r, '\\');
        push_char(r, 'n');
    } else if c == '\r' {
        push_char(r, '\\');
        push_char(r, 'r');
    } else if c == '\t' {
        push_char(r, '\\');
        push_char(r, 't');
    } else if c == '\u{8}' {
        push_char(r, '\\');
        push_char(r, 'b');
    } else if c == '\u{c}' {
        push_char(r, '\\');
        push_char(r, 'f');
    } else if (c as u32) < 0x20 {
        let u = c as u32;
        push_char(r, '\\');
        push_char(r, 'u');
        push_char(r, '0');
        push_char(r, '0');
        let hi = hex_digit_char(u / 16);
        push_char(r, hi);
        let lo = hex_digit_char(u % 16);
        push_char(r, lo);
    } else {
        push_char(r, c);
    }
    assert(r@ =~= r0 + json_escape_char(c));
}

/// Escapes `value` for the inside of a JSON string: quotes, backslashes
/// and control characters.
pub fn escape_json(value: &str) -> (r: String)
    ensures
        r@ == spec_escape_json(value@),
{
    let cs = chars_of(value);
    let mut r = String::new();
    let mut i: usize = 0;
    while i < cs.len()
        invariant
            i <= cs.len(),
            r@ == spec_escape_json(cs@.take(i as int)),
        decreases cs.len() - i,
    {
        let c = cs[i];
        push_json_escaped(&mut r, c);
        i = i + 1;
        assert(cs@.take(i as int).drop_last() =~= cs@.take((i - 1) as int));
        assert(r@ =~= spec_escape_json(cs@.take(i as int)));
    }
    assert(cs@.take(cs.len() as int) =~= value@);
    r
}

/// The upper-case label of a severity in text reports.
pub open spec fn severity_label(s: Severity) -> Seq<char> {
    match s {
        Severity::Critica => "CRITICA"@,
        Severity::Regulatoria => "REGULATORIA"@,
        Severity::Operacional => "OPERACIONAL"@,
    }
}

/// The upper case of an ASCII letter; any other character is kept.
pub open spec fn ascii_upper(c: char) -> char {
    if 'a' <= c <= 'z' {
        ((c as u32) - 32) as char
    } else {
        c
    }
}

pub open spec fn to_upper(s: Seq<char>) -> Seq<char> {
    s.map_values(|c: char| ascii_upper(c))
}

/// The label of a severity in a text report is its name in upper case; so
/// the three labels differ.
pub proof fn lemma_label_is_upper_name(s: Severity)
    ensures
        severity_label(s) == to_upper(severity_name(s)),
{
    reveal_strlit("critica");
    reveal_strlit("regulatoria");
    reveal_strlit("operacional");
    reveal_strlit("CRITICA");
    reveal_strlit("REGULATORIA");
    reveal_strlit("OPERACIONAL");
    assert(severity_label(s) =~= to_upper(severity_name(s)));
}

/// The lines of one violation in a text report.
pub open spec fn text_violation(v: ViolationView) -> Seq<char> {
    "["@ + severity_label(v.severity) + "] "@ + v.rule_name + " - "@ + v.entity_name + " ("@
        + v.entity_id + ")\n"@ + "  "@ + v.message + "\n"@ + match v.norm {
        Some(n) => "  Norma: "@ + n + "\n"@,
        None => Seq::empty(),
    }
}

pub open spec fn text_violations(vs: Seq<ViolationView>) -> Seq<char>
    decreases vs.len(),
{
    if vs.len() == 0 {
        Seq::empty()
    } else {
        text_violations(vs.drop_last()) + text_violation(vs.last())
    }
}

/// The text report: the verdict, the number of violations, then each
/// violation.
pub open spec fn spec_render_text(r: ReportView) -> Seq<char> {
    "Resultado: "@ + (if r.valid {
        "V\u{c1}LIDO"@
    } else {
        "INV\u{c1}LIDO"@
    }) + "\n"@ + "Violaciones: "@ + nat_text(r.violations.len()) + "\n"@ + text_violations(
        r.violations,
    )
}

/// One violation as a JSON object.
pub open spec fn json_violation(v: ViolationView) -> Seq<char> {
    "{\"rule_name\":\""@ + spec_escape_json(v.rule_name) + "\",\"entity_id\":\""@
        + spec_escape_json(v.entity_id) + "\",\"entity_name\":\""@ + spec_escape_json(
        v.entity_name,
    ) + "\",\"message\":\""@ + spec_escape_json(v.message) + "\",\"severity\":\""@
        + severity_name(v.severity) + "\",\"norm\":"@ + match v.norm {
        Some(n) => "\""@ + spec_escape_json(n) + "\""@,
        None => "null"@,
    } + "}"@
}

pub open spec fn json_violations(vs: Seq<ViolationView>) -> Seq<char>
    decreases vs.len(),
{
    if vs.len() == 0 {
        Seq::empty()
    } else if vs.len() == 1 {
        json_violation(vs[0])
    } else {
        json_violations(vs.drop_last()) + ","@ + json_violation(vs.last())
    }
}

/// `items` with `sep` between each two consecutive ones.
pub open spec fn joined(items: Seq<Seq<char>>, sep: Seq<char>) -> Seq<char>
    decreases items.len(),
{
    if items.len() == 0 {
        Seq::empty()
    } else if items.len() == 1 {
        items[0]
    } else {
        items[0] + sep + joined(items.drop_first(), sep)
    }
}

proof fn lemma_joined_push(items: Seq<Seq<char>>, sep: Seq<char>, x: Seq<char>)
    requires
        items.len() > 0,
    ensures
        joined(items.push(x), sep) == joined(items, sep) + sep + x,
    decreases items.len(),
{
    let all = items.push(x);
    if items.len() == 1 {
        assert(all.drop_first() =~= seq![x]);
        assert(joined(seq![x], sep) == x);
        assert(all[0] == items[0]);
        assert(joined(all, sep) =~= joined(items, sep) + sep + x);
    } else {
        assert(all.drop_first() =~= items.drop_first().push(x));
        lemma_joined_push(items.drop_first(), sep, x);
        assert(all[0] == items[0]);
        assert(joined(all, sep) =~= joined(items, sep) + sep + x);
    }
}

/// The violations of a JSON report are their objects, in order, with a
/// comma between each two consecutive ones: a JSON array of exactly one
/// object per violation.
pub proof fn lemma_json_violations_are_comma_separated(vs: Seq<ViolationView>)
    ensures
        json_violations(vs) == joined(vs.map_values(|v: ViolationView| json_violation(v)), ","@),
    decreases vs.len(),
{
    let items = vs.map_values(|v: ViolationView| json_violation(v));
    if vs.len() == 1 {
        assert(items[0] == json_violation(vs[0]));
    } else if vs.len() > 1 {
        let init = vs.drop_last();
        lemma_json_violations_are_comma_separated(init);
        let init_items = init.map_values(|v: ViolationView| json_violation(v));
        assert(items =~= init_items.push(json_violation(vs.last())));
        lemma_joined_push(init_items, ","@, json_violation(vs.last()));
    }
}

/// The JSON report, on one line.
pub open spec fn spec_render_json(r: ReportView) -> Seq<char> {
    "{\"valid\":"@ + (if r.valid {
        "true"@
    } else {
        "false"@
    }) + ",\"violations\":["@ + json_violations(r.violations) + "]}\n"@
}

fn severity_label_of(s: Severity) -> (r: &'static str)
    ensures
        r@ == severity_label(s),
{
    match s {
        Severity::Critica => "CRITICA",
        Severity::Regulatoria => "REGULATORIA",
        Severity::Operacional => "OPERACIONAL",
    }
}

fn push_text_violation(out: &mut String, v: &Violation)
    ensures
        final(out)@ == old(out)@ + text_violation(v@),
{
    push_str(out, "[");
    push_str(out, severity_label_of(v.severity));
    push_str(out, "] ");
    push_str(out, v.rule_name.as_str());
    push_str(out, " - ");
    push_str(out, v.entity_name.as_str());
    push_str(out, " (");
    push_str(out, v.entity_id.as_str());
    push_str(out, ")\n");
    push_str(out, "  ");
    push_str(out, v.message.as_str());
    push_str(out, "\n");
    match &v.norm {
        Some(n) => {
            push_str(out, "  Norma: ");
            push_str(out, n.as_str());
            push_str(out, "\n");
        },
        None => {},
    }
    assert(final(out)@ =~= old(out)@ + text_violation(v@));
}

/// The text report of `report`, line by line.
pub fn render_text(report: &ValidationReport) -> (out: String)
    ensures
        out@ == spec_render_text(report@),
{
    let mut out = String::new();
    push_str(&mut out, "Resultado: ");
    if report.valid {
        push_str(&mut out, "V\u{c1}LIDO");
    } else {
        push_str(&mut out, "INV\u{c1}LIDO");
    }
    push_str(&mut out, "\n");
    push_str(&mut out, "Violaciones: ");
    push_nat(&mut out, report.violations.len());
    push_str(&mut out, "\n");
    let ghost head = out@;
    let ghost vs = report@.violations;
    let mut i: usize = 0;
    while i < report.violations.len()
        invariant
            i <= report.violations.len(),
            vs == report@.violations,
            out@ == head + text_violations(vs.take(i as int)),
        decreases report.violations.len() - i,
    {
        let ghost before = out@;
        push_text_violation(&mut out, &report.violations[i]);
        assert(vs[i as int] == report.violations@[i as int]@);
        i = i + 1;
        assert(vs.take(i as int).drop_last() =~= vs.take((i - 1) as int));
        assert(out@ =~= head + text_violations(vs.take(i as int)));
    }
    assert(vs.take(report.violations.len() as int) =~= vs);
    assert(out@ =~= spec_render_text(report@));
    out
}

fn push_json_violation(out: &mut String, v: &Violation)
    ensures
        final(out)@ == old(out)@ + json_violation(v@),
{
    push_str(out, "{\"rule_name\":\"");
    push_str(out, escape_json(v.rule_name.as_str()).as_str());
    push_str(out, "\",\"entity_id\":\"");
    push_str(out, escape_json(v.entity_id.as_str()).as_str());
    push_str(out, "\",\"entity_name\":\"");
    push_str(out, escape_json(v.entity_name.as_str()).as_str());
    push_str(out, "\",\"message\":\"");
    push_str(out, escape_json(v.message.as_str()).as_str());
    push_str(out, "\",\"severity\":\"");
    push_str(out, v.severity.as_str());
    push_str(out, "\",\"norm\":");
    match &v.norm {
        Some(n) => {
            push_str(out, "\"");
            push_str(out, escape_json(n.as_str()).as_str());
            push_str(out, "\"");
        },
        None => push_str(out, "null"),
    }
    push_str(out, "}");
    assert(final(out)@ =~= old(out)@ + json_violation(v@));
}

/// The JSON report of `report`, on one line.
pub fn render_json(report: &ValidationReport) -> (out: String)
    ensures
        out@ == spec_render_json(report@),
{
    let mut out = String::new();
    push_str(&mut out, "{\"valid\":");
    push_str(
        &mut out,
        if report.valid {
            "true"
        } else {
            "false"
        },
    );
    push_str(&mut out, ",\"violations\":[");
    let ghost head = out@;
    let ghost vs = report@.violations;
    let mut i: usize = 0;
    while i < report.violations.len()
        invariant
            i <= report.violations.len(),
            vs == report@.violations,
            out@ == head + json_violations(vs.take(i as int)),
        decreases report.violations.len() - i,
    {
        let ghost before = out@;
        if i > 0 {
            push_str(&mut out, ",");
        }
        push_json_violation(&mut out, &report.violations[i]);
        assert(vs[i as int] == report.violations@[i as int]@);
        i = i + 1;
        assert(vs.take(i as int).drop_last() =~= vs.take((i - 1) as int));
        if i == 1 {
            assert(vs.take(1)[0] == vs[0]);
            assert(out@ =~= head + json_violations(vs.take(i as int)));
        } else {
            assert(out@ =~= head + json_violations(vs.take(i as int)));
        }
    }
    assert(vs.take(report.violations.len() as int) =~= vs);
    push_str(&mut out, "]}\n");
    assert(out@ =~= spec_render_json(report@));
    out
}

/// The two renderings of a report.
#[derive(Debug, Clone, Copy, PartialEq, Eq, Structural)]
pub enum OutputFormat {
    Text,
    Json,
}

/// The rendering of `report` in format `output`.
pub fn render_report(report: &ValidationReport, output: OutputFormat) -> (out: String)
    ensures
        out@ == match output {
            OutputFormat::Text => spec_render_text(report@),
            OutputFormat::Json => spec_render_json(report@),
        },
{
    match output {
        OutputFormat::Text => render_text(report),
        OutputFormat::Json => render_json(report),
    }
}

/// The text of a syntax error: `expected <what>, found <text> at line <n>`.
pub open spec fn spec_parse_error_text(e: ParseErrorView) -> Seq<char> {
    "expected "@ + e.expected + ", found "@ + e.found + " at line "@ + nat_text(e.line as nat)
}

impl ParseError {
    /// The text of the error.
    pub fn to_text(&self) -> (s: String)
        ensures
            s@ == spec_parse_error_text(self@),
    {
        let mut s = String::new();
        push_str(&mut s, "expected ");
        push_str(&mut s, self.expected.as_str());
        push_str(&mut s, ", found ");
        push_str(&mut s, self.found.as_str());
        push_str(&mut s, " at line ");
        push_nat(&mut s, self.line);
        assert(s@ =~= spec_parse_error_text(self@));
        s
    }
}

} // verus!
