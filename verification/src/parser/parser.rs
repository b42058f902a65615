use vstd::prelude::*;

use super::error::{ParseError, ParseErrorView};
use crate::ast::{
    severity_name,
    Comparator, Condition, ConditionView, Constraint, ConstraintView, ContextKind,
    Metadata, MetadataView, Operand, OperandView, Rule, RuleSet, RuleView, Severity, Statement,
    StatementView,
};
use crate::lexer::token::{tokens_view, Token, TokenKind, TokenView};
use crate::lexer::tokenizer::{lemma_tokenize_ends_with_eof, spec_tokenize};
use crate::ast::decimal::{float_text, is_float_text};
use crate::text::str_eq;

verus! {

// ------------------------------------------------------------------------
// The grammar, stated over the sequence of token models. Each production
// gives its result (a model or an error) and the position it stops at.
// ------------------------------------------------------------------------
/// Some token at or after `p` marks the end of the input.
pub open spec fn has_eof_from(ts: Seq<TokenView>, p: int) -> bool {
    exists|e: int| p <= e < ts.len() && #[trigger] ts[e].kind == TokenKind::Eof
}

/// The token at `p` has kind `kind`.
pub open spec fn checks(ts: Seq<TokenView>, p: int, kind: TokenKind) -> bool {
    0 <= p < ts.len() && ts[p].kind == kind
}

/// The position after consuming the token at `p`; the end-of-input token
/// is never consumed.
pub open spec fn adv(ts: Seq<TokenView>, p: int) -> int {
    if 0 <= p < ts.len() && ts[p].kind != TokenKind::Eof {
        p + 1
    } else {
        p
    }
}

/// The error "expected `expected`" reported at the token at `p`.
pub open spec fn error_at(ts: Seq<TokenView>, p: int, expected: Seq<char>) -> ParseErrorView {
    ParseErrorView { expected, found: ts[p].lexeme, line: ts[p].line }
}

pub open spec fn sp_expect(ts: Seq<TokenView>, p: int, kind: TokenKind, expected: Seq<char>) -> (
    Result<TokenView, ParseErrorView>,
    int,
) {
    if checks(ts, p, kind) {
        (Ok(ts[p]), adv(ts, p))
    } else {
        (Err(error_at(ts, p, expected)), p)
    }
}

pub open spec fn comparator_of(w: Seq<char>) -> Option<Comparator> {
    if w == ">="@ {
        Some(Comparator::Gte)
    } else if w == "<="@ {
        Some(Comparator::Lte)
    } else if w == ">"@ {
        Some(Comparator::Gt)
    } else if w == "<"@ {
        Some(Comparator::Lt)
    } else if w == "=="@ {
        Some(Comparator::Eq)
    } else if w == "!="@ {
        Some(Comparator::Neq)
    } else {
        None
    }
}

/// How a rule file writes each comparator.
pub open spec fn comparator_text(c: Comparator) -> Seq<char> {
    match c {
        Comparator::Gte => seq!['>', '='],
        Comparator::Lte => seq!['<', '='],
        Comparator::Gt => seq!['>'],
        Comparator::Lt => seq!['<'],
        Comparator::Eq => seq!['=', '='],
        Comparator::Neq => seq!['!', '='],
    }
}

/// The parser reads every comparator back from the way it is written, and
/// reads nothing else as a comparator: the six texts `>=`, `<=`, `>`, `<`,
/// `==`, `!=` map one to one onto the six comparators.
pub proof fn lemma_comparators_read_back(c: Comparator, w: Seq<char>)
    ensures
        comparator_of(comparator_text(c)) == Some(c),
        comparator_of(w) matches Some(d) ==> w == comparator_text(d),
{
    reveal_strlit(">=");
    reveal_strlit("<=");
    reveal_strlit(">");
    reveal_strlit("<");
    reveal_strlit("==");
    reveal_strlit("!=");
    assert(">="@ =~= seq!['>', '=']);
    assert("<="@ =~= seq!['<', '=']);
    assert(">"@ =~= seq!['>']);
    assert("<"@ =~= seq!['<']);
    assert("=="@ =~= seq!['=', '=']);
    assert("!="@ =~= seq!['!', '=']);
    let t = comparator_text(c);
    match c {
        Comparator::Gte => {},
        Comparator::Lte => {
            assert(t != ">="@) by {
                assert(t[0] != ">="@[0]);
            }
        },
        Comparator::Gt => {
            assert(t.len() != ">="@.len() && t.len() != "<="@.len());
        },
        Comparator::Lt => {
            assert(t.len() != ">="@.len() && t.len() != "<="@.len());
            assert(t != ">"@) by {
                assert(t[0] != ">"@[0]);
            }
        },
        Comparator::Eq => {
            assert(t != ">="@) by {
                assert(t[0] != ">="@[0]);
            }
            assert(t != "<="@) by {
                assert(t[0] != "<="@[0]);
            }
            assert(t.len() != ">"@.len() && t.len() != "<"@.len());
        },
        Comparator::Neq => {
            assert(t != ">="@) by {
                assert(t[0] != ">="@[0]);
            }
            assert(t != "<="@) by {
                assert(t[0] != "<="@[0]);
            }
            assert(t.len() != ">"@.len() && t.len() != "<"@.len());
            assert(t != "=="@) by {
                assert(t[0] != "=="@[0]);
            }
        },
    }
}

pub open spec fn context_of(w: Seq<char>) -> Option<ContextKind> {
    if w == "piloto"@ {
        Some(ContextKind::Piloto)
    } else if w == "aeronave"@ {
        Some(ContextKind::Aeronave)
    } else if w == "vuelo"@ {
        Some(ContextKind::Vuelo)
    } else if w == "aeropuerto"@ {
        Some(ContextKind::Aeropuerto)
    } else if w == "tripulacion"@ {
        Some(ContextKind::Tripulacion)
    } else {
        None
    }
}

pub open spec fn severity_of(w: Seq<char>) -> Option<Severity> {
    if w == "critica"@ {
        Some(Severity::Critica)
    } else if w == "regulatoria"@ {
        Some(Severity::Regulatoria)
    } else if w == "operacional"@ {
        Some(Severity::Operacional)
    } else {
        None
    }
}

pub open spec fn sp_comparator(ts: Seq<TokenView>, p: int) -> (
    Result<Comparator, ParseErrorView>,
    int,
) {
    let (t, q) = sp_expect(ts, p, TokenKind::Comparator, "comparator"@);
    match t {
        Err(e) => (Err(e), q),
        Ok(tok) => match comparator_of(tok.lexeme) {
            Some(c) => (Ok(c), q),
            None => (
                Err(ParseErrorView { expected: "comparator"@, found: tok.lexeme, line: tok.line }),
                q,
            ),
        },
    }
}

pub open spec fn sp_operand(ts: Seq<TokenView>, p: int) -> (Result<OperandView, ParseErrorView>, int) {
    if checks(ts, p, TokenKind::Number) {
        if is_float_text(ts[p].lexeme) {
            (Ok(OperandView::Number(ts[p].lexeme)), adv(ts, p))
        } else {
            (Err(error_at(ts, p, "number"@)), adv(ts, p))
        }
    } else if checks(ts, p, TokenKind::Identifier) {
        (Ok(OperandView::Field(ts[p].lexeme)), adv(ts, p))
    } else {
        (Err(error_at(ts, p, "number or identifier"@)), p)
    }
}

pub open spec fn sp_condition(ts: Seq<TokenView>, p: int) -> (
    Result<ConditionView, ParseErrorView>,
    int,
) {
    let (f, p1) = sp_expect(ts, p, TokenKind::Identifier, "condition field"@);
    match f {
        Err(e) => (Err(e), p1),
        Ok(field) => {
            let (c, p2) = sp_comparator(ts, p1);
            match c {
                Err(e) => (Err(e), p2),
                Ok(comparator) => {
                    let (v, p3) = sp_operand(ts, p2);
                    match v {
                        Err(e) => (Err(e), p3),
                        Ok(value) => (
                            Ok(ConditionView { field: field.lexeme, comparator, value }),
                            p3,
                        ),
                    }
                },
            }
        },
    }
}

pub open spec fn sp_constraint(ts: Seq<TokenView>, p: int) -> (
    Result<ConstraintView, ParseErrorView>,
    int,
) {
    let (f, p1) = sp_expect(ts, p, TokenKind::Identifier, "constraint field"@);
    match f {
        Err(e) => (Err(e), p1),
        Ok(field) => if checks(ts, p1, TokenKind::KeywordFueraDe) {
            let (from, p2) = sp_expect(ts, adv(ts, p1), TokenKind::Time, "TIME"@);
            match from {
                Err(e) => (Err(e), p2),
                Ok(from) => {
                    let (to, p3) = sp_expect(ts, p2, TokenKind::Time, "TIME"@);
                    match to {
                        Err(e) => (Err(e), p3),
                        Ok(to) => (
                            Ok(
                                ConstraintView::OutsideRange {
                                    field: field.lexeme,
                                    from: from.lexeme,
                                    to: to.lexeme,
                                },
                            ),
                            p3,
                        ),
                    }
                },
            }
        } else {
            let (c, p2) = sp_comparator(ts, p1);
            match c {
                Err(e) => (Err(e), p2),
                Ok(comparator) => {
                    let (v, p3) = sp_operand(ts, p2);
                    match v {
                        Err(e) => (Err(e), p3),
                        Ok(value) => (
                            Ok(
                                ConstraintView::Comparison {
                                    field: field.lexeme,
                                    comparator,
                                    value,
                                },
                            ),
                            p3,
                        ),
                    }
                },
            }
        },
    }
}

pub open spec fn sp_statement(ts: Seq<TokenView>, p: int) -> (
    Result<StatementView, ParseErrorView>,
    int,
) {
    if checks(ts, p, TokenKind::KeywordCuando) {
        let (c, p1) = sp_condition(ts, adv(ts, p));
        match c {
            Err(e) => (Err(e), p1),
            Ok(condition) => {
                let (k, p2) = sp_expect(ts, p1, TokenKind::KeywordEntonces, "ENTONCES"@);
                match k {
                    Err(e) => (Err(e), p2),
                    Ok(_) => {
                        let (k2, p3) = sp_constraint(ts, p2);
                        match k2 {
                            Err(e) => (Err(e), p3),
                            Ok(constraint) => (
                                Ok(StatementView::Conditional { condition, constraint }),
                                p3,
                            ),
                        }
                    },
                }
            },
        }
    } else if checks(ts, p, TokenKind::KeywordSiempre) {
        let (k, p1) = sp_constraint(ts, adv(ts, p));
        match k {
            Err(e) => (Err(e), p1),
            Ok(constraint) => (Ok(StatementView::Always { constraint }), p1),
        }
    } else {
        (Err(error_at(ts, p, "CUANDO or SIEMPRE"@)), p)
    }
}

/// The metadata clauses from `p` up to the end of input or the next rule,
/// given the unit, severity and norm seen so far. A later clause of one
/// kind replaces an earlier one; the severity defaults to `operacional`.
pub open spec fn sp_metadata(
    ts: Seq<TokenView>,
    p: int,
    unit: Option<Seq<char>>,
    severity: Option<Severity>,
    norm: Option<Seq<char>>,
) -> (Result<MetadataView, ParseErrorView>, int)
    decreases ts.len() - p,
{
    if !(0 <= p < ts.len()) || ts[p].kind == TokenKind::Eof || ts[p].kind
        == TokenKind::KeywordRestriccion {
        (
            Ok(
                MetadataView {
                    unit,
                    severity: match severity {
                        Some(s) => s,
                        None => Severity::Operacional,
                    },
                    norm,
                },
            ),
            p,
        )
    } else if ts[p].kind == TokenKind::KeywordUnidad {
        let (t, q) = sp_expect(ts, p + 1, TokenKind::Identifier, "unit"@);
        match t {
            Err(e) => (Err(e), q),
            Ok(t) => sp_metadata(ts, q, Some(t.lexeme), severity, norm),
        }
    } else if ts[p].kind == TokenKind::KeywordSeveridad {
        let (t, q) = sp_expect(ts, p + 1, TokenKind::Identifier, "severity"@);
        match t {
            Err(e) => (Err(e), q),
            Ok(t) => match severity_of(t.lexeme) {
                Some(s) => sp_metadata(ts, q, unit, Some(s), norm),
                None => (
                    Err(
                        ParseErrorView {
                            expected: "valid severity"@,
                            found: t.lexeme,
                            line: t.line,
                        },
                    ),
                    q,
                ),
            },
        }
    } else if ts[p].kind == TokenKind::KeywordNorma {
        let (t, q) = sp_expect(ts, p + 1, TokenKind::String, "string"@);
        match t {
            Err(e) => (Err(e), q),
            Ok(t) => sp_metadata(ts, q, unit, severity, Some(t.lexeme)),
        }
    } else {
        (Err(error_at(ts, p, "metadata or next rule"@)), p + 1)
    }
}

pub open spec fn sp_rule(ts: Seq<TokenView>, p: int) -> (Result<RuleView, ParseErrorView>, int) {
    let (k, p1) = sp_expect(ts, p, TokenKind::KeywordRestriccion, "RESTRICCION"@);
    if k is Err {
        (Err(k->Err_0), p1)
    } else {
        let (n, p2) = sp_expect(ts, p1, TokenKind::Identifier, "rule name"@);
        if n is Err {
            (Err(n->Err_0), p2)
        } else {
            let (c, p3) = sp_expect(ts, p2, TokenKind::Colon, ":"@);
            if c is Err {
                (Err(c->Err_0), p3)
            } else {
                let (k2, p4) = sp_expect(ts, p3, TokenKind::KeywordContexto, "CONTEXTO"@);
                if k2 is Err {
                    (Err(k2->Err_0), p4)
                } else {
                    let (ct, p5) = sp_expect(ts, p4, TokenKind::Identifier, "context"@);
                    if ct is Err {
                        (Err(ct->Err_0), p5)
                    } else {
                        let ctx_tok = ct->Ok_0;
                        match context_of(ctx_tok.lexeme) {
                            None => (
                                Err(
                                    ParseErrorView {
                                        expected: "valid context"@,
                                        found: ctx_tok.lexeme,
                                        line: ctx_tok.line,
                                    },
                                ),
                                p5,
                            ),
                            Some(context) => {
                                let (st, p6) = sp_statement(ts, p5);
                                match st {
                                    Err(e) => (Err(e), p6),
                                    Ok(statement) => {
                                        let (m, p7) = sp_metadata(ts, p6, None, None, None);
                                        match m {
                                            Err(e) => (Err(e), p7),
                                            Ok(metadata) => (
                                                Ok(
                                                    RuleView {
                                                        name: n->Ok_0.lexeme,
                                                        context,
                                                        statement,
                                                        metadata,
                                                    },
                                                ),
                                                p7,
                                            ),
                                        }
                                    },
                                }
                            },
                        }
                    }
                }
            }
        }
    }
}

/// The rules from `p` up to the end-of-input token, or the first syntax
/// error.
pub open spec fn sp_rules(ts: Seq<TokenView>, p: int) -> (Result<Seq<RuleView>, ParseErrorView>, int)
    decreases ts.len() - p,
{
    if !(0 <= p < ts.len()) || ts[p].kind == TokenKind::Eof {
        (Ok(Seq::empty()), p)
    } else {
        let (r, q) = sp_rule(ts, p);
        match r {
            Err(e) => (Err(e), q),
            Ok(rule) => {
                proof {
                    lemma_rule_advances(ts, p);
                }
                let (rest, q2) = sp_rules(ts, q);
                match rest {
                    Err(e) => (Err(e), q2),
                    Ok(rs) => (Ok(seq![rule] + rs), q2),
                }
            },
        }
    }
}

pub proof fn lemma_metadata_bounds(
    ts: Seq<TokenView>,
    p: int,
    unit: Option<Seq<char>>,
    severity: Option<Severity>,
    norm: Option<Seq<char>>,
)
    requires
        0 <= p <= ts.len(),
    ensures
        p <= sp_metadata(ts, p, unit, severity, norm).1 <= ts.len(),
    decreases ts.len() - p,
{
    if 0 <= p < ts.len() && ts[p].kind != TokenKind::Eof && ts[p].kind
        != TokenKind::KeywordRestriccion {
        if ts[p].kind == TokenKind::KeywordUnidad {
            let (t, q) = sp_expect(ts, p + 1, TokenKind::Identifier, "unit"@);
            if t is Ok {
                lemma_metadata_bounds(ts, q, Some(t->Ok_0.lexeme), severity, norm);
            }
        } else if ts[p].kind == TokenKind::KeywordSeveridad {
            let (t, q) = sp_expect(ts, p + 1, TokenKind::Identifier, "severity"@);
            if t is Ok {
                if let Some(s) = severity_of(t->Ok_0.lexeme) {
                    lemma_metadata_bounds(ts, q, unit, Some(s), norm);
                }
            }
        } else if ts[p].kind == TokenKind::KeywordNorma {
            let (t, q) = sp_expect(ts, p + 1, TokenKind::String, "string"@);
            if t is Ok {
                lemma_metadata_bounds(ts, q, unit, severity, Some(t->Ok_0.lexeme));
            }
        }
    }
}

/// A rule that parses consumes at least one token and stays within the
/// input.
pub proof fn lemma_rule_advances(ts: Seq<TokenView>, p: int)
    requires
        0 <= p < ts.len(),
    ensures
        sp_rule(ts, p).0 is Ok ==> p < sp_rule(ts, p).1 <= ts.len(),
{
    let (k, p1) = sp_expect(ts, p, TokenKind::KeywordRestriccion, "RESTRICCION"@);
    if k is Ok {
        let (n, p2) = sp_expect(ts, p1, TokenKind::Identifier, "rule name"@);
        let (c, p3) = sp_expect(ts, p2, TokenKind::Colon, ":"@);
        let (k2, p4) = sp_expect(ts, p3, TokenKind::KeywordContexto, "CONTEXTO"@);
        let (ct, p5) = sp_expect(ts, p4, TokenKind::Identifier, "context"@);
        let (st, p6) = sp_statement(ts, p5);
        if n is Ok && c is Ok && k2 is Ok && ct is Ok && st is Ok {
            assert(p < p6 <= ts.len());
            lemma_metadata_bounds(ts, p6, None, None, None);
        }
    }
}

/// The result of parsing a whole token sequence from position `p`.
pub open spec fn spec_parse_rule_set(ts: Seq<TokenView>, p: int) -> (
    Result<Seq<RuleView>, ParseErrorView>,
    int,
) {
    sp_rules(ts, p)
}

/// The tokens of any text that tokenizes can be handed to the parser: they
/// hold an end-of-input token.
pub proof fn lemma_tokenized_text_is_parseable(text: Seq<char>)
    ensures
        spec_tokenize(text) is Ok ==> has_eof_from(spec_tokenize(text)->Ok_0, 0),
{
    lemma_tokenize_ends_with_eof(text);
    if spec_tokenize(text) is Ok {
        let ts = spec_tokenize(text)->Ok_0;
        assert(ts[ts.len() - 1].kind == TokenKind::Eof);
    }
}

/// The parser reads back the name of every severity as that severity.
pub proof fn lemma_severity_names_read_back(s: Severity)
    ensures
        severity_of(severity_name(s)) == Some(s),
{
    reveal_strlit("critica");
    reveal_strlit("regulatoria");
    reveal_strlit("operacional");
    match s {
        Severity::Critica => {},
        Severity::Regulatoria => {
            assert("regulatoria"@ != "critica"@) by {
                assert("regulatoria"@[0] != "critica"@[0]);
            }
        },
        Severity::Operacional => {
            assert("operacional"@ != "critica"@) by {
                assert("operacional"@[0] != "critica"@[0]);
            }
            assert("operacional"@ != "regulatoria"@) by {
                assert("operacional"@[0] != "regulatoria"@[0]);
            }
        },
    }
}

/// The only words the parser reads as a severity are the three severity
/// names.
pub proof fn lemma_severity_words(w: Seq<char>)
    ensures
        severity_of(w) is Some <==> (w == "critica"@ || w == "regulatoria"@ || w
            == "operacional"@),
{
}

/// The model of a sequence of rules.
pub open spec fn rules_view(rs: Seq<Rule>) -> Seq<RuleView> {
    rs.map_values(|r: Rule| r@)
}

// ------------------------------------------------------------------------
// The parser.
// ------------------------------------------------------------------------
/// A recursive-descent parser over a sequence of tokens.
pub struct Parser {
    tokens: Vec<Token>,
    index: usize,
}

impl Parser {
    /// The models of the tokens the parser reads.
    pub closed spec fn tokens(&self) -> Seq<TokenView> {
        tokens_view(self.tokens@)
    }

    /// The position of the next token to read.
    pub closed spec fn position(&self) -> int {
        self.index as int
    }

    spec fn wf(&self) -> bool {
        has_eof_from(self.tokens(), self.index as int)
    }

    /// A parser positioned at the first of `tokens`.
    pub fn new(tokens: Vec<Token>) -> (p: Self)
        ensures
            p.tokens() == tokens_view(tokens@),
            p.position() == 0,
    {
        Self { tokens, index: 0 }
    }

    /// Parses rules up to the end-of-input token. The tokens must hold an
    /// end-of-input token at or after the current position, as those of the
    /// tokenizer do.
    pub fn parse_rule_set(&mut self) -> (r: Result<RuleSet, ParseError>)
        requires
            has_eof_from(old(self).tokens(), old(self).position()),
        ensures
            final(self).tokens() == old(self).tokens(),
            final(self).position() == spec_parse_rule_set(old(self).tokens(), old(self).position()).1,
            has_eof_from(final(self).tokens(), final(self).position()),
            match (r, spec_parse_rule_set(old(self).tokens(), old(self).position()).0) {
                (Ok(rs), Ok(v)) => rs@ == v,
                (Err(e), Err(v)) => e@ == v,
                _ => false,
            },
    {
        let ghost ts = self.tokens();
        let ghost p0 = self.index as int;
        let mut rules: Vec<Rule> = Vec::new();
        loop
            invariant
                self.wf(),
                self.tokens() == ts,
                ts == old(self).tokens(),
                p0 == old(self).index,
                0 <= self.index < ts.len(),
                spec_parse_rule_set(ts, p0) == ({
                    let (rest, q) = sp_rules(ts, self.index as int);
                    (
                        match rest {
                            Ok(rs) => Ok(rules_view(rules@) + rs),
                            Err(e) => Err(e),
                        },
                        q,
                    )
                }),
            ensures
                self.wf(),
                self.tokens() == ts,
                checks(ts, self.index as int, TokenKind::Eof),
                spec_parse_rule_set(ts, p0) == (
                    Ok::<Seq<RuleView>, ParseErrorView>(rules_view(rules@)),
                    self.index as int,
                ),
            decreases ts.len() - self.index,
        {
            proof {
                self.lemma_wf_in_bounds();
            }
            if self.check(TokenKind::Eof) {
                break;
            }
            let ghost p = self.index as int;
            proof {
                lemma_rule_advances(ts, p);
            }
            match self.parse_rule() {
                Ok(rule) => {
                    let ghost prev = rules_view(rules@);
                    rules.push(rule);
                    assert(rules_view(rules@) =~= prev.push(rule@));
                    proof {
                        let (rest, q) = sp_rules(ts, self.index as int);
                        if let Ok(rs) = rest {
                            assert(prev + (seq![rule@] + rs) =~= prev.push(rule@) + rs);
                        }
                        self.lemma_wf_in_bounds();
                    }
                },
                Err(e) => {
                    return Err(e);
                },
            }
        }
        assert(rules_view(rules@) + Seq::<RuleView>::empty() =~= rules_view(rules@));
        Ok(RuleSet { rules })
    }

    proof fn lemma_wf_in_bounds(&self)
        requires
            self.wf(),
        ensures
            0 <= self.index < self.tokens@.len(),
            self.tokens().len() == self.tokens@.len(),
            self.tokens()[self.index as int] == self.tokens@[self.index as int]@,
            self.tokens@[self.index as int].kind != TokenKind::Eof ==> self.index + 1
                < self.tokens@.len() && has_eof_from(self.tokens(), self.index + 1),
    {
        let e = choose|e: int|
            self.index <= e < self.tokens().len() && #[trigger] self.tokens()[e].kind
                == TokenKind::Eof;
        if self.tokens@[self.index as int].kind != TokenKind::Eof {
            assert(self.tokens()[self.index as int].kind != TokenKind::Eof);
            assert(e != self.index);
        }
    }

    fn parse_rule(&mut self) -> (r: Result<Rule, ParseError>)
        requires
            old(self).wf(),
        ensures
            final(self).wf(),
            final(self).tokens() == old(self).tokens(),
            final(self).index == sp_rule(old(self).tokens(), old(self).index as int).1,
            match (r, sp_rule(old(self).tokens(), old(self).index as int).0) {
                (Ok(x), Ok(v)) => x@ == v,
                (Err(e), Err(v)) => e@ == v,
                _ => false,
            },
    {
        self.expect(TokenKind::KeywordRestriccion, "RESTRICCION")?;
        let name = self.expect_identifier("rule name")?.lexeme;
        self.expect(TokenKind::Colon, ":")?;
        self.expect(TokenKind::KeywordContexto, "CONTEXTO")?;
        let context_token = self.expect_identifier("context")?;
        let context = self.parse_context_kind(context_token)?;
        let statement = self.parse_statement()?;
        let metadata = self.parse_metadata_list()?;
        Ok(Rule { name, context, statement, metadata })
    }

    fn parse_statement(&mut self) -> (r: Result<Statement, ParseError>)
        requires
            old(self).wf(),
        ensures
            final(self).wf(),
            final(self).tokens() == old(self).tokens(),
            final(self).index == sp_statement(old(self).tokens(), old(self).index as int).1,
            match (r, sp_statement(old(self).tokens(), old(self).index as int).0) {
                (Ok(x), Ok(v)) => x@ == v,
                (Err(e), Err(v)) => e@ == v,
                _ => false,
            },
    {
        if self.match_kind(TokenKind::KeywordCuando) {
            let condition = self.parse_condition()?;
            self.expect(TokenKind::KeywordEntonces, "ENTONCES")?;
            let constraint = self.parse_constraint()?;
            Ok(Statement::Conditional { condition, constraint })
        } else if self.match_kind(TokenKind::KeywordSiempre) {
            let constraint = self.parse_constraint()?;
            Ok(Statement::Always { constraint })
        } else {
            Err(self.error_expected("CUANDO or SIEMPRE"))
        }
    }

    fn parse_condition(&mut self) -> (r: Result<Condition, ParseError>)
        requires
            old(self).wf(),
        ensures
            final(self).wf(),
            final(self).tokens() == old(self).tokens(),
            final(self).index == sp_condition(old(self).tokens(), old(self).index as int).1,
            match (r, sp_condition(old(self).tokens(), old(self).index as int).0) {
                (Ok(x), Ok(v)) => x@ == v,
                (Err(e), Err(v)) => e@ == v,
                _ => false,
            },
    {
        let field = self.expect_identifier("condition field")?.lexeme;
        let comparator = self.parse_comparator()?;
        let value = self.parse_operand()?;
        Ok(Condition { field, comparator, value })
    }

    fn parse_constraint(&mut self) -> (r: Result<Constraint, ParseError>)
        requires
            old(self).wf(),
        ensures
            final(self).wf(),
            final(self).tokens() == old(self).tokens(),
            final(self).index == sp_constraint(old(self).tokens(), old(self).index as int).1,
            match (r, sp_constraint(old(self).tokens(), old(self).index as int).0) {
                (Ok(x), Ok(v)) => x@ == v,
                (Err(e), Err(v)) => e@ == v,
                _ => false,
            },
    {
        let field = self.expect_identifier("constraint field")?.lexeme;
        if self.match_kind(TokenKind::KeywordFueraDe) {
            let from = self.expect_time("TIME")?.lexeme;
            let to = self.expect_time("TIME")?.lexeme;
            Ok(Constraint::OutsideRange { field, from, to })
        } else {
            let comparator = self.parse_comparator()?;
            let value = self.parse_operand()?;
            Ok(Constraint::Comparison { field, comparator, value })
        }
    }

    fn parse_operand(&mut self) -> (r: Result<Operand, ParseError>)
        requires
            old(self).wf(),
        ensures
            final(self).wf(),
            final(self).tokens() == old(self).tokens(),
            final(self).index == sp_operand(old(self).tokens(), old(self).index as int).1,
            match (r, sp_operand(old(self).tokens(), old(self).index as int).0) {
                (Ok(x), Ok(v)) => x@ == v,
                (Err(e), Err(v)) => e@ == v,
                _ => false,
            },
    {
        if self.check(TokenKind::Number) {
            let token = self.advance();
            if float_text(token.lexeme.as_str()) {
                Ok(Operand::Number(token.lexeme))
            } else {
                Err(
                    ParseError {
                        expected: String::from_str("number"),
                        found: token.lexeme,
                        line: token.line,
                    },
                )
            }
        } else if self.check(TokenKind::Identifier) {
            Ok(Operand::Field(self.advance().lexeme))
        } else {
            Err(self.error_expected("number or identifier"))
        }
    }

    fn parse_metadata_list(&mut self) -> (r: Result<Metadata, ParseError>)
        requires
            old(self).wf(),
        ensures
            final(self).wf(),
            final(self).tokens() == old(self).tokens(),
            final(self).index == sp_metadata(
                old(self).tokens(),
                old(self).index as int,
                None,
                None,
                None,
            ).1,
            match (r, sp_metadata(old(self).tokens(), old(self).index as int, None, None, None).0) {
                (Ok(x), Ok(v)) => x@ == v,
                (Err(e), Err(v)) => e@ == v,
                _ => false,
            },
    {
        let ghost ts = self.tokens();
        let ghost p0 = self.index as int;
        let mut unit: Option<String> = None;
        let mut severity: Option<Severity> = None;
        let mut norm: Option<String> = None;
        loop
            invariant
                self.wf(),
                self.tokens() == ts,
                ts == old(self).tokens(),
                p0 == old(self).index,
                sp_metadata(ts, p0, None, None, None) == sp_metadata(
                    ts,
                    self.index as int,
                    opt_str_view(unit),
                    severity,
                    opt_str_view(norm),
                ),
            ensures
                self.wf(),
                self.tokens() == ts,
                checks(ts, self.index as int, TokenKind::Eof) || checks(
                    ts,
                    self.index as int,
                    TokenKind::KeywordRestriccion,
                ),
                sp_metadata(ts, p0, None, None, None) == sp_metadata(
                    ts,
                    self.index as int,
                    opt_str_view(unit),
                    severity,
                    opt_str_view(norm),
                ),
            decreases ts.len() - self.index,
        {
            proof {
                self.lemma_wf_in_bounds();
            }
            if self.check(TokenKind::Eof) || self.check(TokenKind::KeywordRestriccion) {
                break;
            }
            if self.match_kind(TokenKind::KeywordUnidad) {
                unit = Some(self.expect_identifier("unit")?.lexeme);
            } else if self.match_kind(TokenKind::KeywordSeveridad) {
                let ident = self.expect_identifier("severity")?;
                severity = Some(self.parse_severity(ident)?);
            } else if self.match_kind(TokenKind::KeywordNorma) {
                norm = Some(self.expect_string("string")?.lexeme);
            } else {
                let token = self.advance();
                return Err(
                    ParseError {
                        expected: String::from_str("metadata or next rule"),
                        found: token.lexeme,
                        line: token.line,
                    },
                );
            }
        }
        let severity = match severity {
            Some(s) => s,
            None => Severity::Operacional,
        };
        Ok(Metadata { unit, severity, norm })
    }

    fn parse_context_kind(&self, token: Token) -> (r: Result<ContextKind, ParseError>)
        ensures
            match context_of(token.lexeme@) {
                Some(c) => r == Ok::<ContextKind, ParseError>(c),
                None => r is Err && r->Err_0@ == ParseErrorView {
                    expected: "valid context"@,
                    found: token.lexeme@,
                    line: token.line as int,
                },
            },
    {
        let w = token.lexeme.as_str();
        if str_eq(w, "piloto") {
            Ok(ContextKind::Piloto)
        } else if str_eq(w, "aeronave") {
            Ok(ContextKind::Aeronave)
        } else if str_eq(w, "vuelo") {
            Ok(ContextKind::Vuelo)
        } else if str_eq(w, "aeropuerto") {
            Ok(ContextKind::Aeropuerto)
        } else if str_eq(w, "tripulacion") {
            Ok(ContextKind::Tripulacion)
        } else {
            Err(
                ParseError {
                    expected: String::from_str("valid context"),
                    found: token.lexeme,
                    line: token.line,
                },
            )
        }
    }

    /// The severity that `token` names; an error on the token's line when
    /// it names none.
    fn parse_severity(&self, token: Token) -> (r: Result<Severity, ParseError>)
        ensures
            match severity_of(token.lexeme@) {
                Some(s) => r == Ok::<Severity, ParseError>(s),
                None => r is Err && r->Err_0@ == ParseErrorView {
                    expected: "valid severity"@,
                    found: token.lexeme@,
                    line: token.line as int,
                },
            },
            r is Ok <==> (token.lexeme@ == "critica"@ || token.lexeme@ == "regulatoria"@
                || token.lexeme@ == "operacional"@),
            forall|s: Severity|
                token.lexeme@ == #[trigger] severity_name(s) ==> r == Ok::<Severity, ParseError>(s),
    {
        proof {
            lemma_severity_words(token.lexeme@);
            assert forall|s: Severity| token.lexeme@ == #[trigger] severity_name(s) implies severity_of(
                token.lexeme@,
            ) == Some(s) by {
                lemma_severity_names_read_back(s);
            }
        }
        let w = token.lexeme.as_str();
        if str_eq(w, "critica") {
            Ok(Severity::Critica)
        } else if str_eq(w, "regulatoria") {
            Ok(Severity::Regulatoria)
        } else if str_eq(w, "operacional") {
            Ok(Severity::Operacional)
        } else {
            Err(
                ParseError {
                    expected: String::from_str("valid severity"),
                    found: token.lexeme,
                    line: token.line,
                },
            )
        }
    }

    fn parse_comparator(&mut self) -> (r: Result<Comparator, ParseError>)
        requires
            old(self).wf(),
        ensures
            final(self).wf(),
            final(self).tokens() == old(self).tokens(),
            final(self).index == sp_comparator(old(self).tokens(), old(self).index as int).1,
            match (r, sp_comparator(old(self).tokens(), old(self).index as int).0) {
                (Ok(x), Ok(v)) => x == v,
                (Err(e), Err(v)) => e@ == v,
                _ => false,
            },
    {
        let token = self.expect(TokenKind::Comparator, "comparator")?;
        let w = token.lexeme.as_str();
        if str_eq(w, ">=") {
            Ok(Comparator::Gte)
        } else if str_eq(w, "<=") {
            Ok(Comparator::Lte)
        } else if str_eq(w, ">") {
            Ok(Comparator::Gt)
        } else if str_eq(w, "<") {
            Ok(Comparator::Lt)
        } else if str_eq(w, "==") {
            Ok(Comparator::Eq)
        } else if str_eq(w, "!=") {
            Ok(Comparator::Neq)
        } else {
            Err(
                ParseError {
                    expected: String::from_str("comparator"),
                    found: token.lexeme,
                    line: token.line,
                },
            )
        }
    }

    fn expect(&mut self, kind: TokenKind, expected: &str) -> (r: Result<Token, ParseError>)
        requires
            old(self).wf(),
        ensures
            final(self).wf(),
            final(self).tokens() == old(self).tokens(),
            final(self).index == sp_expect(
                old(self).tokens(),
                old(self).index as int,
                kind,
                expected@,
            ).1,
            match (r, sp_expect(old(self).tokens(), old(self).index as int, kind, expected@).0) {
                (Ok(x), Ok(v)) => x@ == v,
                (Err(e), Err(v)) => e@ == v,
                _ => false,
            },
    {
        if self.check(kind) {
            Ok(self.advance())
        } else {
            Err(self.error_expected(expected))
        }
    }

    fn expect_identifier(&mut self, expected: &str) -> (r: Result<Token, ParseError>)
        requires
            old(self).wf(),
        ensures
            final(self).wf(),
            final(self).tokens() == old(self).tokens(),
            final(self).index == sp_expect(
                old(self).tokens(),
                old(self).index as int,
                TokenKind::Identifier,
                expected@,
            ).1,
            match (
                r,
                sp_expect(
                    old(self).tokens(),
                    old(self).index as int,
                    TokenKind::Identifier,
                    expected@,
                ).0,
            ) {
                (Ok(x), Ok(v)) => x@ == v,
                (Err(e), Err(v)) => e@ == v,
                _ => false,
            },
    {
        self.expect(TokenKind::Identifier, expected)
    }

    fn expect_time(&mut self, expected: &str) -> (r: Result<Token, ParseError>)
        requires
            old(self).wf(),
        ensures
            final(self).wf(),
            final(self).tokens() == old(self).tokens(),
            final(self).index == sp_expect(
                old(self).tokens(),
                old(self).index as int,
                TokenKind::Time,
                expected@,
            ).1,
            match (
                r,
                sp_expect(old(self).tokens(), old(self).index as int, TokenKind::Time, expected@).0,
            ) {
                (Ok(x), Ok(v)) => x@ == v,
                (Err(e), Err(v)) => e@ == v,
                _ => false,
            },
    {
        self.expect(TokenKind::Time, expected)
    }

    fn expect_string(&mut self, expected: &str) -> (r: Result<Token, ParseError>)
        requires
            old(self).wf(),
        ensures
            final(self).wf(),
            final(self).tokens() == old(self).tokens(),
            final(self).index == sp_expect(
                old(self).tokens(),
                old(self).index as int,
                TokenKind::String,
                expected@,
            ).1,
            match (
                r,
                sp_expect(old(self).tokens(), old(self).index as int, TokenKind::String, expected@).0,
            ) {
                (Ok(x), Ok(v)) => x@ == v,
                (Err(e), Err(v)) => e@ == v,
                _ => false,
            },
    {
        self.expect(TokenKind::String, expected)
    }

    fn match_kind(&mut self, kind: TokenKind) -> (r: bool)
        requires
            old(self).wf(),
        ensures
            final(self).wf(),
            final(self).tokens() == old(self).tokens(),
            r == checks(old(self).tokens(), old(self).index as int, kind),
            final(self).index == if r {
                adv(old(self).tokens(), old(self).index as int)
            } else {
                old(self).index as int
            },
    {
        if self.check(kind) {
            self.advance();
            true
        } else {
            false
        }
    }

    fn check(&self, kind: TokenKind) -> (r: bool)
        requires
            self.wf(),
        ensures
            r == checks(self.tokens(), self.index as int, kind),
    {
        proof {
            self.lemma_wf_in_bounds();
        }
        self.tokens[self.index].kind == kind
    }

    /// Consumes the current token (the end-of-input token stays current)
    /// and hands back a copy of it.
    fn advance(&mut self) -> (t: Token)
        requires
            old(self).wf(),
        ensures
            final(self).wf(),
            final(self).tokens() == old(self).tokens(),
            final(self).tokens@ == old(self).tokens@,
            old(self).index < old(self).tokens@.len(),
            t@ == old(self).tokens()[old(self).index as int],
            final(self).index == adv(old(self).tokens(), old(self).index as int),
    {
        proof {
            self.lemma_wf_in_bounds();
        }
        let t = self.peek();
        if !self.check(TokenKind::Eof) {
            proof {
                self.lemma_wf_in_bounds();
            }
            assert(self.tokens@[self.index as int].kind != TokenKind::Eof);
            let n = self.tokens.len();
            assert(self.index + 1 < n);
            self.index = self.index + 1;
        }
        t
    }

    /// A copy of the current token.
    fn peek(&self) -> (t: Token)
        requires
            self.wf(),
        ensures
            t@ == self.tokens()[self.index as int],
    {
        proof {
            self.lemma_wf_in_bounds();
        }
        let cur = &self.tokens[self.index];
        Token { kind: cur.kind, lexeme: cur.lexeme.clone(), line: cur.line }
    }

    fn error_expected(&self, expected: &str) -> (e: ParseError)
        requires
            self.wf(),
        ensures
            e@ == error_at(self.tokens(), self.index as int, expected@),
    {
        let token = self.peek();
        ParseError { expected: String::from_str(expected), found: token.lexeme, line: token.line }
    }
}

/// The characters of an optional string.
pub open spec fn opt_str_view(o: Option<String>) -> Option<Seq<char>> {
    match o {
        Some(s) => Some(s@),
        None => None,
    }
}

} // verus!
