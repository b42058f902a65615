use aero_compiler::ast::{
    Comparator, Constraint, ContextKind, Operand, RuleSet, Severity, Statement,
};
use aero_compiler::lexer::{Token, TokenKind, Tokenizer};
use aero_compiler::parser::{ParseError, Parser};

const RULES: &str = "-- restricciones.aero
-- Archivo de prueba completo para AeroSchedule DSL v0.1

RESTRICCION descanso_minimo_piloto:
  CONTEXTO piloto
  CUANDO vuelo.duracion > 6
  ENTONCES descanso_siguiente >= 10
  UNIDAD horas
  SEVERIDAD critica
  NORMA \"EASA ORO.FTL.235\"

RESTRICCION horas_mensuales_piloto:
  CONTEXTO piloto
  SIEMPRE horas_mes <= 100
  UNIDAD horas
  SEVERIDAD critica
  NORMA \"EASA ORO.FTL.210\"

RESTRICCION turnaround_minimo:
  CONTEXTO aeronave
  SIEMPRE turnaround >= 45
  UNIDAD minutos
  SEVERIDAD operacional
  NORMA \"IATA AHM\"

RESTRICCION curfew_aeropuerto:
  CONTEXTO vuelo
  SIEMPRE hora_llegada FUERA_DE 23:00 06:00
  SEVERIDAD regulatoria
  NORMA \"LOCAL\"
";

fn parse(text: &str) -> Result<RuleSet, ParseError> {
    let tokens = Tokenizer::new(text).tokenize().expect("tokenize");
    Parser::new(tokens).parse_rule_set()
}

fn number(text: &str) -> String {
    text.to_string()
}

#[test]
fn parses_reference_rules() {
    let rules = RULES;
    let tokens = Tokenizer::new(rules).tokenize().expect("tokenize");
    let mut parser = Parser::new(tokens);
    let rule_set = parser.parse_rule_set().expect("parse");
    assert_eq!(rule_set.rules.len(), 4);
    assert_eq!(rule_set.rules[0].name, "descanso_minimo_piloto");
}

#[test]
fn reference_rules_have_the_expected_shape() {
    let rule_set = parse(RULES).unwrap();
    let first = &rule_set.rules[0];
    assert_eq!(first.context, ContextKind::Piloto);
    match &first.statement {
        Statement::Conditional { condition, constraint } => {
            assert_eq!(condition.field, "vuelo.duracion");
            assert_eq!(condition.comparator, Comparator::Gt);
            assert_eq!(condition.value, Operand::Number(number("6")));
            assert_eq!(
                *constraint,
                Constraint::Comparison {
                    field: "descanso_siguiente".to_string(),
                    comparator: Comparator::Gte,
                    value: Operand::Number(number("10")),
                }
            );
        }
        other => panic!("unexpected statement {:?}", other),
    }
    assert_eq!(first.metadata.unit.as_deref(), Some("horas"));
    assert_eq!(first.metadata.severity, Severity::Critica);
    assert_eq!(first.metadata.norm.as_deref(), Some("EASA ORO.FTL.235"));
    let last = &rule_set.rules[3];
    assert_eq!(last.context, ContextKind::Vuelo);
    assert_eq!(
        last.statement,
        Statement::Always {
            constraint: Constraint::OutsideRange {
                field: "hora_llegada".to_string(),
                from: "23:00".to_string(),
                to: "06:00".to_string(),
            }
        }
    );
    assert_eq!(last.metadata.unit, None);
}

#[test]
fn severity_defaults_to_operacional_and_later_metadata_wins() {
    let rs = parse("RESTRICCION r: CONTEXTO tripulacion SIEMPRE a == b").unwrap();
    assert_eq!(rs.rules[0].metadata.severity, Severity::Operacional);
    assert_eq!(rs.rules[0].metadata.unit, None);
    assert_eq!(rs.rules[0].metadata.norm, None);
    let rs = parse("RESTRICCION r: CONTEXTO aeropuerto SIEMPRE a != 3 UNIDAD x UNIDAD y SEVERIDAD critica SEVERIDAD regulatoria").unwrap();
    assert_eq!(rs.rules[0].metadata.unit.as_deref(), Some("y"));
    assert_eq!(rs.rules[0].metadata.severity, Severity::Regulatoria);
    assert_eq!(rs.rules[0].context, ContextKind::Aeropuerto);
}

fn error(text: &str) -> (String, String, usize) {
    let e = parse(text).unwrap_err();
    (e.expected, e.found, e.line)
}

#[test]
fn syntax_errors_name_what_was_expected() {
    assert_eq!(error("CONTEXTO piloto"), ("RESTRICCION".to_string(), "CONTEXTO".to_string(), 1));
    assert_eq!(error("RESTRICCION r\nCONTEXTO"), (":".to_string(), "CONTEXTO".to_string(), 2));
    assert_eq!(error("RESTRICCION r:"), ("CONTEXTO".to_string(), "".to_string(), 1));
    assert_eq!(error("RESTRICCION r: CONTEXTO piloto x"), ("CUANDO or SIEMPRE".to_string(), "x".to_string(), 1));
    assert_eq!(error("RESTRICCION r: CONTEXTO piloto SIEMPRE a >= \"s\""), ("number or identifier".to_string(), "s".to_string(), 1));
    assert_eq!(error("RESTRICCION r: CONTEXTO piloto SIEMPRE a FUERA_DE 1 2"), ("TIME".to_string(), "1".to_string(), 1));
    assert_eq!(error("RESTRICCION r: CONTEXTO piloto CUANDO a > 1 SIEMPRE b > 2"), ("ENTONCES".to_string(), "SIEMPRE".to_string(), 1));
    assert_eq!(error("RESTRICCION r: CONTEXTO piloto SIEMPRE a > 1 x"), ("metadata or next rule".to_string(), "x".to_string(), 1));
    assert_eq!(error("RESTRICCION r: CONTEXTO piloto SIEMPRE a > 1 NORMA x"), ("string".to_string(), "x".to_string(), 1));
}

#[test]
fn invalid_context_and_severity() {
    assert_eq!(error("RESTRICCION r: CONTEXTO barco SIEMPRE a > 1"), ("valid context".to_string(), "barco".to_string(), 1));
    // an invalid severity is reported on its own line
    assert_eq!(
        error("RESTRICCION r: CONTEXTO piloto SIEMPRE a > 1 SEVERIDAD alta\n\nNORMA \"n\""),
        ("valid severity".to_string(), "alta".to_string(), 1)
    );
    assert_eq!(
        error("RESTRICCION r: CONTEXTO piloto SIEMPRE x > 1 SEVERIDAD alta\n\n"),
        ("valid severity".to_string(), "alta".to_string(), 1)
    );
}

#[test]
fn parse_error_text() {
    let e = parse("RESTRICCION r\nCONTEXTO").unwrap_err();
    assert_eq!(e.to_text(), "expected :, found CONTEXTO at line 2");
}

#[test]
fn number_operands_take_their_fraction() {
    let rs = parse("RESTRICCION r: CONTEXTO piloto SIEMPRE a > 5.25").unwrap();
    match &rs.rules[0].statement {
        Statement::Always { constraint: Constraint::Comparison { value, .. } } => {
            assert_eq!(*value, Operand::Number(number("5.25")));
        }
        other => panic!("unexpected statement {:?}", other),
    }
}

#[test]
fn a_number_token_must_write_a_number() {
    let t = |kind: TokenKind, lexeme: &str| Token { kind, lexeme: lexeme.to_string(), line: 4 };
    let tokens = |n: &str| {
        vec![
            t(TokenKind::KeywordRestriccion, "RESTRICCION"),
            t(TokenKind::Identifier, "r"),
            t(TokenKind::Colon, ":"),
            t(TokenKind::KeywordContexto, "CONTEXTO"),
            t(TokenKind::Identifier, "piloto"),
            t(TokenKind::KeywordSiempre, "SIEMPRE"),
            t(TokenKind::Identifier, "a"),
            t(TokenKind::Comparator, ">"),
            t(TokenKind::Number, n),
            t(TokenKind::Eof, ""),
        ]
    };
    let e = Parser::new(tokens("abc")).parse_rule_set().unwrap_err();
    assert_eq!((e.expected.as_str(), e.found.as_str(), e.line), ("number", "abc", 4));
    for ok in ["1e3", "-2.5E-1", "inf", "NaN", ".5", "5."] {
        let rs = Parser::new(tokens(ok)).parse_rule_set().unwrap();
        assert_eq!(rs.rules.len(), 1, "{ok}");
    }
}
