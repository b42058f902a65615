use aero_compiler::lexer::Tokenizer;
use aero_compiler::parser::Parser;
use aero_compiler::ast::{RuleSet, Severity};
use aero_compiler::validator::{
    number_literals,    NumberFacts, NumberRelation, ValidationReport, Validator, ValidatorError,
};


/// Facts about the numbers a validation compares, computed in floating point.
fn float_facts(pairs: Vec<(String, String)>, literals: Vec<String>) -> NumberFacts {
    let mut facts = NumberFacts::new();
    for (l, r) in pairs {
        let relation = match (l.parse::<f64>(), r.parse::<f64>()) {
            (Ok(a), Ok(b)) => Some(NumberRelation {
                gte: a >= b,
                lte: a <= b,
                gt: a > b,
                lt: a < b,
                eq: (a - b).abs() < f64::EPSILON,
                neq: (a - b).abs() >= f64::EPSILON,
            }),
            _ => None,
        };
        facts.add_pair(l, r, relation);
    }
    for lit in literals {
        if let Ok(v) = lit.parse::<f64>() {
            facts.add_shown(lit.clone(), format!("{:?}", v));
        }
    }
    facts
}

fn check(
    v: &Validator,
    rules: &RuleSet,
    only: Option<&str>,
    severity: Option<Severity>,
) -> Result<ValidationReport, ValidatorError> {
    let facts = float_facts(v.number_pairs(rules, only, severity), number_literals(rules));
    v.validate(rules, only, severity, &facts)
}

const RULES: &str = "-- restricciones.aero
-- Archivo de prueba completo para AeroSchedule DSL v0.1

RESTRICCION descanso_minimo_piloto:
  CONTEXTO piloto
  CUANDO vuelo.duracion > 6
  ENTONCES descanso_siguiente >= 10
  UNIDAD horas
  SEVERIDAD critica
  NORMA \"EASA ORO.FTL.235\"

RESTRICCION horas_mensuales_piloto:
  CONTEXTO piloto
  SIEMPRE horas_mes <= 100
  UNIDAD horas
  SEVERIDAD critica
  NORMA \"EASA ORO.FTL.210\"

RESTRICCION turnaround_minimo:
  CONTEXTO aeronave
  SIEMPRE turnaround >= 45
  UNIDAD minutos
  SEVERIDAD operacional
  NORMA \"IATA AHM\"

RESTRICCION curfew_aeropuerto:
  CONTEXTO vuelo
  SIEMPRE hora_llegada FUERA_DE 23:00 06:00
  SEVERIDAD regulatoria
  NORMA \"LOCAL\"
";

const PILOTOS: &str = "id,nombre,horas_mes,horas_90d,horas_12m,ultimo_vuelo_duracion,descanso_siguiente,certificaciones
P001,RAMIREZ,87,240,950,7.5,9,A320;B737
P002,TORRES,42,120,600,4.0,12,ATR72
";

const AERONAVES: &str = "id,matricula,tipo,horas_desde_mantenimiento,turnaround,ciclos
A001,HK-4567,A320,180,55,1240
A002,HK-3891,ATR72,320,45,890
";

const VUELOS: &str = "id,piloto_id,aeronave_id,origen,destino,hora_llegada,hora_salida,duracion,aeropuerto_curfew_inicio,aeropuerto_curfew_fin
V001,P001,A001,BOG,MDE,22:45,21:00,7.5,23:00,06:00
V002,P002,A002,BOG,CTG,23:15,22:30,0.75,23:00,06:00
";

#[test]
fn test_full_pipeline_reference_rules() {
    let rules = RULES;
    let tokens = Tokenizer::new(rules).tokenize().expect("Should tokenize");
    let mut parser = Parser::new(tokens);
    let rule_set = parser.parse_rule_set().expect("Should parse");

    let validator = Validator::new(Some(PILOTOS), Some(AERONAVES), Some(VUELOS))
        .expect("Should create validator");
    let report = check(&validator, &rule_set, None, None).expect("rules fit the data");

    // We expect exactly 2 violations based on current data
    assert!(!report.valid, "Report should be invalid");
    assert_eq!(
        report.violations.len(),
        2,
        "Should have exactly 2 violations"
    );

    // Check specific violations
    let pilot_violation = report
        .violations
        .iter()
        .any(|v| v.entity_id == "P001" && v.rule_name == "descanso_minimo_piloto");
    let curfew_violation = report
        .violations
        .iter()
        .any(|v| v.entity_id == "V002" && v.rule_name == "curfew_aeropuerto");

    assert!(
        pilot_violation,
        "Should detect P001 descanso_minimo_piloto violation"
    );
    assert!(
        curfew_violation,
        "Should detect V002 curfew_aeropuerto violation"
    );
}

#[test]
fn test_lexer_edge_cases() {
    let input = "-- only comments\n   \n-- more comments";
    let tokens = Tokenizer::new(input).tokenize().unwrap();
    // Should only have EOF
    assert_eq!(tokens.len(), 1);
    assert!(matches!(
        tokens[0].kind,
        aero_compiler::lexer::TokenKind::Eof
    ));
}

#[test]
fn test_parser_empty_input() {
    let tokens = Tokenizer::new("").tokenize().unwrap();
    let mut parser = Parser::new(tokens);
    let rule_set = parser.parse_rule_set().unwrap();
    assert!(rule_set.rules.is_empty());
}

#[test]
fn reference_violations_carry_rule_metadata_and_messages() {
    let tokens = Tokenizer::new(RULES).tokenize().unwrap();
    let rule_set = Parser::new(tokens).parse_rule_set().unwrap();
    let validator = Validator::new(Some(PILOTOS), Some(AERONAVES), Some(VUELOS)).unwrap();
    let report = check(&validator, &rule_set, None, None).expect("rules fit the data");
    let pilot = &report.violations[0];
    assert_eq!(pilot.rule_name, "descanso_minimo_piloto");
    assert_eq!(pilot.entity_id, "P001");
    assert_eq!(pilot.entity_name, "RAMIREZ");
    assert_eq!(pilot.severity, aero_compiler::ast::Severity::Critica);
    assert_eq!(pilot.norm.as_deref(), Some("EASA ORO.FTL.235"));
    assert_eq!(
        pilot.message,
        "vuelo.duracion=7.5 \u{2192} Comparison { field: \"descanso_siguiente\", comparator: Gte, value: Number(10.0) }"
    );
    let curfew = &report.violations[1];
    assert_eq!(curfew.entity_id, "V002");
    assert_eq!(curfew.entity_name, "V002");
    assert_eq!(curfew.severity, aero_compiler::ast::Severity::Regulatoria);
    assert_eq!(
        curfew.message,
        "hora_llegada=23:15 \u{2192} OutsideRange { field: \"hora_llegada\", from: \"23:00\", to: \"06:00\" }"
    );
}

#[test]
fn filters_by_rule_name_and_severity() {
    let tokens = Tokenizer::new(RULES).tokenize().unwrap();
    let rule_set = Parser::new(tokens).parse_rule_set().unwrap();
    let validator = Validator::new(Some(PILOTOS), Some(AERONAVES), Some(VUELOS)).unwrap();

    let only = check(&validator, &rule_set, Some("curfew_aeropuerto"), None).expect("rules fit the data");
    assert!(!only.valid);
    assert_eq!(only.violations.len(), 1);
    assert_eq!(only.violations[0].entity_id, "V002");

    let critical = check(&validator, &rule_set, None, Some(aero_compiler::ast::Severity::Critica)).expect("rules fit the data");
    assert_eq!(critical.violations.len(), 1);
    assert_eq!(critical.violations[0].rule_name, "descanso_minimo_piloto");

    let operational =
        check(&validator, &rule_set, None, Some(aero_compiler::ast::Severity::Operacional)).expect("rules fit the data");
    assert!(operational.valid);
    assert!(operational.violations.is_empty());

    let unknown = check(&validator, &rule_set, Some("no_such_rule"), None).expect("rules fit the data");
    assert!(unknown.valid);
}

#[test]
fn clean_data_is_valid() {
    let tokens = Tokenizer::new(RULES).tokenize().unwrap();
    let rule_set = Parser::new(tokens).parse_rule_set().unwrap();
    let vuelos = "id,piloto_id,hora_llegada,duracion\nV001,P001,22:45,5\nV002,P002,21:15,0.75\n";
    let validator = Validator::new(Some(PILOTOS), Some(AERONAVES), Some(vuelos)).unwrap();
    let report = check(&validator, &rule_set, None, None).expect("rules fit the data");
    assert!(report.valid);
    assert_eq!(report.violations.len(), 0);
}
