use aero_compiler::ast::Severity;
use aero_compiler::lexer::Tokenizer;
use aero_compiler::parser::Parser;
use aero_compiler::validator::data_loader::{load_csv, record_to_row};
use aero_compiler::ast::RuleSet;
use aero_compiler::validator::{
    number_literals,    load_data, NumberFacts, NumberRelation, Row, ValidationReport, Validator, ValidatorError,
    ValidatorErrorKind,
};


/// Facts about the numbers a validation compares, computed in floating point.
fn float_facts(pairs: Vec<(String, String)>, literals: Vec<String>) -> NumberFacts {
    let mut facts = NumberFacts::new();
    for (l, r) in pairs {
        let relation = match (l.parse::<f64>(), r.parse::<f64>()) {
            (Ok(a), Ok(b)) => Some(NumberRelation {
                gte: a >= b,
                lte: a <= b,
                gt: a > b,
                lt: a < b,
                eq: (a - b).abs() < f64::EPSILON,
                neq: (a - b).abs() >= f64::EPSILON,
            }),
            _ => None,
        };
        facts.add_pair(l, r, relation);
    }
    for lit in literals {
        if let Ok(v) = lit.parse::<f64>() {
            facts.add_shown(lit.clone(), format!("{:?}", v));
        }
    }
    facts
}

fn check(
    v: &Validator,
    rules: &RuleSet,
    only: Option<&str>,
    severity: Option<Severity>,
) -> Result<ValidationReport, ValidatorError> {
    let facts = float_facts(v.number_pairs(rules, only, severity), number_literals(rules));
    v.validate(rules, only, severity, &facts)
}

const RULES: &str = "-- restricciones.aero
RESTRICCION descanso_minimo_piloto:
  CONTEXTO piloto
  CUANDO vuelo.duracion > 6
  ENTONCES descanso_siguiente >= 10
  UNIDAD horas
  SEVERIDAD critica
  NORMA \"EASA ORO.FTL.235\"

RESTRICCION horas_mensuales_piloto:
  CONTEXTO piloto
  SIEMPRE horas_mes <= 100
  UNIDAD horas
  SEVERIDAD critica
  NORMA \"EASA ORO.FTL.210\"

RESTRICCION turnaround_minimo:
  CONTEXTO aeronave
  SIEMPRE turnaround >= 45
  UNIDAD minutos
  SEVERIDAD operacional
  NORMA \"IATA AHM\"

RESTRICCION curfew_aeropuerto:
  CONTEXTO vuelo
  SIEMPRE hora_llegada FUERA_DE 23:00 06:00
  SEVERIDAD regulatoria
  NORMA \"LOCAL\"
";

const PILOTOS: &str = "id,nombre,horas_mes,horas_90d,horas_12m,ultimo_vuelo_duracion,descanso_siguiente,certificaciones
P001,RAMIREZ,87,240,950,7.5,9,A320;B737
P002,TORRES,42,120,600,4.0,12,ATR72
";

const AERONAVES: &str = "id,matricula,tipo,horas_desde_mantenimiento,turnaround,ciclos
A001,HK-4567,A320,180,55,1240
A002,HK-3891,ATR72,320,45,890
";

const VUELOS: &str = "id,piloto_id,aeronave_id,origen,destino,hora_llegada,hora_salida,duracion,aeropuerto_curfew_inicio,aeropuerto_curfew_fin
V001,P001,A001,BOG,MDE,22:45,21:00,7.5,23:00,06:00
V002,P002,A002,BOG,CTG,23:15,22:30,0.75,23:00,06:00
";

fn rules(text: &str) -> aero_compiler::ast::RuleSet {
    let tokens = Tokenizer::new(text).tokenize().expect("tokenize");
    Parser::new(tokens).parse_rule_set().expect("parse")
}

#[test]
fn detects_two_reference_violations() {
    let rule_set = rules(RULES);
    let validator = Validator::new(Some(PILOTOS), Some(AERONAVES), Some(VUELOS)).expect("validator");
    let report = check(&validator, &rule_set, None, None).expect("rules fit the data");
    assert!(!report.valid);
    assert_eq!(report.violations.len(), 2);
}

#[test]
fn csv_rows_are_read_by_header() {
    let rows = load_csv("id,nombre\nP001,RAMIREZ\n\"P,2\",\"TOR\"\"RES\"\n").unwrap();
    assert_eq!(rows.len(), 2);
    assert_eq!(rows[0].get("id").map(|s| s.as_str()), Some("P001"));
    assert_eq!(rows[0].get("nombre").map(|s| s.as_str()), Some("RAMIREZ"));
    assert_eq!(rows[1].get("id").map(|s| s.as_str()), Some("P,2"));
    assert_eq!(rows[1].get("nombre").map(|s| s.as_str()), Some("TOR\"RES"));
    assert_eq!(rows[1].get("x"), None);
    assert!(load_csv("").unwrap().is_empty());
    assert!(load_csv("a,b\n").unwrap().is_empty());
}

#[test]
fn csv_errors_are_reported() {
    let err = load_csv("a,b\n1,2,3\n").unwrap_err();
    assert!(err.contains("found record with 3 fields, but the previous record has 2 fields"), "{err}");
    let err = load_data(Some("a\n1\n"), Some("x,y\n1\n"), Some("p,q\n1,2,3\n")).unwrap_err();
    assert!(err.contains("found record with 1 fields"), "{err}");
    assert!(Validator::new(None, Some("a,b\n1\n"), None).is_err());
}

#[test]
fn missing_tables_are_empty() {
    let data = load_data(None, None, None).unwrap();
    assert!(data.pilotos.is_empty() && data.aeronaves.is_empty() && data.vuelos.is_empty());
    let validator = Validator::new(None, None, None).unwrap();
    let report = check(&validator, &rules(RULES), None, None).expect("rules fit the data");
    assert!(report.valid);
}

#[test]
fn later_duplicate_columns_win() {
    let headers = vec!["id".to_string(), "x".to_string(), "x".to_string()];
    let record = vec!["1".to_string(), "a".to_string(), "b".to_string()];
    let row = record_to_row(&headers, &record);
    assert_eq!(row.get("x").map(|s| s.as_str()), Some("b"));
    let mut row = Row::new();
    row.insert("k".to_string(), "v1".to_string());
    row.insert("k".to_string(), "v2".to_string());
    assert_eq!(row.get("k").map(|s| s.as_str()), Some("v2"));
}

#[test]
fn missing_columns_and_non_numbers_fail_comparisons() {
    let rule_set = rules("RESTRICCION r: CONTEXTO aeronave SIEMPRE turnaround >= 45 SEVERIDAD critica");
    let aeronaves = "id,matricula,turnaround\nA1,M1,x\nA2,M2,50\nA3,M3,\n";
    let validator = Validator::new(None, Some(aeronaves), None).unwrap();
    let report = check(&validator, &rule_set, None, None).expect("rules fit the data");
    let ids: Vec<&str> = report.violations.iter().map(|v| v.entity_id.as_str()).collect();
    assert_eq!(ids, vec!["A1", "A3"]);
    assert_eq!(report.violations[0].entity_name, "M1");
    assert_eq!(report.violations[0].severity, Severity::Critica);
    assert_eq!(report.violations[0].norm, None);
}

#[test]
fn a_missing_column_is_a_validator_error() {
    let rule_set = rules("RESTRICCION r: CONTEXTO aeronave SIEMPRE turnaround >= 45 SEVERIDAD critica");
    let no_column = Validator::new(None, Some("id,matricula\nA1,M1\nA2,M2\n"), None).unwrap();
    let err = check(&no_column, &rule_set, None, None).unwrap_err();
    assert_eq!(err.rule_name, "r");
    assert_eq!(err.entity_id, "A1");
    assert_eq!(err.field, "turnaround");
    assert_eq!(err.kind, ValidatorErrorKind::MissingField);
    // a filtered-out rule is not checked
    assert!(check(&no_column, &rule_set, Some("other"), None).unwrap().valid);
    // the column of a field operand is checked too
    let rule_set = rules("RESTRICCION r: CONTEXTO aeronave SIEMPRE turnaround >= limite");
    let v = Validator::new(None, Some("id,matricula,turnaround\nA1,M1,50\n"), None).unwrap();
    let err = check(&v, &rule_set, None, None).unwrap_err();
    assert_eq!((err.field.as_str(), err.kind), ("limite", ValidatorErrorKind::MissingField));
    // a flight field is checked on every flight of the entity
    let rule_set = rules("RESTRICCION r: CONTEXTO piloto CUANDO vuelo.duracion > 6 ENTONCES d >= 1");
    let v = Validator::new(Some("id,nombre,d\nP1,A,1\n"), None, Some("id,piloto_id\nV1,P1\n")).unwrap();
    let err = check(&v, &rule_set, None, None).unwrap_err();
    assert_eq!((err.field.as_str(), err.kind), ("duracion", ValidatorErrorKind::MissingField));
}

#[test]
fn comparing_a_time_with_a_number_is_a_validator_error() {
    let vuelos = "id,hora,duracion\nV1,23:15,7.5\n";
    let v = Validator::new(None, None, Some(vuelos)).unwrap();
    let err = check(&v, &rules("RESTRICCION r: CONTEXTO vuelo SIEMPRE hora > 5"), None, None).unwrap_err();
    assert_eq!((err.entity_id.as_str(), err.field.as_str(), err.kind), ("V1", "hora", ValidatorErrorKind::IncompatibleTypes));
    let err = check(&v, &rules("RESTRICCION r: CONTEXTO vuelo SIEMPRE duracion FUERA_DE 23:00 06:00"), None, None)
        .unwrap_err();
    assert_eq!((err.field.as_str(), err.kind), ("duracion", ValidatorErrorKind::IncompatibleTypes));
    let err = check(&v, &rules("RESTRICCION r: CONTEXTO vuelo SIEMPRE hora == duracion"), None, None).unwrap_err();
    assert_eq!((err.field.as_str(), err.kind), ("hora", ValidatorErrorKind::IncompatibleTypes));
}

#[test]
fn missing_files_are_listed() {
    let data = load_data(None, Some("id\nA\n"), None).unwrap();
    assert_eq!(data.missing, vec!["pilotos.csv".to_string(), "vuelos.csv".to_string()]);
    let v = Validator::new(Some("id\n"), Some("id\n"), Some("id\n")).unwrap();
    assert!(v.missing_tables().is_empty());
}

#[test]
fn field_operands_compare_two_columns() {
    let rule_set = rules("RESTRICCION r: CONTEXTO tripulacion SIEMPRE horas_mes <= limite");
    let pilotos = "id,nombre,horas_mes,limite\nP1,A,90,100\nP2,B,120,100\nP3,C,5,n/a\n";
    let validator = Validator::new(Some(pilotos), None, Some("id,piloto_id,duracion\nV1,P2,9\n")).unwrap();
    let report = check(&validator, &rule_set, None, None).expect("rules fit the data");
    let ids: Vec<&str> = report.violations.iter().map(|v| v.entity_id.as_str()).collect();
    assert_eq!(ids, vec!["P2", "P3"]);
    assert_eq!(
        report.violations[0].message,
        "horas_mes=120 \u{2192} Comparison { field: \"horas_mes\", comparator: Lte, value: Field(\"limite\") }"
    );
}

#[test]
fn conditions_on_flights_use_any_flight() {
    let rule_set = rules(
        "RESTRICCION r: CONTEXTO piloto CUANDO vuelo.duracion > 6 ENTONCES descanso >= 10",
    );
    let pilotos = "id,nombre,descanso\nP1,A,9\nP2,B,12\nP3,C,1\n";
    let vuelos = "id,piloto_id,duracion\nV1,P1,2\nV2,P1,8\nV3,P2,9\nV4,P3,1\n";
    let validator = Validator::new(Some(pilotos), None, Some(vuelos)).unwrap();
    let report = check(&validator, &rule_set, None, None).expect("rules fit the data");
    assert_eq!(report.violations.len(), 1);
    assert_eq!(report.violations[0].entity_id, "P1");
    // the message shows the value of the first flight that has the column
    assert!(report.violations[0].message.starts_with("vuelo.duracion=2 \u{2192} "));
    // an aircraft has no flights, so a flight condition never holds there
    let rule_set = rules("RESTRICCION r: CONTEXTO aeronave CUANDO vuelo.duracion > 0 ENTONCES x > 1");
    let validator = Validator::new(None, Some("id,matricula,x\nA,M,0\n"), Some(vuelos)).unwrap();
    assert!(check(&validator, &rule_set, None, None).expect("rules fit the data").valid);
}

#[test]
fn time_ranges_need_parsable_times() {
    let rule_set = rules("RESTRICCION r: CONTEXTO vuelo SIEMPRE hora FUERA_DE 09:00 17:00");
    let vuelos = "id,hora\nV1,08:59\nV2,12:00\nV3,tarde\nV4,17:00\n";
    let validator = Validator::new(None, None, Some(vuelos)).unwrap();
    let report = check(&validator, &rule_set, None, None).expect("rules fit the data");
    let ids: Vec<&str> = report.violations.iter().map(|v| v.entity_id.as_str()).collect();
    assert_eq!(ids, vec!["V2", "V3", "V4"]);
}

#[test]
fn numbers_compare_as_floating_point() {
    let rule_set = rules("RESTRICCION r: CONTEXTO aeronave SIEMPRE x == 0.3");
    let data = "id,matricula,x\nA1,M1,0.30000000000000004\nA2,M2,0.31\n";
    let v = Validator::new(None, Some(data), None).unwrap();
    let report = check(&v, &rule_set, None, None).unwrap();
    let ids: Vec<&str> = report.violations.iter().map(|v| v.entity_id.as_str()).collect();
    assert_eq!(ids, vec!["A2"]);

    let rule_set = rules("RESTRICCION r: CONTEXTO aeronave SIEMPRE x > 999");
    let data = "id,matricula,x\nA1,M1,1e3\nA2,M2,inf\nA3,M3,nan\nA4,M4,abc\n";
    let v = Validator::new(None, Some(data), None).unwrap();
    let report = check(&v, &rule_set, None, None).unwrap();
    let ids: Vec<&str> = report.violations.iter().map(|v| v.entity_id.as_str()).collect();
    assert_eq!(ids, vec!["A3", "A4"]);
}

#[test]
fn rule_numbers_are_shown_as_floats() {
    let rule_set = rules("RESTRICCION r: CONTEXTO aeronave SIEMPRE x <= 9999999999999999");
    let v = Validator::new(None, Some("id,matricula,x\nA1,M1,2e16\n"), None).unwrap();
    let report = check(&v, &rule_set, None, None).unwrap();
    assert_eq!(
        report.violations[0].message,
        "x=2e16 \u{2192} Comparison { field: \"x\", comparator: Lte, value: Number(1e16) }"
    );
    assert_eq!(number_literals(&rule_set), vec!["9999999999999999".to_string()]);
    assert_eq!(
        v.number_pairs(&rule_set, None, None),
        vec![("2e16".to_string(), "9999999999999999".to_string())]
    );
}
