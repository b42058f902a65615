use aero_compiler::ast::Severity;
use aero_compiler::render::{escape_json, render_json, render_text};
use aero_compiler::validator::{ValidationReport, Violation};

fn report() -> ValidationReport {
    ValidationReport {
        valid: false,
        violations: vec![
            Violation {
                rule_name: "r1".to_string(),
                entity_id: "P001".to_string(),
                entity_name: "RAMIREZ".to_string(),
                message: "m \"q\"".to_string(),
                severity: Severity::Critica,
                norm: Some("EASA".to_string()),
            },
            Violation {
                rule_name: "r2".to_string(),
                entity_id: "V002".to_string(),
                entity_name: "V002".to_string(),
                message: "n".to_string(),
                severity: Severity::Regulatoria,
                norm: None,
            },
        ],
    }
}

#[test]
fn text_report() {
    assert_eq!(
        render_text(&report()),
        "Resultado: INV\u{c1}LIDO\nViolaciones: 2\n[CRITICA] r1 - RAMIREZ (P001)\n  m \"q\"\n  Norma: EASA\n[REGULATORIA] r2 - V002 (V002)\n  n\n"
    );
    let empty = ValidationReport { valid: true, violations: vec![] };
    assert_eq!(render_text(&empty), "Resultado: V\u{c1}LIDO\nViolaciones: 0\n");
}

#[test]
fn json_report() {
    assert_eq!(
        render_json(&report()),
        "{\"valid\":false,\"violations\":[{\"rule_name\":\"r1\",\"entity_id\":\"P001\",\"entity_name\":\"RAMIREZ\",\"message\":\"m \\\"q\\\"\",\"severity\":\"critica\",\"norm\":\"EASA\"},{\"rule_name\":\"r2\",\"entity_id\":\"V002\",\"entity_name\":\"V002\",\"message\":\"n\",\"severity\":\"regulatoria\",\"norm\":null}]}\n"
    );
    let empty = ValidationReport { valid: true, violations: vec![] };
    assert_eq!(render_json(&empty), "{\"valid\":true,\"violations\":[]}\n");
}

#[test]
fn json_escaping_and_severity_names() {
    assert_eq!(escape_json("a\"b\"\\"), "a\\\"b\\\"\\\\");
    assert_eq!(escape_json("\\"), "\\\\");
    assert_eq!(escape_json("l1\nl2\r\t\u{8}\u{c}"), "l1\\nl2\\r\\t\\b\\f");
    assert_eq!(escape_json("\u{1}\u{1f}\u{7f}\u{e9}"), "\\u0001\\u001f\u{7f}\u{e9}");
    assert_eq!(Severity::Critica.as_str(), "critica");
    assert_eq!(Severity::Regulatoria.as_str(), "regulatoria");
    assert_eq!(Severity::Operacional.as_str(), "operacional");
}

#[test]
fn escaped_text_reads_back_as_json_string() {
    // the decoding rules of JSON strings, applied by hand to the escaped text
    let original = "q\"b\\s\n\r\t\u{8}\u{c}\u{1}\u{1f}é";
    let escaped = escape_json(original);
    let mut decoded = String::new();
    let mut chars = escaped.chars();
    while let Some(c) = chars.next() {
        if c != '\\' {
            decoded.push(c);
            continue;
        }
        match chars.next().unwrap() {
            'n' => decoded.push('\n'),
            'r' => decoded.push('\r'),
            't' => decoded.push('\t'),
            'b' => decoded.push('\u{8}'),
            'f' => decoded.push('\u{c}'),
            'u' => {
                let hex: String = (0..4).map(|_| chars.next().unwrap()).collect();
                decoded.push(char::from_u32(u32::from_str_radix(&hex, 16).unwrap()).unwrap());
            }
            other => decoded.push(other),
        }
    }
    assert_eq!(decoded, original);
}
