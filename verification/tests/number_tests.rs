use aero_compiler::ast::decimal::float_text;
use aero_compiler::ast::{Comparator, Decimal};
use aero_compiler::validator::{
    compare_fields, is_in_range, parse_time_minutes, NumberFacts, NumberRelation,
};

#[test]
fn decimal_syntax() {
    for ok in ["0", "7", "7.5", "+3", "-0", ".5", "5.", "007.50", "-12.25"] {
        assert!(Decimal::parse(ok).is_some(), "{ok}");
    }
    for bad in ["", ".", "-", "+", "1.2.3", "1e5", "abc", " 1", "1 ", "--1", "inf", "NaN"] {
        assert!(Decimal::parse(bad).is_none(), "{bad}");
    }
}

#[test]
fn number_facts_are_read_by_pair() {
    let rel = |gt: bool| NumberRelation { gte: gt, lte: !gt, gt, lt: !gt, eq: false, neq: true };
    let mut facts = NumberFacts::new();
    facts.add_pair("10".to_string(), "9.5".to_string(), Some(rel(true)));
    facts.add_pair("10".to_string(), "x".to_string(), None);
    assert_eq!(facts.pair("10", "9.5"), Some(Some(rel(true))));
    assert_eq!(facts.pair("9.5", "10"), None);
    assert_eq!(facts.pair("10", "x"), Some(None));
    // a later fact for the same pair wins
    facts.add_pair("10".to_string(), "9.5".to_string(), Some(rel(false)));
    assert_eq!(facts.pair("10", "9.5"), Some(Some(rel(false))));
    facts.add_shown("10".to_string(), "10.0".to_string());
    assert_eq!(facts.shown("10"), "10.0");
    assert_eq!(facts.shown("7"), "7");
}

#[test]
fn field_comparisons_fall_back_to_text() {
    let mut facts = NumberFacts::new();
    let ten_vs_nine = NumberRelation { gte: true, lte: false, gt: true, lt: false, eq: false, neq: true };
    let ten_vs_ten = NumberRelation { gte: true, lte: true, gt: false, lt: false, eq: true, neq: false };
    facts.add_pair("10".to_string(), "9.5".to_string(), Some(ten_vs_nine));
    facts.add_pair("10".to_string(), "10.0".to_string(), Some(ten_vs_ten));
    facts.add_pair("10".to_string(), "x".to_string(), None);
    assert!(compare_fields(&facts, "10", "9.5", Comparator::Gt));
    assert!(!compare_fields(&facts, "10", "9.5", Comparator::Lte));
    assert!(compare_fields(&facts, "10", "10.0", Comparator::Eq));
    assert!(compare_fields(&facts, "A320", "A320", Comparator::Eq));
    assert!(compare_fields(&facts, "A320", "B737", Comparator::Neq));
    assert!(!compare_fields(&facts, "A320", "B737", Comparator::Lt));
    assert!(!compare_fields(&facts, "10", "x", Comparator::Gt));
    assert!(!compare_fields(&facts, "10", "10.0x", Comparator::Eq));
}

#[test]
fn times_of_day() {
    assert_eq!(parse_time_minutes("23:00"), Some(1380));
    assert_eq!(parse_time_minutes("06:00"), Some(360));
    assert_eq!(parse_time_minutes("+2:05"), Some(125));
    assert_eq!(parse_time_minutes("-1:30"), Some(-30));
    assert_eq!(parse_time_minutes("25:99"), Some(1599));
    assert_eq!(parse_time_minutes("1:2:3"), None);
    assert_eq!(parse_time_minutes("1230"), None);
    assert_eq!(parse_time_minutes(":30"), None);
    assert_eq!(parse_time_minutes("12:"), None);
    assert_eq!(parse_time_minutes("2147483648:0"), None);
    assert_eq!(parse_time_minutes("-2147483648:0"), Some(0));
    assert_eq!(parse_time_minutes("35791395:0"), Some(35791395i32.wrapping_mul(60)));
}

#[test]
fn ranges_wrap_past_midnight() {
    assert!(is_in_range(1395, 1380, 360));
    assert!(is_in_range(100, 1380, 360));
    assert!(!is_in_range(1365, 1380, 360));
    assert!(is_in_range(600, 540, 1020));
    assert!(!is_in_range(1100, 540, 1020));
    assert!(is_in_range(540, 540, 540));
}

#[test]
fn float_syntax() {
    for ok in ["0", "7.5", "+3", "-0", ".5", "5.", "1e5", "1E+5", "2.5e-3", "inf", "-Infinity", "NaN", "nan"] {
        assert!(float_text(ok), "{ok}");
        assert!(ok.parse::<f64>().is_ok(), "{ok}");
    }
    for bad in ["", ".", "-", "e5", "1e", "1e+", "+-1", "1.2.3", "infin", "abc", " 1", "1 ", "1e5e3"] {
        assert!(!float_text(bad), "{bad}");
        assert!(bad.parse::<f64>().is_err(), "{bad}");
    }
}
