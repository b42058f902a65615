use aero_compiler::lexer::{TokenKind, Tokenizer};

#[test]
fn tokenizes_reference_rule_file() {
    let input = r#"
-- comentario
RESTRICCION descanso_minimo_piloto:
  CONTEXTO piloto
  CUANDO vuelo.duracion > 6
  ENTONCES descanso_siguiente >= 10
  UNIDAD horas
  SEVERIDAD critica
  NORMA "EASA ORO.FTL.235"
"#;
    let tokens = Tokenizer::new(input).tokenize().expect("tokenize");
    assert_eq!(tokens[0].kind, TokenKind::KeywordRestriccion);
    assert!(tokens.iter().any(|t| t.kind == TokenKind::KeywordFueraDe) == false);
    assert!(tokens.iter().any(|t| t.kind == TokenKind::Comparator));
    assert_eq!(tokens.last().expect("eof").kind, TokenKind::Eof);
}

fn kinds(input: &str) -> Vec<TokenKind> {
    Tokenizer::new(input).tokenize().unwrap().iter().map(|t| t.kind).collect()
}

#[test]
fn lexemes_kinds_and_lines() {
    let tokens = Tokenizer::new("RESTRICCION r_1:\n  SIEMPRE x FUERA_DE 23:00 06:00\n  NORMA \"A B\"")
        .tokenize()
        .unwrap();
    let got: Vec<(TokenKind, &str, usize)> =
        tokens.iter().map(|t| (t.kind, t.lexeme.as_str(), t.line)).collect();
    assert_eq!(
        got,
        vec![
            (TokenKind::KeywordRestriccion, "RESTRICCION", 1),
            (TokenKind::Identifier, "r_1", 1),
            (TokenKind::Colon, ":", 1),
            (TokenKind::KeywordSiempre, "SIEMPRE", 2),
            (TokenKind::Identifier, "x", 2),
            (TokenKind::KeywordFueraDe, "FUERA_DE", 2),
            (TokenKind::Time, "23:00", 2),
            (TokenKind::Time, "06:00", 2),
            (TokenKind::KeywordNorma, "NORMA", 3),
            (TokenKind::String, "A B", 3),
            (TokenKind::Eof, "", 3),
        ]
    );
}

#[test]
fn comparators_take_one_or_two_characters() {
    let tokens = Tokenizer::new(">= <= == != > <").tokenize().unwrap();
    let lexemes: Vec<&str> = tokens.iter().map(|t| t.lexeme.as_str()).collect();
    assert_eq!(lexemes, vec![">=", "<=", "==", "!=", ">", "<", ""]);
    assert!(tokens[..6].iter().all(|t| t.kind == TokenKind::Comparator));
    // no space between: ">==" is ">=" then a lone "=", which is no comparator
    let err = Tokenizer::new(">==").tokenize().unwrap_err();
    assert_eq!((err.msg.as_str(), err.line, err.column), ("Unrecognized character '='", 1, 3));
}

#[test]
fn lone_equals_or_bang_is_rejected() {
    let err = Tokenizer::new("x = 1").tokenize().unwrap_err();
    assert_eq!(err.msg, "Unrecognized character '='");
    assert_eq!((err.line, err.column), (1, 3));
    let err = Tokenizer::new("a
 !b").tokenize().unwrap_err();
    assert_eq!(err.msg, "Unrecognized character '!'");
    assert_eq!((err.line, err.column), (2, 2));
}

#[test]
fn numbers_times_and_words() {
    assert_eq!(
        kinds("6 7.5 12:30 a.b.c a_1 CUANDO cuando"),
        vec![
            TokenKind::Number,
            TokenKind::Number,
            TokenKind::Time,
            TokenKind::Identifier,
            TokenKind::Identifier,
            TokenKind::KeywordCuando,
            TokenKind::Identifier,
            TokenKind::Eof,
        ]
    );
    // a number ends where a letter starts
    let tokens = Tokenizer::new("10horas").tokenize().unwrap();
    assert_eq!(tokens[0].lexeme, "10");
    assert_eq!(tokens[1].lexeme, "horas");
}

#[test]
fn numbers_and_times_follow_their_patterns() {
    let got = |input: &str| -> Vec<(TokenKind, String)> {
        Tokenizer::new(input)
            .tokenize()
            .unwrap()
            .into_iter()
            .map(|t| (t.kind, t.lexeme))
            .collect()
    };
    // "1:5" is no time: the number 1, a colon, the number 5
    assert_eq!(
        got("1:5"),
        vec![
            (TokenKind::Number, "1".to_string()),
            (TokenKind::Colon, ":".to_string()),
            (TokenKind::Number, "5".to_string()),
            (TokenKind::Eof, String::new()),
        ]
    );
    // a time has exactly two digits on each side
    assert_eq!(
        got("123:45 23:001"),
        vec![
            (TokenKind::Number, "123".to_string()),
            (TokenKind::Colon, ":".to_string()),
            (TokenKind::Number, "45".to_string()),
            (TokenKind::Time, "23:00".to_string()),
            (TokenKind::Number, "1".to_string()),
            (TokenKind::Eof, String::new()),
        ]
    );
    // a point belongs to a number only when a digit follows it
    let err = Tokenizer::new("1.2.3").tokenize().unwrap_err();
    assert_eq!((err.msg.as_str(), err.column), ("Unrecognized character '.'", 4));
    let err = Tokenizer::new("5.").tokenize().unwrap_err();
    assert_eq!((err.msg.as_str(), err.column), ("Unrecognized character '.'", 2));
}

#[test]
fn identifier_starts_with_a_letter() {
    let err = Tokenizer::new("_x").tokenize().unwrap_err();
    assert_eq!(err.msg, "Unrecognized character '_'");
    assert_eq!((err.line, err.column), (1, 1));
}

#[test]
fn trailing_comment_adds_no_token() {
    let plain = Tokenizer::new("a > 1
").tokenize().unwrap();
    let commented = Tokenizer::new("a > 1
-- fin \"x").tokenize().unwrap();
    assert_eq!(plain, commented);
}

#[test]
fn comment_without_newline_and_eof_line() {
    let tokens = Tokenizer::new("a\n\n-- end").tokenize().unwrap();
    assert_eq!(tokens.len(), 2);
    assert_eq!(tokens[1].kind, TokenKind::Eof);
    assert_eq!(tokens[1].line, 3);
}

#[test]
fn unclosed_string_is_reported_where_input_ends() {
    let err = Tokenizer::new("x \"abc\nde").tokenize().unwrap_err();
    assert_eq!(err.msg, "Unclosed string");
    assert_eq!(err.line, 1);
    assert_eq!(err.column, 3);
}

#[test]
fn unrecognized_character_is_reported_at_its_position() {
    let err = Tokenizer::new("ab\n  @x").tokenize().unwrap_err();
    assert_eq!(err.msg, "Unrecognized character '@'");
    assert_eq!(err.line, 2);
    assert_eq!(err.column, 3);
    // a single dash is not a comment
    let err = Tokenizer::new("-5").tokenize().unwrap_err();
    assert_eq!(err.msg, "Unrecognized character '-'");
    assert_eq!((err.line, err.column), (1, 1));
}

#[test]
fn unicode_white_space_separates_tokens() {
    assert_eq!(
        kinds("a\u{a0}b\u{3000}c\tdef"),
        vec![TokenKind::Identifier, TokenKind::Identifier, TokenKind::Identifier, TokenKind::Identifier, TokenKind::Eof]
    );
}

#[test]
fn trailing_comment_keeps_errors() {
    let plain = Tokenizer::new("a @\n").tokenize().unwrap_err();
    let commented = Tokenizer::new("a @\n-- fin \"x").tokenize().unwrap_err();
    assert_eq!(plain, commented);
}
