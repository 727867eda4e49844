use restui::highlight::{classify_json_line, parses_as_float, token_kind, value_kind, value_token, JsonLine, TokenKind};

#[test]
fn float_tokens() {
    for ok in ["1", "-2.5", "+.5", "3.", "1e10", "2.5E-3", "inf", "-Infinity", "NaN"] {
        assert!(parses_as_float(ok), "{}", ok);
    }
    for bad in ["", ".", "1e", "e5", "1.2.3", "abc", " 1", "1_0", "--1", "0x10"] {
        assert!(!parses_as_float(bad), "{}", bad);
    }
}

#[test]
fn value_tokens_and_kinds() {
    assert_eq!(value_token("  true,, "), "true");
    assert_eq!(value_kind(" true,"), TokenKind::Bool);
    assert_eq!(value_kind("null"), TokenKind::Null);
    assert_eq!(value_kind(" \"x\","), TokenKind::Str);
    assert_eq!(value_kind(" 12.5,"), TokenKind::Number);
    assert_eq!(value_kind(" word"), TokenKind::Plain);
    assert_eq!(token_kind("false", false), TokenKind::Bool);
    assert_eq!(token_kind("7", false), TokenKind::Plain);
}

#[test]
fn json_lines() {
    match classify_json_line("  \"id\": 3,") {
        JsonLine::KeyValue { key, value } => {
            assert_eq!(key, "  \"id\"");
            assert_eq!(value, " 3,");
        }
        other => panic!("unexpected {:?}", other),
    }
    assert!(matches!(classify_json_line("  {"), JsonLine::Bracket));
    assert!(matches!(classify_json_line("  \"items\": ["), JsonLine::KeyValue { .. }));
    assert!(matches!(classify_json_line("],"), JsonLine::Value));
    assert!(matches!(classify_json_line("  []"), JsonLine::Bracket));
    assert!(matches!(classify_json_line("  1,"), JsonLine::Value));
}
