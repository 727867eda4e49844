use restui::diff::{diff_text, response_diff, ChangeKind};
use restui::paste::format_pasted;

#[test]
fn line_diff_of_two_bodies() {
    assert_eq!(response_diff("a\nb\n", "a\nc\n"), "  a\n- b\n+ c\n");
    assert_eq!(response_diff("same", "same"), "  same\n");
    assert_eq!(response_diff("", ""), "");
}

#[test]
fn diff_text_marks_lines() {
    let changes = vec![
        (ChangeKind::Equal, "x\n".to_string()),
        (ChangeKind::Insert, "y\n\n".to_string()),
        (ChangeKind::Delete, "z".to_string()),
    ];
    assert_eq!(diff_text(&changes), "  x\n+ y\n- z\n");
}

#[test]
fn pasted_json_is_pretty_printed() {
    assert_eq!(format_pasted("{\"a\":1}".to_string(), true), "{\n  \"a\": 1\n}");
    assert_eq!(format_pasted("not json".to_string(), true), "not json");
    assert_eq!(format_pasted("{\"a\":1}".to_string(), false), "{\"a\":1}");
}
