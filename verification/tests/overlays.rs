use restui::action::Overlay;
use restui::overlay::{parse_ttl, EnvEdit, OverlayLists, OverlayState, TtlInput};

fn lists() -> OverlayLists {
    OverlayLists {
        environments: 3,
        collections: 2,
        themes: 4,
        history: 0,
        response_history: 5,
        active_env_vars: Some(2),
    }
}

fn editor(selected: usize, editing_key: bool, key: &str, value: &str, cursor: usize) -> Overlay {
    Overlay::EnvironmentEditor {
        selected,
        editing_key,
        new_key: key.to_string(),
        new_value: value.to_string(),
        cursor,
    }
}

#[test]
fn opening_the_environment_selector_selects_the_active_one() {
    let mut s = OverlayState::new();
    s.open(Overlay::EnvironmentSelector, Some(2));
    assert_eq!(s.env_selected, Some(2));
    s.down(lists());
    assert_eq!(s.env_selected, Some(2));
    s.up();
    assert_eq!(s.env_selected, Some(1));
    s.open(Overlay::EnvironmentSelector, None);
    assert_eq!(s.env_selected, Some(0));
}

#[test]
fn list_selection_stops_at_both_ends() {
    let mut s = OverlayState::new();
    s.open(Overlay::ThemeSelector { selected: 0 }, None);
    s.up();
    assert!(matches!(s.overlay, Some(Overlay::ThemeSelector { selected: 0 })));
    for _ in 0..10 {
        s.down(lists());
    }
    assert!(matches!(s.overlay, Some(Overlay::ThemeSelector { selected: 3 })));
    s.open(Overlay::History { selected: 0 }, None);
    s.down(lists());
    assert!(matches!(s.overlay, Some(Overlay::History { selected: 0 })));
}

#[test]
fn help_scrolls() {
    let mut s = OverlayState::new();
    s.open(Overlay::Help, None);
    s.down(lists());
    s.down(lists());
    assert_eq!(s.help_scroll, 2);
    s.up();
    assert_eq!(s.help_scroll, 1);
    s.open(Overlay::Help, None);
    assert_eq!(s.help_scroll, 0);
}

#[test]
fn typing_into_dialogs() {
    let mut s = OverlayState::new();
    s.open(Overlay::NewCollection { name: "ap".to_string() }, None);
    s.input('i');
    s.input('x');
    s.backspace();
    assert!(matches!(&s.overlay, Some(Overlay::NewCollection { name }) if name == "api"));
    s.open(Overlay::SetCacheTTL { input: String::new() }, None);
    s.input('4');
    s.input('a');
    s.input('2');
    assert!(matches!(&s.overlay, Some(Overlay::SetCacheTTL { input }) if input == "42"));
}

#[test]
fn closing_an_editing_environment_editor_only_cancels_the_edit() {
    let mut s = OverlayState::new();
    s.open(editor(1, true, "ke", "", 1), None);
    s.close();
    assert!(matches!(&s.overlay, Some(Overlay::EnvironmentEditor { selected: 1, editing_key: false, new_key, new_value, cursor: 0 }) if new_key.is_empty() && new_value.is_empty()));
    s.close();
    assert!(s.overlay.is_none());
}

#[test]
fn cache_ttl_input() {
    assert_eq!(parse_ttl("30"), TtlInput::Seconds(30));
    assert_eq!(parse_ttl("+7"), TtlInput::Seconds(7));
    assert_eq!(parse_ttl("0"), TtlInput::Zero);
    assert_eq!(parse_ttl(""), TtlInput::Invalid);
    assert_eq!(parse_ttl("+"), TtlInput::Invalid);
    assert_eq!(parse_ttl("-1"), TtlInput::Invalid);
    assert_eq!(parse_ttl("1x"), TtlInput::Invalid);
    assert_eq!(parse_ttl("18446744073709551615"), TtlInput::Seconds(u64::MAX));
    assert_eq!(parse_ttl("18446744073709551616"), TtlInput::Invalid);
}

#[test]
fn adding_a_variable_in_two_steps() {
    let mut vars = vec![("a".to_string(), "1".to_string())];
    let mut s = OverlayState::new();
    s.open(editor(0, false, "", "", 0), None);
    s.input('a');
    s.input('b');
    let r = s.confirm_env_editor(&mut vars, true);
    assert!(matches!(r, EnvEdit::KeyEntered));
    s.input('2');
    let r = s.confirm_env_editor(&mut vars, true);
    assert!(matches!(r, EnvEdit::Added { ref key, ref value } if key == "b" && value == "2"));
    assert_eq!(vars, vec![("a".to_string(), "1".to_string()), ("b".to_string(), "2".to_string())]);
    assert!(s.overlay.is_none());
}

#[test]
fn editing_and_deleting_variables() {
    let mut vars = vec![("a".to_string(), "1".to_string()), ("b".to_string(), "2".to_string())];
    let mut s = OverlayState::new();
    s.open(editor(1, false, "", "", 0), None);
    let r = s.confirm_env_editor(&mut vars, true);
    assert!(matches!(r, EnvEdit::EditStarted));
    assert!(matches!(&s.overlay, Some(Overlay::EnvironmentEditor { new_value, cursor: 2, .. }) if new_value == "2"));
    s.backspace();
    s.input('9');
    let r = s.confirm_env_editor(&mut vars, true);
    assert!(matches!(r, EnvEdit::Updated { ref key } if key == "b"));
    assert_eq!(vars[1], ("b".to_string(), "9".to_string()));
    s.open(editor(1, false, "", "", 0), None);
    let gone = s.delete_env_var(&mut vars, true);
    assert_eq!(gone, Some("b".to_string()));
    assert_eq!(vars, vec![("a".to_string(), "1".to_string())]);
    assert!(matches!(s.overlay, Some(Overlay::EnvironmentEditor { selected: 0, .. })));
}

#[test]
fn existing_key_keeps_its_place() {
    let mut vars = vec![("a".to_string(), "1".to_string()), ("b".to_string(), "2".to_string())];
    let mut s = OverlayState::new();
    s.open(editor(0, false, "a", "5", 1), None);
    let _ = s.confirm_env_editor(&mut vars, true);
    assert_eq!(vars, vec![("a".to_string(), "5".to_string()), ("b".to_string(), "2".to_string())]);
}

#[test]
fn no_active_environment_changes_nothing() {
    let mut vars = Vec::new();
    let mut s = OverlayState::new();
    s.open(editor(0, true, "k", "", 1), None);
    assert!(matches!(s.confirm_env_editor(&mut vars, false), EnvEdit::Unchanged));
    assert!(s.overlay.is_none());
}
