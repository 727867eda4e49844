use restui::action::{Action, Overlay, Panel};
use restui::body_edit::TextBuffer;
use restui::cache::ResponseCache;
use restui::chain::{
    chain_decision, check_dependency_status, invalid_reference_message, path_not_found_message,
    resolving_status, ChainDecision,
};
use restui::clip_ops::{clipboard_op, ClipOp, ClipStatus};
use restui::collections::TreeCollection;
use restui::field_edit::LineField;
use restui::history::UndoHistory;
use restui::http_client::{percent_encode, shell_escape};
use restui::json_fields::{navigate_type, split_path, JsonType};
use restui::mode::{mode_transition, EditState, InputMode};
use restui::model::{Header, HttpMethod, QueryParam, Request, Response};
use restui::navigation::{add_item, delete_focused, step_collection, toggle_enabled, RequestFocus, RequestTab};
use restui::overlay::{ttl_status, OverlayLists, OverlayState, TtlInput};
use restui::strutil::decimal_string;
use restui::vim_buffer::word_start_backward;

fn state(panel: Panel, body: &str, row: usize, col: usize) -> EditState {
    EditState {
        mode: InputMode::Normal,
        panel,
        type_editor: false,
        body: TextBuffer::new(body.as_bytes().to_vec(), row, col),
        body_undo: UndoHistory::new(),
        body_anchor: None,
        type_buf: TextBuffer::new(Vec::new(), 0, 0),
        type_undo: UndoHistory::new(),
        type_anchor: None,
        resp_cursor: (0, 0),
        resp_anchor: None,
        focus: RequestFocus::Url,
        edit_field: 0,
        field: LineField::new(b"http://x/?a=1&b=2".to_vec(), 3),
        field_editing: false,
        field_anchor: 0,
        field_undo: UndoHistory::new(),
        url: "http://x/?a=1&b=2".to_string(),
        query_params: Vec::new(),
        autocomplete_open: true,
        chain_autocomplete_open: true,
        resp_text: b"r0\nr1\nr2".to_vec(),
        type_locked: false,
        pending_key: Some('d'),
        yank_buffer: Vec::new(),
    }
}

#[test]
fn append_in_body_enters_insert_and_records_undo() {
    let mut st = state(Panel::Body, "abc\nde", 0, 1);
    mode_transition(&mut st, &Action::EnterAppendMode);
    assert_eq!(st.mode, InputMode::Insert);
    assert_eq!(st.body.col, 2);
    assert_eq!(st.body_undo.undo_stack.len(), 1);
    assert_eq!(st.body_undo.undo_stack[0].text, b"abc\nde".to_vec());
    assert_eq!(st.body_undo.undo_stack[0].col, 1);
    mode_transition(&mut st, &Action::EnterAppendModeEnd);
    assert_eq!(st.body.col, 3);
    assert_eq!(st.body_undo.undo_stack.len(), 2);
}

#[test]
fn append_in_request_field_enters_field_editing() {
    let mut st = state(Panel::Request, "", 0, 0);
    mode_transition(&mut st, &Action::EnterAppendMode);
    assert_eq!(st.mode, InputMode::Insert);
    assert!(st.field_editing);
    assert_eq!(st.field.cursor, 4);
    assert_eq!(st.field_undo.undo_stack.len(), 1);
    assert_eq!(st.field_undo.undo_stack[0].cursor, 3);
    assert!(st.field_undo.redo_stack.is_empty());
}

#[test]
fn leaving_insert_on_the_url_rebuilds_params() {
    let mut st = state(Panel::Request, "", 0, 0);
    st.mode = InputMode::Insert;
    st.field.cursor = 17;
    mode_transition(&mut st, &Action::ExitInsertMode);
    assert_eq!(st.mode, InputMode::Normal);
    assert!(!st.autocomplete_open && !st.chain_autocomplete_open);
    assert!(st.field_editing);
    assert_eq!(st.field.cursor, 16);
    assert_eq!(st.query_params.len(), 2);
    assert_eq!(st.query_params[0].key, "a");
    assert_eq!(st.query_params[1].value, "2");
}

#[test]
fn leaving_insert_in_body_clamps_the_cursor() {
    let mut st = state(Panel::Body, "abc\nde", 1, 2);
    st.mode = InputMode::Insert;
    mode_transition(&mut st, &Action::ExitInsertMode);
    assert_eq!(st.mode, InputMode::Normal);
    assert_eq!(st.body.col, 1);
    assert!(st.query_params.is_empty());
}

#[test]
fn visual_mode_sets_the_anchor() {
    let mut st = state(Panel::Body, "abc", 0, 2);
    mode_transition(&mut st, &Action::EnterVisualMode);
    assert_eq!(st.mode, InputMode::Visual);
    assert_eq!(st.body_anchor, Some((0, 2)));
    mode_transition(&mut st, &Action::ExitVisualMode);
    assert_eq!(st.mode, InputMode::Normal);
}

#[test]
fn yank_lines_with_count() {
    let mut st = state(Panel::Body, "a\nb\nc", 1, 0);
    let out = clipboard_op(&mut st, ClipOp::YankLine, 5);
    assert_eq!(out.clipboard, Some(b"b\nc".to_vec()));
    assert_eq!(st.yank_buffer, b"b\nc\n".to_vec());
    assert_eq!(out.status, Some(ClipStatus::YankedLines(2)));
    assert_eq!(out.status.unwrap().text(), "Yanked 2 lines");
    assert_eq!(st.pending_key, None);
    assert_eq!(st.body.text, b"a\nb\nc".to_vec());
}

#[test]
fn yank_field_while_editing() {
    let mut st = state(Panel::Request, "", 0, 0);
    st.field_editing = true;
    let out = clipboard_op(&mut st, ClipOp::YankLine, 1);
    assert_eq!(out.clipboard, Some(b"http://x/?a=1&b=2".to_vec()));
    assert_eq!(out.status.unwrap().text(), "Yanked field");
}

#[test]
fn delete_lines_with_count() {
    let mut st = state(Panel::Body, "a\nb\nc\nd", 1, 0);
    let out = clipboard_op(&mut st, ClipOp::DeleteLine, 2);
    assert_eq!(st.body.text, b"a\nd".to_vec());
    assert_eq!(st.body.row, 1);
    assert_eq!(st.yank_buffer, b"b\nc\n".to_vec());
    assert_eq!(out.clipboard, Some(b"b\nc\n".to_vec()));
    assert_eq!(out.status.unwrap().text(), "Deleted 2 lines");
    assert_eq!(st.body_undo.undo_stack.len(), 1);
    assert_eq!(st.body_undo.undo_stack[0].text, b"a\nb\nc\nd".to_vec());
    let out = clipboard_op(&mut st, ClipOp::DeleteLine, 1);
    assert_eq!(st.body.text, b"a".to_vec());
    assert_eq!(out.status, Some(ClipStatus::LineDeleted));
}

#[test]
fn delete_line_in_field_clears_it() {
    let mut st = state(Panel::Request, "", 0, 0);
    st.field_editing = true;
    let out = clipboard_op(&mut st, ClipOp::DeleteLine, 1);
    assert!(st.field.text.is_empty());
    assert_eq!(st.field.cursor, 0);
    assert_eq!(st.yank_buffer, b"http://x/?a=1&b=2".to_vec());
    assert_eq!(out.status.unwrap().text(), "Field cleared");
}

#[test]
fn yank_past_the_end_does_nothing() {
    let mut st = state(Panel::Body, "a", 3, 0);
    let out = clipboard_op(&mut st, ClipOp::YankLine, 1);
    assert!(out.clipboard.is_none() && out.status.is_none());
    assert!(st.yank_buffer.is_empty());
}

#[test]
fn ttl_dialog_confirm() {
    let mut s = OverlayState::new();
    let mut ttl: u64 = 10;
    let mut cache = ResponseCache::new(4);
    let resp = Response {
        status: 200,
        status_text: "OK".to_string(),
        headers: Vec::new(),
        body: "{}".to_string(),
        content_type: None,
        elapsed_ms: 1,
        size_bytes: 2,
        body_bytes: None,
    };
    cache.insert("c/a".to_string(), resp, 0);
    s.open(Overlay::SetCacheTTL { input: "30".to_string() }, None);
    let r = s.confirm_ttl(&mut ttl, &mut cache);
    assert_eq!(r, Some(TtlInput::Seconds(30)));
    assert_eq!(ttl, 30);
    assert!(cache.entries.is_empty());
    assert!(s.overlay.is_none());
    assert_eq!(ttl_status(r.unwrap()), "Chain cache TTL: 30s");
    s.open(Overlay::SetCacheTTL { input: "0".to_string() }, None);
    let r = s.confirm_ttl(&mut ttl, &mut cache);
    assert_eq!(ttl_status(r.unwrap()), "TTL must be > 0");
    assert_eq!(ttl, 30);
    s.open(Overlay::SetCacheTTL { input: String::new() }, None);
    let r = s.confirm_ttl(&mut ttl, &mut cache);
    assert_eq!(ttl_status(r.unwrap()), "Invalid number");
    assert!(s.confirm_ttl(&mut ttl, &mut cache).is_none());
}

#[test]
fn theme_list_steps_down_whatever_the_help_scroll() {
    let mut s = OverlayState::new();
    s.help_scroll = usize::MAX;
    s.open(Overlay::ThemeSelector { selected: 0 }, None);
    let lists = OverlayLists {
        environments: 0,
        collections: 0,
        themes: 3,
        history: 0,
        response_history: 0,
        active_env_vars: None,
    };
    s.down(lists);
    s.down(lists);
    s.down(lists);
    assert!(matches!(s.overlay, Some(Overlay::ThemeSelector { selected: 2 })));
}

#[test]
fn next_collection_expands_it() {
    let mut tree = vec![
        TreeCollection { expanded: false, shown: vec![true] },
        TreeCollection { expanded: false, shown: vec![] },
    ];
    let mut active: usize = 0;
    assert_eq!(step_collection(&mut active, &mut tree, true), Some(1));
    assert_eq!(active, 1);
    assert!(tree[1].expanded && !tree[0].expanded);
    assert_eq!(step_collection(&mut active, &mut tree, false), Some(0));
    assert!(tree[0].expanded);
    let mut none: Vec<TreeCollection> = Vec::new();
    assert_eq!(step_collection(&mut active, &mut none, true), None);
}

#[test]
fn deleting_a_header_moves_the_focus() {
    let mut req = Request {
        name: None,
        method: HttpMethod::GET,
        url: String::new(),
        headers: vec![
            Header { name: "A".to_string(), value: String::new(), enabled: true },
            Header { name: "B".to_string(), value: String::new(), enabled: true },
        ],
        query_params: vec![QueryParam { key: "q".to_string(), value: String::new(), enabled: true }],
        cookies: Vec::new(),
        path_params: Vec::new(),
        body_json: None,
        body_xml: None,
        body_form: None,
        body_raw: None,
    };
    let mut focus = RequestFocus::Header(1);
    let mut pending = Some('d');
    assert!(delete_focused(&mut req, &mut focus, &mut pending, RequestTab::Headers));
    assert_eq!(focus, RequestFocus::Header(0));
    assert_eq!(req.headers.len(), 1);
    assert_eq!(req.headers[0].name, "A");
    assert_eq!(pending, None);
    assert!(delete_focused(&mut req, &mut focus, &mut pending, RequestTab::Headers));
    assert_eq!(focus, RequestFocus::Url);
    assert!(!delete_focused(&mut req, &mut focus, &mut pending, RequestTab::Headers));
    assert_eq!(req.query_params.len(), 1);
}

#[test]
fn chain_decisions_and_messages() {
    let resolving = vec!["c/a".to_string(), "c/b".to_string()];
    match chain_decision(&resolving, &"c/a".to_string(), true) {
        ChainDecision::Circular(chain) => assert_eq!(chain, vec!["c/a", "c/b", "c/a"]),
        _ => panic!("expected a circular chain"),
    }
    assert!(matches!(chain_decision(&resolving, &"c/z".to_string(), true), ChainDecision::UseCached));
    assert!(matches!(chain_decision(&resolving, &"c/z".to_string(), false), ChainDecision::Fetch));
    assert_eq!(check_dependency_status("login", 204, "No Content"), Ok(()));
    assert_eq!(
        check_dependency_status("login", 404, "Not Found"),
        Err("Chain error: dependency 'login' returned 404 Not Found".to_string())
    );
    assert_eq!(
        path_not_found_message("token", "login"),
        "Chain error: path 'token' not found in response from 'login'"
    );
    assert_eq!(invalid_reference_message("x y"), "Chain error: invalid reference syntax '{{@x y}}'");
    assert_eq!(resolving_status("login"), "Resolving: login...");
}

#[test]
fn decimals() {
    assert_eq!(decimal_string(0), "0");
    assert_eq!(decimal_string(7), "7");
    assert_eq!(decimal_string(1200), "1200");
    assert_eq!(decimal_string(u64::MAX), "18446744073709551615");
}

#[test]
fn word_back_on_empty_line() {
    assert_eq!(word_start_backward(b"", 1), 0);
    assert_eq!(word_start_backward(b"ab cd", 4), 3);
}

#[test]
fn field_paths_follow_the_response_shape() {
    let item = JsonType::Object(vec![("id".to_string(), JsonType::Other("number".to_string()))], "object".to_string());
    let root = JsonType::Object(
        vec![
            ("token".to_string(), JsonType::Other("string".to_string())),
            ("items".to_string(), JsonType::Array(Box::new(item), "object[]".to_string())),
        ],
        "object".to_string(),
    );
    let segs = split_path("items[0].id");
    assert_eq!(segs.len(), 2);
    let last = &segs[..segs.len() - 1].to_vec();
    match navigate_type(&root, last) {
        Some(JsonType::Object(fields, _)) => assert_eq!(fields[0].0, "id"),
        _ => panic!("expected the element object"),
    }
    assert!(matches!(navigate_type(&root, &split_path("token.x")), None));
    assert!(matches!(navigate_type(&root, &split_path("items.id")), Some(JsonType::Other(_))));
    assert!(matches!(navigate_type(&root, &split_path("nope")), None));
    assert!(matches!(navigate_type(&root, &split_path("")), Some(JsonType::Object(..))));
}

#[test]
fn sending_flags() {
    let mut s = restui::http_client::SendStatus {
        in_flight: false,
        started_at: None,
        last_error: Some("old".to_string()),
        status: String::new(),
    };
    let now = std::time::Instant::now();
    s.begin(now);
    assert!(s.in_flight && s.started_at == Some(now) && s.last_error.is_none());
    assert_eq!(s.status, "Sending request...");
    s.fail("Chain error: x".to_string());
    assert!(!s.in_flight);
    assert_eq!(s.last_error.as_deref(), Some("Chain error: x"));
    assert_eq!(s.status, "Error: Chain error: x");
    s.cancel();
    assert!(s.started_at.is_none());
    assert_eq!(s.status, "Request cancelled");
}

#[test]
fn escaped_words_and_encoded_queries() {
    assert_eq!(shell_escape("it's"), "it'\\''s");
    assert_eq!(percent_encode("a b&c=d+#%é"), "a%20b%26c%3Dd%2B%23%25%C3%A9");
}

#[test]
fn adding_and_toggling_items() {
    let mut req = Request {
        name: None,
        method: HttpMethod::GET,
        url: String::new(),
        headers: Vec::new(),
        query_params: Vec::new(),
        cookies: Vec::new(),
        path_params: Vec::new(),
        body_json: None,
        body_xml: None,
        body_form: None,
        body_raw: None,
    };
    let mut focus = RequestFocus::Url;
    let mut field: u8 = 1;
    let mut cursor: usize = 5;
    let mut mode = InputMode::Normal;
    add_item(&mut req, &mut focus, &mut field, &mut cursor, &mut mode, RequestTab::Queries);
    add_item(&mut req, &mut focus, &mut field, &mut cursor, &mut mode, RequestTab::Queries);
    assert_eq!(req.query_params.len(), 2);
    assert_eq!(focus, RequestFocus::Param(1));
    assert_eq!((field, cursor, mode), (0, 0, InputMode::Insert));
    assert!(req.query_params[1].enabled && req.query_params[1].key.is_empty());
    toggle_enabled(&mut req, focus);
    assert!(!req.query_params[1].enabled && req.query_params[0].enabled);
    toggle_enabled(&mut req, RequestFocus::Header(0));
    assert!(req.headers.is_empty());
}

#[test]
fn counted_motions_repeat_single_steps() {
    let mut f = LineField::new(b"hello".to_vec(), 3);
    f.cursor_left_by(2);
    assert_eq!(f.cursor, 1);
    f.cursor_left_by(9);
    assert_eq!(f.cursor, 0);
    f.cursor_right_by(3, false);
    assert_eq!(f.cursor, 3);
    f.cursor_right_by(9, false);
    assert_eq!(f.cursor, 4);
    f.cursor_right_by(9, true);
    assert_eq!(f.cursor, 5);
    assert_eq!(f.text, b"hello".to_vec());

    let mut b = TextBuffer { text: b"abcdef\nxy\n\nlong line".to_vec(), row: 0, col: 5 };
    b.cursor_lines_by(1, false, true);
    assert_eq!((b.row, b.col), (1, 1));
    b.cursor_lines_by(9, false, true);
    assert_eq!((b.row, b.col), (3, 0));
    b.cursor_lines_by(2, false, false);
    assert_eq!((b.row, b.col), (1, 0));
    b.cursor_lines_by(9, false, false);
    assert_eq!((b.row, b.col), (0, 0));
}
