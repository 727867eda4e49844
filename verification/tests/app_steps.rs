use restui::action::Action;
use restui::app_state::{
    collection_renamed, confirm_rename, new_request_name, push_count_digit, record_response, take_count, update,
    AppState, Effect, Update,
};
use restui::cache::ResponseCache;
use restui::chain_run::{chain_start, chain_step, ChainAction, ChainEvent, ChainFailure, ChainRef, RawRef};
use restui::collections::TreeCollection;
use restui::http_client::SendStatus;
use restui::json_fields::{field_suggestions, field_suggestions_checked, JsonType};
use restui::mode::InputMode;
use restui::model::{Collection, Header, HttpMethod, Request, Response};
use restui::navigation::{RequestFocus, RequestTab};
use restui::viewport::{search_matches, search_matches_checked, VimView};

fn response(status: u16, body: &str) -> Response {
    Response {
        status,
        status_text: "OK".to_string(),
        headers: Vec::new(),
        body: body.to_string(),
        content_type: None,
        elapsed_ms: 3,
        size_bytes: body.len(),
        body_bytes: None,
    }
}

fn request(name: Option<&str>) -> Request {
    Request {
        name: name.map(|n| n.to_string()),
        method: HttpMethod::GET,
        url: "http://x".to_string(),
        headers: Vec::new(),
        query_params: Vec::new(),
        cookies: Vec::new(),
        path_params: Vec::new(),
        body_json: None,
        body_xml: None,
        body_form: None,
        body_raw: None,
    }
}

fn state() -> AppState {
    AppState {
        should_quit: false,
        count_prefix: None,
        pending_key: None,
        verify_ssl: true,
        wrap_enabled: false,
        send: SendStatus { in_flight: true, started_at: None, last_error: None, status: String::new() },
        request: request(Some("login")),
        focus: RequestFocus::Url,
        tab: RequestTab::Headers,
        edit_field: 0,
        edit_cursor: 0,
        mode: InputMode::Normal,
        collections: vec![
            Collection { name: "auth".to_string(), requests: vec![request(Some("login"))] },
            Collection { name: "users".to_string(), requests: Vec::new() },
        ],
        active_collection: 0,
        tree: vec![
            TreeCollection { expanded: false, shown: vec![true] },
            TreeCollection { expanded: false, shown: Vec::new() },
        ],
        cache: ResponseCache::new(2),
        response_histories: Vec::new(),
        current_response: None,
        search_hits: Vec::new(),
        search_idx: 0,
        search_view: None,
        collections_selected: None,
        collections_filter: String::new(),
    }
}

#[test]
fn cache_keeps_the_newest_within_its_limit() {
    let mut c = ResponseCache::new(2);
    c.insert("a".to_string(), response(200, "1"), 1);
    c.insert("b".to_string(), response(200, "2"), 2);
    c.insert("a".to_string(), response(200, "3"), 3);
    assert_eq!(c.entries.len(), 2);
    assert_eq!(c.entries[0].key, "a");
    assert_eq!(c.entries[0].response.body, "3");
    c.insert("c".to_string(), response(200, "4"), 4);
    let keys: Vec<&str> = c.entries.iter().map(|e| e.key.as_str()).collect();
    assert_eq!(keys, vec!["a", "c"]);
}

#[test]
fn count_digits_and_taking_the_count() {
    let c = push_count_digit(None, 3);
    assert_eq!(c, Some(3));
    let mut c = push_count_digit(c, 7);
    assert_eq!(c, Some(37));
    assert_eq!(take_count(&mut c), 37);
    assert_eq!(take_count(&mut c), 1);
}

#[test]
fn response_history_keeps_five_newest_first() {
    let mut h: Vec<u32> = Vec::new();
    for i in 0..7 {
        record_response(&mut h, i);
    }
    assert_eq!(h, vec![6, 5, 4, 3, 2]);
}

#[test]
fn new_request_names() {
    assert_eq!(new_request_name(&Vec::new()), "New Request");
    let taken = vec!["New Request".to_string(), "New Request (2)".to_string(), "x".to_string()];
    assert_eq!(new_request_name(&taken), "New Request (3)");
}

#[test]
fn update_toggles_and_counts() {
    let mut st = state();
    assert!(matches!(update(&mut st, Action::AccumulateCount(4), 0), Update::Done(_)));
    assert_eq!(st.count_prefix, Some(4));
    match update(&mut st, Action::ScrollDown, 0) {
        Update::Other(Action::ScrollDown, 4) => {}
        _ => panic!("expected the action back with its count"),
    }
    assert_eq!(st.count_prefix, None);
    update(&mut st, Action::ToggleInsecureMode, 0);
    assert!(!st.verify_ssl);
    assert_eq!(st.send.status, "SSL: Insecure (certificates NOT verified)");
    update(&mut st, Action::ToggleWrap, 0);
    assert!(st.wrap_enabled);
    assert_eq!(st.send.status, "Wrap: ON");
    update(&mut st, Action::Quit, 0);
    assert!(st.should_quit);
}

#[test]
fn update_moves_between_collections() {
    let mut st = state();
    match update(&mut st, Action::NextCollection, 0) {
        Update::Done(fx) => assert!(matches!(fx.as_slice(), [Effect::LoadFirstRequest(1)])),
        _ => panic!(),
    }
    assert_eq!(st.active_collection, 1);
    assert!(st.tree[1].expanded);
    assert_eq!(st.send.status, "Collection: users");
    update(&mut st, Action::PrevCollection, 0);
    assert_eq!(st.active_collection, 0);
}

#[test]
fn update_adds_and_deletes_headers() {
    let mut st = state();
    update(&mut st, Action::AddHeader, 0);
    assert_eq!(st.request.headers.len(), 1);
    assert_eq!(st.focus, RequestFocus::Header(0));
    assert_eq!(st.mode, InputMode::Insert);
    update(&mut st, Action::ToggleItemEnabled, 0);
    assert!(!st.request.headers[0].enabled);
    update(&mut st, Action::DeleteHeader, 0);
    assert!(st.request.headers.is_empty());
    assert_eq!(st.focus, RequestFocus::Url);
    assert_eq!(st.send.status, "Header deleted");
}

#[test]
fn update_records_a_completed_request() {
    let mut st = state();
    match update(&mut st, Action::RequestCompleted(Box::new(response(200, "{}"))), 9) {
        Update::Done(fx) => assert!(matches!(fx.as_slice(), [Effect::SaveResponseHistories, Effect::RecordHistory])),
        _ => panic!(),
    }
    assert!(!st.send.in_flight);
    assert_eq!(st.cache.entries.len(), 1);
    assert_eq!(st.cache.entries[0].key, "auth/login");
    assert_eq!(st.cache.entries[0].stored_at, 9);
    assert_eq!(st.response_histories.len(), 1);
    assert_eq!(st.response_histories[0].0, "auth/login");
    assert_eq!(st.current_response.as_ref().unwrap().body, "{}");
    update(&mut st, Action::RequestFailed("boom".to_string()), 10);
    assert!(st.current_response.is_none());
    assert_eq!(st.send.status, "Error: boom");
}

#[test]
fn field_path_suggestions() {
    let item = JsonType::Object(vec![("id".to_string(), JsonType::Other("number".to_string()))], "object".to_string());
    let root = JsonType::Object(
        vec![
            ("token".to_string(), JsonType::Other("string".to_string())),
            ("items".to_string(), JsonType::Array(Box::new(item), "object[]".to_string())),
        ],
        "object".to_string(),
    );
    let s = field_suggestions(&root, "to");
    assert_eq!(s, vec![(b"token: string".to_vec(), b"ken".to_vec())]);
    let s = field_suggestions(&root, "items.");
    assert_eq!(s.len(), 3);
    assert_eq!(s[0].1, b"[0]".to_vec());
    assert_eq!(s[2], (b"  id: number".to_vec(), b"id".to_vec()));
    let s = field_suggestions(&root, "token.");
    assert_eq!(s, vec![(b"(type: string, no sub-fields)".to_vec(), Vec::new())]);
    assert_eq!(field_suggestions(&root, "nope.x"), vec![(b"(field not found)".to_vec(), Vec::new())]);
    assert_eq!(field_suggestions(&root, "zz"), vec![(b"(no fields available)".to_vec(), Vec::new())]);
    assert!(field_suggestions_checked(&root, "to").is_some());
}

#[test]
fn search_with_a_non_ascii_query_and_no_hit() {
    let lines = vec!["abc".to_string()];
    assert_eq!(search_matches_checked(&lines, "\u{c9}"), Some(Vec::new()));
    assert!(search_matches(&lines, "\u{c9}").is_empty());
}

#[test]
fn chain_run_resolves_a_reference() {
    let colls = vec![Collection { name: "auth".to_string(), requests: vec![request(Some("login"))] }];
    let value = b"t={{@login.token}}".to_vec();
    let refs = vec![RawRef { start: 2, end: 18, inner: "login.token".to_string() }];
    let (mut run, act) = chain_start(value, refs);
    assert!(matches!(&act, ChainAction::Parse(t) if t == "login.token"));
    let parsed = ChainRef { collection: None, request_name: "login".to_string(), json_path: "token".to_string() };
    let act = chain_step(&mut run, &colls, 0, &Vec::new(), ChainEvent::Parsed(Some(parsed)));
    assert!(matches!(&act, ChainAction::CheckFreshness(k) if k == "auth/login"));
    let act = chain_step(&mut run, &colls, 0, &Vec::new(), ChainEvent::Freshness(false));
    assert!(matches!(&act, ChainAction::Run { key, coll: 0, req: 0 } if key == "auth/login"));
    let act = chain_step(&mut run, &colls, 0, &Vec::new(), ChainEvent::Ran(Ok((200, "OK".to_string()))));
    assert!(matches!(&act, ChainAction::Extract { path, cache: true, .. } if path == "token"));
    let act = chain_step(&mut run, &colls, 0, &Vec::new(), ChainEvent::Extracted(Ok("abc".to_string())));
    assert!(matches!(&act, ChainAction::Done(v) if v == b"t=abc"));

    let refs = vec![RawRef { start: 0, end: 5, inner: "x".to_string() }];
    let (mut run, _) = chain_start(b"{{@x}}".to_vec(), refs);
    let act = chain_step(&mut run, &colls, 0, &Vec::new(), ChainEvent::Parsed(None));
    assert!(matches!(&act, ChainAction::Fail(ChainFailure::Message(m)) if m == "Chain error: invalid reference syntax '{{@x}}'"));

    let refs = vec![RawRef { start: 0, end: 5, inner: "login.a".to_string() }];
    let (mut run, _) = chain_start(b"{{@l}}".to_vec(), refs);
    let parsed = ChainRef { collection: None, request_name: "login".to_string(), json_path: "a".to_string() };
    let act = chain_step(&mut run, &colls, 0, &vec!["auth/login".to_string()], ChainEvent::Parsed(Some(parsed)));
    assert!(matches!(&act, ChainAction::Fail(ChainFailure::Circular(c)) if c.len() == 2));
}

#[test]
fn update_moves_focus_and_cycles_the_method() {
    let mut st = state();
    update(&mut st, Action::AddHeader, 0);
    update(&mut st, Action::RequestFocusUp, 0);
    assert_eq!(st.focus, RequestFocus::Url);
    update(&mut st, Action::RequestFocusDown, 0);
    assert_eq!(st.focus, RequestFocus::Header(0));
    update(&mut st, Action::NextMethod, 0);
    assert_eq!(st.request.method, HttpMethod::POST);
    assert_eq!(st.send.status, "Method: POST");
    update(&mut st, Action::PrevMethod, 0);
    assert_eq!(st.request.method, HttpMethod::GET);
}

fn header(name: &str) -> Header {
    Header { name: name.to_string(), value: "v".to_string(), enabled: true }
}

#[test]
fn update_deletes_the_focused_header_and_keeps_the_rest() {
    let mut st = state();
    st.request.headers = vec![header("a"), header("b"), header("c")];
    st.request.url = "http://keep".to_string();
    st.focus = RequestFocus::Header(1);
    update(&mut st, Action::DeleteHeader, 0);
    let names: Vec<&str> = st.request.headers.iter().map(|h| h.name.as_str()).collect();
    assert_eq!(names, vec!["a", "c"]);
    assert!(st.request.headers.iter().all(|h| h.enabled));
    assert_eq!(st.request.url, "http://keep");
    assert_eq!(st.focus, RequestFocus::Header(1));
    update(&mut st, Action::AddHeader, 0);
    let names: Vec<&str> = st.request.headers.iter().map(|h| h.name.as_str()).collect();
    assert_eq!(names, vec!["a", "c", ""]);
    assert!(st.request.headers[2].enabled);
    assert_eq!(st.request.url, "http://keep");
    assert_eq!(st.focus, RequestFocus::Header(2));
}

#[test]
fn completed_requests_keep_five_newest_first() {
    let mut st = state();
    for i in 0..6u16 {
        update(&mut st, Action::RequestCompleted(Box::new(response(200 + i, "{}"))), 10 + i as u64);
    }
    assert_eq!(st.response_histories.len(), 1);
    let statuses: Vec<u16> = st.response_histories[0].1.iter().map(|r| r.status).collect();
    assert_eq!(statuses, vec![205, 204, 203, 202, 201]);
    assert_eq!(st.cache.entries.len(), 1);
    assert_eq!(st.cache.entries[0].key, "auth/login");
    assert_eq!(st.cache.entries[0].response.status, 205);
}

#[test]
fn update_steps_between_search_hits() {
    let mut st = state();
    st.search_hits = vec![(2, 1), (40, 0), (7, 3)];
    st.search_idx = 0;
    st.search_view = Some(VimView { cursor_row: 0, cursor_col: 0, scroll_offset: 0, visible_height: 10 });
    update(&mut st, Action::SearchNext, 0);
    assert_eq!(st.search_idx, 1);
    let v = st.search_view.unwrap();
    assert_eq!((v.cursor_row, v.cursor_col, v.scroll_offset), (40, 0, 35));
    update(&mut st, Action::SearchNext, 0);
    update(&mut st, Action::SearchNext, 0);
    assert_eq!(st.search_idx, 0);
    update(&mut st, Action::SearchPrev, 0);
    assert_eq!(st.search_idx, 2);
    let v = st.search_view.unwrap();
    assert_eq!((v.cursor_row, v.cursor_col, v.scroll_offset), (7, 3, 2));
    let mut empty = state();
    update(&mut empty, Action::SearchNext, 0);
    assert_eq!(empty.search_idx, 0);
    assert!(empty.search_view.is_none());
}

#[test]
fn update_adds_a_request_to_the_selected_collection() {
    let mut st = state();
    st.collections_selected = Some(1);
    match update(&mut st, Action::AddRequestToCollection, 0) {
        Update::Done(fx) => assert!(matches!(fx.as_slice(), [Effect::SaveCollection(1), Effect::ClearBodyEditor])),
        _ => panic!(),
    }
    assert_eq!(st.collections[1].requests.len(), 1);
    assert_eq!(st.collections[1].requests[0].name.as_deref(), Some("New Request"));
    assert_eq!(st.request.name.as_deref(), Some("New Request"));
    assert_eq!(st.request.method, HttpMethod::GET);
    assert!(st.request.url.is_empty());
    assert_eq!(st.active_collection, 1);
    assert!(st.tree[1].expanded);
    assert_eq!(st.tree[1].shown, vec![true]);
    assert_eq!(st.focus, RequestFocus::Url);
    assert!(st.current_response.is_none());
    assert_eq!(st.send.status, "Created: New Request in users");
    st.collections_selected = Some(2);
    update(&mut st, Action::AddRequestToCollection, 0);
    let names: Vec<&str> = st.collections[1].requests.iter().map(|r| r.name.as_deref().unwrap()).collect();
    assert_eq!(names, vec!["New Request", "New Request (2)"]);
    assert_eq!(st.collections[0].requests.len(), 1);
    st.collections_selected = None;
    match update(&mut st, Action::AddRequestToCollection, 0) {
        Update::Done(fx) => assert!(fx.is_empty()),
        _ => panic!(),
    }
    assert_eq!(st.send.status, "Select a collection first");
    assert_eq!(st.collections[1].requests.len(), 2);
}

#[test]
fn renaming_a_request_and_a_collection() {
    let mut st = state();
    st.tree[0].expanded = true;
    st.collections_selected = Some(1);
    let fx = confirm_rename(&mut st, "  signin ");
    assert!(matches!(fx.as_slice(), [Effect::SaveCollection(0)]));
    assert_eq!(st.collections[0].requests[0].name.as_deref(), Some("signin"));
    assert_eq!(st.request.name.as_deref(), Some("signin"));
    assert_eq!(st.tree[0].shown, vec![true]);
    assert_eq!(st.send.status, "Renamed → 'signin'");

    assert!(confirm_rename(&mut st, "   ").is_empty());
    assert_eq!(st.collections[0].requests[0].name.as_deref(), Some("signin"));

    st.collections_selected = Some(0);
    let fx = confirm_rename(&mut st, "accounts");
    match fx.as_slice() {
        [Effect::RenameCollectionFile(0, n)] => assert_eq!(n, "accounts"),
        _ => panic!("expected the file rename"),
    }
    assert_eq!(st.collections[0].name, "auth");
    collection_renamed(&mut st, 0, "accounts".to_string(), false);
    assert_eq!(st.collections[0].name, "auth");
    assert_eq!(st.send.status, "Failed to rename file");
    collection_renamed(&mut st, 0, "accounts".to_string(), true);
    assert_eq!(st.collections[0].name, "accounts");
    assert_eq!(st.send.status, "Renamed → 'accounts'");
}
