use restui::chain::{
    cache_entry_fresh, cache_key, check_not_resolving, ensure_content_type, eq_ignore_ascii_case, find_request_by_name,
    is_fresh, is_success_status, splice, Replacement,
};
use restui::collections::{flat_idx_to_coll_req, params_from_url, passes_filter, TreeCollection};
use restui::history::{UndoHistory, UNDO_STACK_MAX};
use restui::model::{Collection, Header, HttpMethod, QueryParam, Request};
use restui::viewport::{jump_to_match, screen_layout, search_matches, search_matches_checked, ScreenLayout, ViewBuf, VimView};

fn named(name: &str) -> Request {
    Request {
        name: Some(name.to_string()),
        method: HttpMethod::GET,
        url: "https://x.io".to_string(),
        headers: Vec::new(),
        query_params: Vec::new(),
        cookies: Vec::new(),
        path_params: Vec::new(),
        body_json: None,
        body_xml: None,
        body_form: None,
        body_raw: None,
    }
}

fn view(row: usize, col: usize, scroll_row: u16, height: u16) -> ViewBuf {
    ViewBuf { cursor_row: row, cursor_col: col, scroll_row, scroll_col: 0, visible_height: height, visible_width: 10 }
}

#[test]
fn scroll_follows_the_cursor() {
    let mut v = view(25, 0, 0, 10);
    v.sync_scroll();
    assert_eq!(v.scroll_row, 16);
    let mut v = view(3, 0, 8, 10);
    v.sync_scroll();
    assert_eq!(v.scroll_row, 3);
    let mut v = view(12, 0, 8, 10);
    v.sync_scroll();
    assert_eq!(v.scroll_row, 8);
    let mut v = view(50, 0, 0, 0);
    v.sync_scroll();
    assert_eq!(v.scroll_row, 0);
    let mut v = view(0, 14, 0, 10);
    v.sync_hscroll();
    assert_eq!(v.scroll_col, 5);
}

#[test]
fn half_page_moves() {
    let mut v = view(0, 2, 0, 10);
    v.scroll_half_down(100);
    assert_eq!(v.cursor_row, 15);
    assert_eq!(v.scroll_row, 6);
    v.scroll_half_down(20);
    assert_eq!(v.cursor_row, 19);
    v.scroll_half_up();
    assert_eq!(v.cursor_row, 4);
    v.scroll_half_up();
    assert_eq!(v.cursor_row, 0);
    assert_eq!(v.scroll_row, 0);
}

#[test]
fn top_and_bottom() {
    let mut v = view(7, 3, 2, 5);
    v.scroll_bottom(30);
    assert_eq!((v.cursor_row, v.cursor_col), (29, 0));
    assert_eq!(v.scroll_row, 25);
    v.scroll_top();
    assert_eq!((v.cursor_row, v.cursor_col, v.scroll_row, v.scroll_col), (0, 0, 0, 0));
    v.scroll_bottom(0);
    assert_eq!(v.cursor_row, 0);
}

#[test]
fn cursor_moves_between_lines() {
    let lines = vec!["abcdef".to_string(), "ab".to_string(), "abcd".to_string()];
    let mut v = view(0, 5, 0, 10);
    v.cursor_down(&lines);
    assert_eq!((v.cursor_row, v.cursor_col), (1, 2));
    v.cursor_down(&lines);
    assert_eq!((v.cursor_row, v.cursor_col), (2, 2));
    v.cursor_down(&lines);
    assert_eq!((v.cursor_row, v.cursor_col), (2, 2));
    v.cursor_up(&lines);
    v.cursor_up(&lines);
    v.cursor_up(&lines);
    assert_eq!((v.cursor_row, v.cursor_col), (0, 2));
}

#[test]
fn search_finds_overlapping_case_insensitive_hits() {
    let lines = vec!["Aaa".to_string(), "xAx".to_string(), "none".to_string()];
    assert_eq!(search_matches(&lines, "aa"), vec![(0, 0), (0, 1)]);
    assert_eq!(search_matches(&lines, "A"), vec![(0, 0), (0, 1), (0, 2), (1, 1)]);
    assert!(search_matches(&lines, "").is_empty());
    assert!(search_matches(&lines, "zz").is_empty());
}

#[test]
fn jumping_to_a_hit_scrolls() {
    let hits = vec![(3, 1), (40, 2)];
    let mut v = VimView { cursor_row: 0, cursor_col: 0, scroll_offset: 10, visible_height: 10 };
    jump_to_match(&mut v, &hits, 0);
    assert_eq!((v.cursor_row, v.cursor_col, v.scroll_offset), (3, 1, 3));
    jump_to_match(&mut v, &hits, 1);
    assert_eq!((v.cursor_row, v.scroll_offset), (40, 35));
    jump_to_match(&mut v, &hits, 5);
    assert_eq!((v.cursor_row, v.scroll_offset), (40, 35));
}

#[test]
fn requests_found_by_name() {
    let colls = vec![
        Collection { name: "a".to_string(), requests: vec![named("x"), named("y")] },
        Collection { name: "b".to_string(), requests: vec![named("y"), named("z")] },
    ];
    assert_eq!(find_request_by_name(&colls, 1, "y", None), Some((1, 0)));
    assert_eq!(find_request_by_name(&colls, 0, "y", None), Some((0, 1)));
    assert_eq!(find_request_by_name(&colls, 0, "z", None), Some((1, 1)));
    assert_eq!(find_request_by_name(&colls, 9, "z", None), Some((1, 1)));
    assert_eq!(find_request_by_name(&colls, 1, "y", Some("a")), Some((0, 1)));
    assert_eq!(find_request_by_name(&colls, 0, "x", Some("b")), None);
    assert_eq!(find_request_by_name(&colls, 0, "w", None), None);
}

#[test]
fn chain_helpers() {
    assert_eq!(cache_key("auth", "login"), "auth/login");
    let resolving = vec!["a/x".to_string(), "a/y".to_string()];
    assert_eq!(check_not_resolving(&resolving, &"b/z".to_string()), Ok(()));
    assert_eq!(
        check_not_resolving(&resolving, &"a/x".to_string()),
        Err(vec!["a/x".to_string(), "a/y".to_string(), "a/x".to_string()])
    );
    assert!(is_fresh(3, 10));
    assert!(!is_fresh(10, 10));
    assert!(is_success_status(200));
    assert!(is_success_status(299));
    assert!(!is_success_status(300));
    assert!(!is_success_status(199));
    assert!(eq_ignore_ascii_case("Content-TYPE", "content-type"));
    assert!(!eq_ignore_ascii_case("content-typ", "content-type"));
}

#[test]
fn content_type_added_once() {
    let mut hs = vec![Header { name: "Accept".to_string(), value: "*/*".to_string(), enabled: true }];
    ensure_content_type(&mut hs, "application/json");
    assert_eq!(hs.len(), 2);
    assert_eq!(hs[1].name, "Content-Type");
    assert_eq!(hs[1].value, "application/json");
    ensure_content_type(&mut hs, "text/plain");
    assert_eq!(hs.len(), 2);
    let mut off = vec![Header { name: "content-type".to_string(), value: "x".to_string(), enabled: false }];
    ensure_content_type(&mut off, "text/xml");
    assert_eq!(off.len(), 2);
}

#[test]
fn references_are_replaced_back_to_front() {
    let value = b"a {{@x.id}} b {{@y.n}}";
    let rs = vec![
        Replacement { start: 2, end: 11, text: b"7".to_vec() },
        Replacement { start: 14, end: 22, text: b"nine".to_vec() },
    ];
    assert_eq!(splice(value, &rs), b"a 7 b nine".to_vec());
    assert_eq!(splice(b"same", &Vec::new()), b"same".to_vec());
}

#[test]
fn collection_rows_map_to_requests() {
    let tree = vec![
        TreeCollection { expanded: true, shown: vec![true, false, true] },
        TreeCollection { expanded: false, shown: vec![true] },
        TreeCollection { expanded: true, shown: vec![false] },
    ];
    assert_eq!(flat_idx_to_coll_req(&tree, false, 0), Some((0, None)));
    assert_eq!(flat_idx_to_coll_req(&tree, false, 2), Some((0, Some(1))));
    assert_eq!(flat_idx_to_coll_req(&tree, false, 4), Some((1, None)));
    assert_eq!(flat_idx_to_coll_req(&tree, false, 6), Some((2, Some(0))));
    assert_eq!(flat_idx_to_coll_req(&tree, false, 7), None);
    assert_eq!(flat_idx_to_coll_req(&tree, true, 2), Some((0, Some(2))));
    assert_eq!(flat_idx_to_coll_req(&tree, true, 3), Some((1, None)));
    assert_eq!(flat_idx_to_coll_req(&tree, true, 4), None);
}

#[test]
fn filter_matches_name_or_url() {
    assert!(passes_filter("Get Users", "https://x.io", "users"));
    assert!(passes_filter("a", "https://API.io", "api"));
    assert!(!passes_filter("a", "b", "c"));
}

#[test]
fn query_parameters_follow_the_url() {
    let existing = vec![QueryParam { key: "b".to_string(), value: "old".to_string(), enabled: false }];
    let ps = params_from_url("https://x.io/?a=1&b=2&&=x&c", &existing);
    let got: Vec<(String, String, bool)> = ps.iter().map(|p| (p.key.clone(), p.value.clone(), p.enabled)).collect();
    assert_eq!(
        got,
        vec![
            ("a".to_string(), "1".to_string(), true),
            ("b".to_string(), "2".to_string(), false),
            ("c".to_string(), String::new(), true),
        ]
    );
    assert!(params_from_url("https://x.io/", &existing).is_empty());
    let eq = params_from_url("u?k=v=w", &Vec::new());
    assert_eq!(eq[0].value, "v=w");
}

#[test]
fn undo_and_redo() {
    let mut h: UndoHistory<&str> = UndoHistory::new();
    assert_eq!(h.undo("now"), None);
    h.push("one");
    h.push("two");
    assert_eq!(h.undo("three"), Some("two"));
    assert_eq!(h.redo("two"), Some("three"));
    assert_eq!(h.undo_stack, vec!["one", "two"]);
    h.push("x");
    assert!(h.redo_stack.is_empty());
    assert_eq!(h.redo("y"), None);
}

#[test]
fn undo_history_is_capped() {
    let mut h: UndoHistory<usize> = UndoHistory::new();
    for i in 0..(UNDO_STACK_MAX + 5) {
        h.push(i);
    }
    assert_eq!(h.undo_stack.len(), UNDO_STACK_MAX);
    assert_eq!(h.undo_stack[0], 5);
    assert_eq!(h.undo(0), Some(UNDO_STACK_MAX + 4));
}

#[test]
fn checked_search_refuses_non_ascii_first_character() {
    let lines = vec!["caf\u{e9}".to_string()];
    assert_eq!(search_matches_checked(&lines, "\u{c9}"), None);
    assert_eq!(search_matches_checked(&lines, "CA"), Some(vec![(0, 0)]));
}

#[test]
fn screen_layout_sizes() {
    let wide = screen_layout(200, 50, 100, false);
    assert_eq!(
        wide,
        ScreenLayout { wide: true, body_height: 25, response_height: 43, body_width: 58, response_width: 74 }
    );
    let narrow = screen_layout(100, 50, 100, true);
    assert_eq!(
        narrow,
        ScreenLayout { wide: false, body_height: 13, response_height: 5, body_width: 74, response_width: 74 }
    );
    let tiny = screen_layout(0, 0, 0, false);
    assert_eq!(tiny, ScreenLayout { wide: false, body_height: 0, response_height: 0, body_width: 0, response_width: 0 });
}

#[test]
fn cache_entry_with_zero_ttl_is_never_fresh() {
    let stored = std::time::Instant::now();
    assert!(!cache_entry_fresh(&stored, 0));
    assert!(cache_entry_fresh(&stored, 3600));
}
