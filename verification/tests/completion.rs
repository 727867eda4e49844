use restui::autocomplete::{
    env_suggestions_checked, request_name_suggestions_checked, candidate_matches, completion_context, display_value, env_suggestions, request_name_suggestions,
    CompletionContext,
};
use restui::model::{Collection, HttpMethod, Request};

fn named(name: Option<&str>) -> Request {
    Request {
        name: name.map(|s| s.to_string()),
        method: HttpMethod::GET,
        url: "https://x.io".to_string(),
        headers: Vec::new(),
        query_params: Vec::new(),
        cookies: Vec::new(),
        path_params: Vec::new(),
        body_json: None,
        body_xml: None,
        body_form: None,
        body_raw: None,
    }
}

fn prefix(c: CompletionContext) -> Option<Vec<u8>> {
    match c {
        CompletionContext::Env { prefix } => Some(prefix),
        _ => None,
    }
}

#[test]
fn variable_completion_after_double_brace() {
    assert_eq!(prefix(completion_context(b"Bearer {{to", 11)), Some(b"to".to_vec()));
    assert_eq!(prefix(completion_context(b"{{", 2)), Some(Vec::new()));
    assert_eq!(prefix(completion_context(b"{{token}} x", 11)), None);
    assert!(matches!(completion_context(b"{{token}} x", 11), CompletionContext::NoCompletion));
    assert!(matches!(completion_context(b"plain", 5), CompletionContext::NoCompletion));
}

#[test]
fn cursor_limits_what_is_read() {
    assert_eq!(prefix(completion_context(b"{{abc}}", 4)), Some(b"ab".to_vec()));
    assert_eq!(prefix(completion_context(b"{{ab", 40)), Some(b"ab".to_vec()));
}

#[test]
fn request_name_completion_after_at() {
    match completion_context(b"x {{@log", 8) {
        CompletionContext::RequestName { prefix } => assert_eq!(prefix, b"log".to_vec()),
        other => panic!("unexpected {:?}", other),
    }
}

#[test]
fn field_path_completion() {
    match completion_context(b"{{@login.data.to", 16) {
        CompletionContext::FieldPath { request, path } => {
            assert_eq!(request, b"login".to_vec());
            assert_eq!(path, b"data.to".to_vec());
        }
        other => panic!("unexpected {:?}", other),
    }
    match completion_context(b"{{@items[0].id", 14) {
        CompletionContext::FieldPath { request, path } => {
            assert_eq!(request, b"items".to_vec());
            assert_eq!(path, b"[0].id".to_vec());
        }
        other => panic!("unexpected {:?}", other),
    }
    assert!(matches!(completion_context(b"{{@login.token}}", 16), CompletionContext::NoCompletion));
}

#[test]
fn later_variable_wins_over_earlier_chain() {
    assert_eq!(prefix(completion_context(b"{{@a.b}} {{v", 12)), Some(b"v".to_vec()));
}

#[test]
fn candidates_match_case_insensitively() {
    assert!(candidate_matches("BaseUrl", "base"));
    assert!(candidate_matches("anything", ""));
    assert!(!candidate_matches("token", "base"));
}

#[test]
fn long_values_are_shortened() {
    assert_eq!(display_value(b"short"), b"short".to_vec());
    let long = b"abcdefghijklmnopqrstuvwxyz";
    let mut expected = b"abcdefghijklmnopqrs".to_vec();
    expected.extend_from_slice("\u{2026}".as_bytes());
    assert_eq!(display_value(long), expected);
}

#[test]
fn variable_suggestions() {
    let vars = vec![
        ("base_url".to_string(), "http://localhost:3000".to_string()),
        ("token".to_string(), "abc".to_string()),
        ("BASE_path".to_string(), "/v1".to_string()),
    ];
    let items = env_suggestions(&vars, "ba");
    assert_eq!(items.len(), 2);
    let mut label = b"base_url: http://localhost:30".to_vec();
    label.extend_from_slice("\u{2026}".as_bytes());
    assert_eq!(items[0], (label, b"se_url".to_vec()));
    assert_eq!(items[1], (b"BASE_path: /v1".to_vec(), b"SE_path".to_vec()));
    let none = env_suggestions(&vars, "zz");
    assert_eq!(
        none,
        vec![("(no active environment \u{2014} press p to select)".as_bytes().to_vec(), Vec::new())]
    );
}

#[test]
fn request_suggestions() {
    let colls = vec![
        Collection { name: "auth".to_string(), requests: vec![named(Some("login")), named(None)] },
        Collection { name: "users".to_string(), requests: vec![named(Some("List")), named(Some("logout"))] },
    ];
    let items = request_name_suggestions(&colls, "lo");
    assert_eq!(
        items,
        vec![
            (b"login (auth)".to_vec(), b"gin".to_vec()),
            (b"logout (users)".to_vec(), b"gout".to_vec()),
        ]
    );
    let all = request_name_suggestions(&colls, "");
    assert_eq!(all.len(), 3);
    assert_eq!(request_name_suggestions(&colls, "x"), vec![(b"(no named requests)".to_vec(), Vec::new())]);
}

#[test]
fn checked_suggestions_refuse_cuts_inside_characters() {
    let vars = vec![("k".to_string(), "\u{e9}".repeat(12))];
    assert!(env_suggestions_checked(&vars, "").is_none());
    let ok = vec![("key".to_string(), "v".to_string())];
    assert_eq!(env_suggestions_checked(&ok, "k"), Some(vec![(b"key: v".to_vec(), b"ey".to_vec())]));
    let colls = vec![Collection { name: "c".to_string(), requests: vec![named(Some("ab"))] }];
    assert_eq!(
        request_name_suggestions_checked(&colls, "a"),
        Some(vec![(b"ab (c)".to_vec(), b"b".to_vec())])
    );
}
