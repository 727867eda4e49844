use restui::action::Overlay;
use restui::cache::ResponseCache;
use restui::chain::{copy_name, history_key, resolving_start};
use restui::model::{Collection, Response};
use restui::overlay::OverlayState;

fn response(status: u16, body: &str) -> Response {
    Response {
        status,
        status_text: "OK".to_string(),
        headers: Vec::new(),
        body: body.to_string(),
        content_type: None,
        elapsed_ms: 1,
        size_bytes: body.len(),
        body_bytes: None,
    }
}

#[test]
fn cached_response_is_read_back() {
    let mut c = ResponseCache::new(2);
    c.insert("a/x".to_string(), response(200, "one"), 1);
    assert_eq!(c.get("a/x").unwrap().response.body, "one");
    c.insert("a/x".to_string(), response(201, "two"), 2);
    assert_eq!(c.entries.len(), 1);
    assert_eq!(c.get("a/x").unwrap().response.status, 201);
    assert!(c.get("a/y").is_none());
}

#[test]
fn oldest_response_is_evicted() {
    let mut c = ResponseCache::new(2);
    c.insert("k1".to_string(), response(200, "1"), 10);
    c.insert("k2".to_string(), response(200, "2"), 20);
    c.insert("k3".to_string(), response(200, "3"), 30);
    assert_eq!(c.entries.len(), 2);
    assert!(c.get("k1").is_none());
    assert_eq!(c.get("k3").unwrap().stored_at, 30);
    c.remove("k2");
    assert!(c.get("k2").is_none());
    assert_eq!(c.entries.len(), 1);
    c.clear();
    assert!(c.entries.is_empty());
}

#[test]
fn names_and_keys() {
    let colls = vec![Collection { name: "auth".to_string(), requests: Vec::new() }];
    assert_eq!(copy_name(&Some("Login".to_string())), "Login (copy)");
    assert_eq!(copy_name(&None), "New Request (copy)");
    assert_eq!(history_key(&colls, 0, &Some("login".to_string())), Some("auth/login".to_string()));
    assert_eq!(history_key(&colls, 3, &Some("login".to_string())), Some("_/login".to_string()));
    assert_eq!(history_key(&colls, 0, &None), None);
    assert_eq!(resolving_start(&colls, 0, &Some("me".to_string())), vec!["auth/me".to_string()]);
    assert_eq!(resolving_start(&colls, 9, &Some("me".to_string())), vec!["/me".to_string()]);
    assert!(resolving_start(&colls, 0, &None).is_empty());
}

#[test]
fn environment_selector_confirm() {
    let mut s = OverlayState::new();
    s.open(Overlay::EnvironmentSelector, Some(1));
    assert_eq!(s.confirm_env_selector(3), Some(1));
    assert!(s.overlay.is_none());
    s.open(Overlay::EnvironmentSelector, Some(5));
    assert_eq!(s.confirm_env_selector(3), None);
}
