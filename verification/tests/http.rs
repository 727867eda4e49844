use restui::http_client::{
    check_url_scheme, classify_error, cookie_header, is_binary_content_type, percent_encode,
    plan_request, prepare_body, resolve_path_params, shell_escape, to_curl, trim, BodyKind, ErrorFacts,
};
use restui::model::{Cookie, Header, HttpMethod, PathParam, QueryParam, Request};

fn request(method: HttpMethod, url: &str) -> Request {
    Request {
        name: None,
        method,
        url: url.to_string(),
        headers: Vec::new(),
        query_params: Vec::new(),
        cookies: Vec::new(),
        path_params: Vec::new(),
        body_json: None,
        body_xml: None,
        body_form: None,
        body_raw: None,
    }
}

fn header(name: &str, value: &str, enabled: bool) -> Header {
    Header { name: name.to_string(), value: value.to_string(), enabled }
}

fn facts(message: &str, source: &str) -> ErrorFacts {
    ErrorFacts {
        builder: false,
        connect: false,
        timeout: false,
        decode: false,
        redirect: false,
        message: message.to_string(),
        source: source.to_string(),
    }
}

#[test]
fn path_params_fill_both_forms() {
    let params = vec![
        PathParam { key: "id".to_string(), value: "7".to_string(), enabled: true },
        PathParam { key: "x".to_string(), value: "9".to_string(), enabled: false },
        PathParam { key: String::new(), value: "0".to_string(), enabled: true },
    ];
    assert_eq!(resolve_path_params("/users/:id/{id}/:x", &params), "/users/7/7/:x");
}

#[test]
fn percent_encoding_of_query_text() {
    assert_eq!(percent_encode(" &=+#%"), "%20%26%3D%2B%23%25");
    assert_eq!(percent_encode("aZ9-._~"), "aZ9-._~");
    assert_eq!(percent_encode("/\u{e9}"), "%2F%C3%A9");
}

#[test]
fn shell_escaping_of_quotes() {
    assert_eq!(shell_escape("it's"), "it'\\''s");
    assert_eq!(shell_escape("plain"), "plain");
}

#[test]
fn cookies_merge_into_one_header() {
    let cookies = vec![
        Cookie { name: "a".to_string(), value: "1".to_string(), enabled: true },
        Cookie { name: "b".to_string(), value: "2".to_string(), enabled: false },
        Cookie { name: String::new(), value: "3".to_string(), enabled: true },
        Cookie { name: "c".to_string(), value: "4".to_string(), enabled: true },
    ];
    assert_eq!(cookie_header(&cookies), "a=1; c=4");
    assert_eq!(cookie_header(&Vec::new()), "");
}

#[test]
fn curl_command_for_a_request() {
    let mut r = request(HttpMethod::GET, "https://x.io/a");
    r.headers = vec![header("A", "b", true), header("C", "d", false)];
    r.cookies = vec![Cookie { name: "s".to_string(), value: "1".to_string(), enabled: true }];
    r.query_params = vec![QueryParam { key: "q".to_string(), value: "a b".to_string(), enabled: true }];
    assert_eq!(
        to_curl(&r),
        "curl -X GET \\\n  -H 'A: b' \\\n  -H 'Cookie: s=1' \\\n  'https://x.io/a?q=a%20b'"
    );
}

#[test]
fn curl_command_with_body_and_path_param() {
    let mut r = request(HttpMethod::POST, "https://x.io/u/:id");
    r.path_params = vec![PathParam { key: "id".to_string(), value: "5".to_string(), enabled: true }];
    r.body_json = Some("{\"a\":'1'}".to_string());
    assert_eq!(to_curl(&r), "curl -X POST \\\n  -d '{\"a\":'\\''1'\\''}' \\\n  'https://x.io/u/5'");
}

#[test]
fn url_scheme_is_checked() {
    assert!(check_url_scheme("https://example.com").is_ok());
    assert!(check_url_scheme("HTTP://EXAMPLE.COM").is_ok());
    assert_eq!(
        check_url_scheme("ftp://x"),
        Err("Invalid URL scheme: only http:// and https:// are allowed\n\nGot: ftp://x".to_string())
    );
}

#[test]
fn binary_content_types() {
    assert!(is_binary_content_type("image/png"));
    assert!(is_binary_content_type("application/pdf"));
    assert!(is_binary_content_type("application/zip"));
    assert!(!is_binary_content_type("application/json"));
    assert!(!is_binary_content_type("application/pdf; x=1"));
}

#[test]
fn error_diagnoses() {
    let mut f = facts("builder error: invalid URL", "");
    f.builder = true;
    assert_eq!(classify_error(&f), "Invalid URL: check the URL format\n\nbuilder error: invalid URL");
    let mut f = facts("bad header", "");
    f.builder = true;
    assert_eq!(classify_error(&f), "Request builder error: bad header");
    let mut f = facts("error sending request", "dns error: failed to lookup");
    f.connect = true;
    assert_eq!(classify_error(&f), "DNS Error: could not resolve host\n\nerror sending request");
    let mut f = facts("error sending request", "invalid peer certificate");
    f.connect = true;
    assert!(classify_error(&f).starts_with("SSL/TLS Error: certificate verification failed\nTip: toggle insecure mode with Ctrl+S"));
    let mut f = facts("error sending request", "Connection refused (os error 111)");
    f.connect = true;
    assert_eq!(classify_error(&f), "Connection Refused: server is not listening on that port\n\nerror sending request");
    let mut f = facts("error sending request", "");
    f.connect = true;
    assert_eq!(classify_error(&f), "Connection Error: could not reach host\n\nerror sending request");
    let mut f = facts("operation timed out", "");
    f.timeout = true;
    assert_eq!(classify_error(&f), "Timeout: server did not respond in time\n\noperation timed out");
    let mut f = facts("bad body", "");
    f.decode = true;
    assert_eq!(classify_error(&f), "Decode Error: could not read response body\n\nbad body");
    let mut f = facts("too many", "");
    f.redirect = true;
    assert_eq!(classify_error(&f), "Too Many Redirects: exceeded redirect limit\n\ntoo many");
    assert_eq!(classify_error(&facts("other", "")), "Request Error: other");
}

#[test]
fn request_plan_sends_enabled_parts() {
    let mut r = request(HttpMethod::PUT, "https://x.io");
    r.headers = vec![header("A", "1", true), header("B", "2", false)];
    r.cookies = vec![Cookie { name: "k".to_string(), value: "v".to_string(), enabled: true }];
    r.query_params = vec![
        QueryParam { key: "p".to_string(), value: "1".to_string(), enabled: true },
        QueryParam { key: "q".to_string(), value: "2".to_string(), enabled: false },
    ];
    r.body_raw = Some("raw".to_string());
    let plan = plan_request(&r).unwrap();
    assert_eq!(plan.method, HttpMethod::PUT);
    assert_eq!(plan.url, "https://x.io");
    assert_eq!(
        plan.headers,
        vec![("A".to_string(), "1".to_string()), ("Cookie".to_string(), "k=v".to_string())]
    );
    assert_eq!(plan.query, vec![("p".to_string(), "1".to_string())]);
    assert_eq!(plan.body, Some("raw".to_string()));
    assert!(plan_request(&request(HttpMethod::GET, "file:///etc")).is_err());
}

#[test]
fn trimming_drops_unicode_white_space_at_both_ends() {
    assert_eq!(trim("  \t{\"a\": 1}\n\u{3000}"), "{\"a\": 1}");
    assert_eq!(trim(" a b "), "a b");
    assert_eq!(trim(" \n "), "");
    assert_eq!(trim(""), "");
}

#[test]
fn preparing_keeps_only_the_active_body_and_adds_a_content_type() {
    let mut r = request(HttpMethod::POST, "http://x");
    r.body_json = Some("  {\"a\": 1}\n".to_string());
    r.body_raw = Some("raw".to_string());
    prepare_body(&mut r, BodyKind::Json, "application/json");
    assert_eq!(r.body_json.as_deref(), Some("{\"a\": 1}"));
    assert!(r.body_raw.is_none() && r.body_xml.is_none() && r.body_form.is_none());
    assert_eq!(r.headers.len(), 1);
    assert_eq!(r.headers[0].name, "Content-Type");
    assert_eq!(r.headers[0].value, "application/json");

    let mut r = request(HttpMethod::POST, "http://x");
    r.headers.push(Header { name: "content-TYPE".to_string(), value: "text/plain".to_string(), enabled: true });
    r.body_raw = Some("hi".to_string());
    prepare_body(&mut r, BodyKind::Raw, "text/plain");
    assert_eq!(r.headers.len(), 1);
    assert_eq!(r.body_raw.as_deref(), Some("hi"));

    let mut r = request(HttpMethod::POST, "http://x");
    r.headers.push(Header { name: "Content-Type".to_string(), value: "x".to_string(), enabled: false });
    r.body_json = Some("   ".to_string());
    prepare_body(&mut r, BodyKind::Json, "application/json");
    assert_eq!(r.headers.len(), 1);
    assert!(r.body_json.is_none());
}
