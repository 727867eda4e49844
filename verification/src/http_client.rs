use vstd::prelude::*;
use vstd::utf8::encode_scalar;
use crate::field_edit::char_utf8;
use crate::model::{Cookie, Header, HttpMethod, PathParam, QueryParam, Request, spec_any_body, spec_method_name};
use crate::strutil::{
    append_chars, chars_of, join_strings, push_char, replace_all, spec_join_with, spec_replace,
    str_views, string_from_chars, spec_to_lowercase, to_lowercase, starts_with_str, str_eq,
    spec_contains_str, contains_str, concat,
};

verus! {

/// `url` with each enabled path parameter with a non-empty key put in place
/// of `:key` and then of `{key}`, parameters taken in order.
pub open spec fn spec_resolve_path_params(url: Seq<char>, ps: Seq<PathParam>) -> Seq<char>
    decreases ps.len(),
{
    if ps.len() == 0 {
        url
    } else {
        let r = spec_resolve_path_params(url, ps.drop_last());
        let p = ps.last();
        if p.enabled && p.key@.len() > 0 {
            spec_replace(
                spec_replace(r, seq![':'] + p.key@, p.value@),
                seq!['{'] + p.key@ + seq!['}'],
                p.value@,
            )
        } else {
            r
        }
    }
}

pub fn resolve_path_params(url: &str, params: &Vec<PathParam>) -> (r: String)
    ensures
        r@ == spec_resolve_path_params(url@, params@),
{
    let mut result = chars_of(url);
    let mut i: usize = 0;
    while i < params.len()
        invariant
            i <= params@.len(),
            result@ == spec_resolve_path_params(url@, params@.subrange(0, i as int)),
        decreases params@.len() - i,
    {
        proof {
            assert(params@.subrange(0, i + 1).drop_last() =~= params@.subrange(0, i as int));
        }
        let p = &params[i];
        let key = chars_of(p.key.as_str());
        if p.enabled && key.len() > 0 {
            let value = chars_of(p.value.as_str());
            let mut pat1: Vec<char> = Vec::new();
            pat1.push(':');
            append_chars(&mut pat1, &key);
            let mut pat2: Vec<char> = Vec::new();
            pat2.push('{');
            append_chars(&mut pat2, &key);
            pat2.push('}');
            proof {
                assert(pat1@ =~= seq![':'] + p.key@);
                assert(pat2@ =~= seq!['{'] + p.key@ + seq!['}']);
            }
            let r1 = replace_all(&result, &pat1, &value);
            result = replace_all(&r1, &pat2, &value);
        }
        i = i + 1;
    }
    proof {
        assert(params@.subrange(0, i as int) =~= params@);
    }
    string_from_chars(&result)
}

/// `s` safe inside single quotes in a shell: each `'` becomes `'\''`.
pub open spec fn spec_shell_escape(s: Seq<char>) -> Seq<char>
    decreases s.len(),
{
    if s.len() == 0 {
        s
    } else {
        spec_shell_escape(s.drop_last()) + if s.last() == '\'' {
            seq!['\'', '\\', '\'', '\'']
        } else {
            seq![s.last()]
        }
    }
}

/// Appends `s` escaped for single quotes to `out`.
fn push_shell_escaped(out: &mut String, s: &str)
    ensures
        final(out)@ == old(out)@ + spec_shell_escape(s@),
{
    let cs = chars_of(s);
    let mut i: usize = 0;
    let ghost base = out@;
    while i < cs.len()
        invariant
            i <= cs@.len(),
            cs@ == s@,
            out@ == base + spec_shell_escape(s@.subrange(0, i as int)),
        decreases cs@.len() - i,
    {
        proof {
            assert(s@.subrange(0, i + 1).drop_last() =~= s@.subrange(0, i as int));
        }
        let c = cs[i];
        if c == '\'' {
            push_char(out, '\'');
            push_char(out, '\\');
            push_char(out, '\'');
            push_char(out, '\'');
        } else {
            push_char(out, c);
        }
        i = i + 1;
        proof {
            let pre = spec_shell_escape(s@.subrange(0, i - 1));
            assert(out@ =~= base + spec_shell_escape(s@.subrange(0, i as int)));
        }
    }
    proof {
        assert(s@.subrange(0, i as int) =~= s@);
    }
}

/// Escape a string for safe use inside single quotes in a shell command.
pub fn shell_escape(s: &str) -> (r: String)
    ensures
        r@ == spec_shell_escape(s@),
{
    let mut out = String::new();
    push_shell_escaped(&mut out, s);
    out
}

/// Upper-case hexadecimal digit of `n < 16`.
pub open spec fn spec_hex_digit(n: int) -> char {
    if n < 10 { (n + 48) as char } else { (n + 55) as char }
}

/// `%XX` for every byte of `bs`.
pub open spec fn spec_pct_bytes(bs: Seq<u8>) -> Seq<char>
    decreases bs.len(),
{
    if bs.len() == 0 {
        Seq::empty()
    } else {
        spec_pct_bytes(bs.drop_last()) + seq!['%', spec_hex_digit((bs.last() / 16) as int), spec_hex_digit((bs.last() % 16) as int)]
    }
}

/// ASCII letters and digits.
pub open spec fn spec_is_ascii_alnum(c: char) -> bool {
    ('0' <= c <= '9') || ('A' <= c <= 'Z') || ('a' <= c <= 'z')
}

/// How one character is written in a query string.
pub open spec fn spec_pct_char(c: char) -> Seq<char> {
    if c == ' ' {
        seq!['%', '2', '0']
    } else if c == '&' {
        seq!['%', '2', '6']
    } else if c == '=' {
        seq!['%', '3', 'D']
    } else if c == '+' {
        seq!['%', '2', 'B']
    } else if c == '#' {
        seq!['%', '2', '3']
    } else if c == '%' {
        seq!['%', '2', '5']
    } else if spec_is_ascii_alnum(c) || c == '-' || c == '.' || c == '_' || c == '~' {
        seq![c]
    } else {
        spec_pct_bytes(encode_scalar(c as u32))
    }
}

/// Minimal percent-encoding of `s` for query strings.
pub open spec fn spec_percent_encode(s: Seq<char>) -> Seq<char>
    decreases s.len(),
{
    if s.len() == 0 {
        s
    } else {
        spec_percent_encode(s.drop_last()) + spec_pct_char(s.last())
    }
}

fn hex_digit(n: u8) -> (r: char)
    requires
        n < 16,
    ensures
        r == spec_hex_digit(n as int),
{
    if n < 10 { (n + 48) as char } else { (n + 55) as char }
}

fn push_pct_char(out: &mut String, c: char)
    ensures
        final(out)@ == old(out)@ + spec_pct_char(c),
{
    if c == ' ' {
        push_char(out, '%'); push_char(out, '2'); push_char(out, '0');
    } else if c == '&' {
        push_char(out, '%'); push_char(out, '2'); push_char(out, '6');
    } else if c == '=' {
        push_char(out, '%'); push_char(out, '3'); push_char(out, 'D');
    } else if c == '+' {
        push_char(out, '%'); push_char(out, '2'); push_char(out, 'B');
    } else if c == '#' {
        push_char(out, '%'); push_char(out, '2'); push_char(out, '3');
    } else if c == '%' {
        push_char(out, '%'); push_char(out, '2'); push_char(out, '5');
    } else if ('0' <= c && c <= '9') || ('A' <= c && c <= 'Z') || ('a' <= c && c <= 'z')
        || c == '-' || c == '.' || c == '_' || c == '~' {
        push_char(out, c);
    } else {
        let bs = char_utf8(c);
        let mut i: usize = 0;
        let ghost base = out@;
        while i < bs.len()
            invariant
                i <= bs@.len(),
                out@ == base + spec_pct_bytes(bs@.subrange(0, i as int)),
            decreases bs@.len() - i,
        {
            proof {
                assert(bs@.subrange(0, i + 1).drop_last() =~= bs@.subrange(0, i as int));
            }
            let b = bs[i];
            push_char(out, '%');
            push_char(out, hex_digit(b / 16));
            push_char(out, hex_digit(b % 16));
            i = i + 1;
            proof {
                assert(out@ =~= base + spec_pct_bytes(bs@.subrange(0, i as int)));
            }
        }
        proof {
            assert(bs@.subrange(0, i as int) =~= bs@);
        }
    }
}

/// Minimal percent-encoding for query string values in curl output.
pub fn percent_encode(s: &str) -> (r: String)
    ensures
        r@ == spec_percent_encode(s@),
{
    let cs = chars_of(s);
    let mut out = String::new();
    let mut i: usize = 0;
    while i < cs.len()
        invariant
            i <= cs@.len(),
            cs@ == s@,
            out@ == spec_percent_encode(s@.subrange(0, i as int)),
        decreases cs@.len() - i,
    {
        proof {
            assert(s@.subrange(0, i + 1).drop_last() =~= s@.subrange(0, i as int));
        }
        push_pct_char(&mut out, cs[i]);
        i = i + 1;
    }
    proof {
        assert(s@.subrange(0, i as int) =~= s@);
    }
    out
}

/// `name=value` of each enabled cookie with a non-empty name, in order.
pub open spec fn spec_cookie_pairs(cs: Seq<Cookie>) -> Seq<Seq<char>>
    decreases cs.len(),
{
    if cs.len() == 0 {
        Seq::empty()
    } else {
        let rest = spec_cookie_pairs(cs.drop_last());
        let c = cs.last();
        if c.enabled && c.name@.len() > 0 {
            rest.push(c.name@ + "="@ + c.value@)
        } else {
            rest
        }
    }
}

/// The value of the single `Cookie` header that merges the enabled cookies.
pub open spec fn spec_cookie_header(cs: Seq<Cookie>) -> Seq<char> {
    spec_join_with(spec_cookie_pairs(cs), "; "@)
}

/// The value of the single `Cookie` header that merges the enabled cookies
/// (`name=value` pairs joined by `; `).
pub fn cookie_header(cookies: &Vec<Cookie>) -> (r: String)
    ensures
        r@ == spec_cookie_header(cookies@),
{
    let mut pairs: Vec<String> = Vec::new();
    let mut i: usize = 0;
    while i < cookies.len()
        invariant
            i <= cookies@.len(),
            str_views(pairs@) == spec_cookie_pairs(cookies@.subrange(0, i as int)),
        decreases cookies@.len() - i,
    {
        proof {
            assert(cookies@.subrange(0, i + 1).drop_last() =~= cookies@.subrange(0, i as int));
        }
        let c = &cookies[i];
        if c.enabled && c.name.as_str().unicode_len() > 0 {
            let mut p = String::new();
            p.append(c.name.as_str());
            p.append("=");
            p.append(c.value.as_str());
            pairs.push(p);
            proof {
                assert(str_views(pairs@) =~= spec_cookie_pairs(cookies@.subrange(0, i as int)).push(c.name@ + "="@ + c.value@));
            }
        }
        i = i + 1;
    }
    proof {
        assert(cookies@.subrange(0, i as int) =~= cookies@);
    }
    join_strings(&pairs, "; ")
}

/// `key=value` (both percent-encoded) of each enabled query parameter with
/// a non-empty key, in order.
pub open spec fn spec_query_pairs(qs: Seq<QueryParam>) -> Seq<Seq<char>>
    decreases qs.len(),
{
    if qs.len() == 0 {
        Seq::empty()
    } else {
        let rest = spec_query_pairs(qs.drop_last());
        let q = qs.last();
        if q.enabled && q.key@.len() > 0 {
            rest.push(spec_percent_encode(q.key@) + "="@ + spec_percent_encode(q.value@))
        } else {
            rest
        }
    }
}

/// `-H 'name: value'` for each enabled header, in order.
pub open spec fn spec_header_parts(hs: Seq<Header>) -> Seq<Seq<char>>
    decreases hs.len(),
{
    if hs.len() == 0 {
        Seq::empty()
    } else {
        let rest = spec_header_parts(hs.drop_last());
        let h = hs.last();
        if h.enabled {
            rest.push("-H '"@ + spec_shell_escape(h.name@) + ": "@ + spec_shell_escape(h.value@) + "'"@)
        } else {
            rest
        }
    }
}

/// The URL the curl command requests: path parameters put in place, then
/// the query string of the enabled parameters.
pub open spec fn spec_curl_url(r: Request) -> Seq<char> {
    let base = spec_resolve_path_params(r.url@, r.path_params@);
    let qs = spec_query_pairs(r.query_params@);
    if qs.len() == 0 {
        base
    } else {
        base + "?"@ + spec_join_with(qs, "&"@)
    }
}

/// The pieces of the curl command, in order.
pub open spec fn spec_curl_parts(r: Request) -> Seq<Seq<char>> {
    let cookie = spec_cookie_header(r.cookies@);
    let cookie_part: Seq<Seq<char>> = if cookie.len() > 0 {
        seq!["-H 'Cookie: "@ + spec_shell_escape(cookie) + "'"@]
    } else {
        Seq::empty()
    };
    let body_part: Seq<Seq<char>> = if spec_any_body(r).is_some() {
        seq!["-d '"@ + spec_shell_escape(spec_any_body(r).unwrap()) + "'"@]
    } else {
        Seq::empty()
    };
    seq!["curl -X "@ + spec_method_name(r.method)] + spec_header_parts(r.headers@) + cookie_part + body_part
        + seq!["'"@ + spec_shell_escape(spec_curl_url(r)) + "'"@]
}

/// The request as a curl command, one option per line.
pub open spec fn spec_to_curl(r: Request) -> Seq<char> {
    spec_join_with(spec_curl_parts(r), " \\\n  "@)
}

fn query_string_pairs(qs: &Vec<QueryParam>) -> (r: Vec<String>)
    ensures
        str_views(r@) == spec_query_pairs(qs@),
{
    let mut pairs: Vec<String> = Vec::new();
    let mut i: usize = 0;
    while i < qs.len()
        invariant
            i <= qs@.len(),
            str_views(pairs@) == spec_query_pairs(qs@.subrange(0, i as int)),
        decreases qs@.len() - i,
    {
        proof {
            assert(qs@.subrange(0, i + 1).drop_last() =~= qs@.subrange(0, i as int));
        }
        let q = &qs[i];
        if q.enabled && q.key.as_str().unicode_len() > 0 {
            let mut p = percent_encode(q.key.as_str());
            p.append("=");
            let v = percent_encode(q.value.as_str());
            p.append(v.as_str());
            pairs.push(p);
            proof {
                assert(str_views(pairs@) =~= spec_query_pairs(qs@.subrange(0, i as int)).push(
                    spec_percent_encode(q.key@) + "="@ + spec_percent_encode(q.value@)));
            }
        }
        i = i + 1;
    }
    proof {
        assert(qs@.subrange(0, i as int) =~= qs@);
    }
    pairs
}

/// `'` + `s` escaped + `'` after `prefix`.
fn quoted(prefix: &str, s: &str) -> (r: String)
    ensures
        r@ == prefix@ + spec_shell_escape(s@) + "'"@,
{
    let mut p = String::new();
    p.append(prefix);
    push_shell_escaped(&mut p, s);
    p.append("'");
    p
}

/// The request as a curl command, one option per line.
pub fn to_curl(request: &Request) -> (r: String)
    ensures
        r@ == spec_to_curl(*request),
{
    let mut parts: Vec<String> = Vec::new();
    let mut first = String::new();
    first.append("curl -X ");
    first.append(request.method.as_str());
    parts.push(first);
    let mut i: usize = 0;
    while i < request.headers.len()
        invariant
            i <= request.headers@.len(),
            str_views(parts@) == seq!["curl -X "@ + spec_method_name(request.method)]
                + spec_header_parts(request.headers@.subrange(0, i as int)),
        decreases request.headers@.len() - i,
    {
        proof {
            assert(request.headers@.subrange(0, i + 1).drop_last() =~= request.headers@.subrange(0, i as int));
        }
        let h = &request.headers[i];
        if h.enabled {
            let mut p = String::new();
            p.append("-H '");
            push_shell_escaped(&mut p, h.name.as_str());
            p.append(": ");
            push_shell_escaped(&mut p, h.value.as_str());
            p.append("'");
            let ghost before = str_views(parts@);
            parts.push(p);
            proof {
                assert(str_views(parts@) =~= before.push(p@));
            }
        } else {
            proof {
                assert(str_views(parts@) =~= seq!["curl -X "@ + spec_method_name(request.method)]
                    + spec_header_parts(request.headers@.subrange(0, i + 1)));
            }
        }
        i = i + 1;
    }
    proof {
        assert(request.headers@.subrange(0, i as int) =~= request.headers@);
    }
    let cookie = cookie_header(&request.cookies);
    if cookie.as_str().unicode_len() > 0 {
        let p = quoted("-H 'Cookie: ", cookie.as_str());
        parts.push(p);
    }
    match request.any_body() {
        Some(b) => {
            let p = quoted("-d '", b.as_str());
            parts.push(p);
        },
        None => {},
    }
    let base = resolve_path_params(request.url.as_str(), &request.path_params);
    let pairs = query_string_pairs(&request.query_params);
    let url = if pairs.len() == 0 {
        base
    } else {
        let mut u = base;
        u.append("?");
        let q = join_strings(&pairs, "&");
        u.append(q.as_str());
        u
    };
    let last = quoted("'", url.as_str());
    parts.push(last);
    proof {
        assert(str_views(parts@) =~= spec_curl_parts(*request));
    }
    join_strings(&parts, " \\\n  ")
}

/// Requests go only to `http://` and `https://` URLs, whatever the case of
/// the scheme.
pub open spec fn spec_scheme_allowed(url: Seq<char>) -> bool {
    "http://"@.is_prefix_of(spec_to_lowercase(url)) || "https://"@.is_prefix_of(spec_to_lowercase(url))
}

/// Refuse a URL whose scheme is neither `http://` nor `https://`, with a
/// message that quotes it.
pub fn check_url_scheme(url: &str) -> (r: Result<(), String>)
    ensures
        r is Ok <==> spec_scheme_allowed(url@),
        r matches Err(msg) ==> msg@ == "Invalid URL scheme: only http:// and https:// are allowed\n\nGot: "@ + url@,
{
    let lower = to_lowercase(url);
    if starts_with_str(lower.as_str(), "http://") || starts_with_str(lower.as_str(), "https://") {
        Ok(())
    } else {
        Err(concat("Invalid URL scheme: only http:// and https:// are allowed\n\nGot: ", url))
    }
}

/// Content types whose body is shown as a summary instead of as text.
pub open spec fn spec_is_binary_content_type(ct: Seq<char>) -> bool {
    ||| "image/"@.is_prefix_of(ct)
    ||| "audio/"@.is_prefix_of(ct)
    ||| "video/"@.is_prefix_of(ct)
    ||| ct == "application/octet-stream"@
    ||| ct == "application/pdf"@
    ||| ct == "application/zip"@
}

/// Whether a response of content type `ct` is binary.
pub fn is_binary_content_type(ct: &str) -> (r: bool)
    ensures
        r == spec_is_binary_content_type(ct@),
{
    starts_with_str(ct, "image/") || starts_with_str(ct, "audio/") || starts_with_str(ct, "video/")
        || str_eq(ct, "application/octet-stream") || str_eq(ct, "application/pdf")
        || str_eq(ct, "application/zip")
}

/// What the diagnosis of a failed request reads of the error: its kind,
/// its message, and the message of its source (empty when it has none).
#[derive(Debug)]
pub struct ErrorFacts {
    pub builder: bool,
    pub connect: bool,
    pub timeout: bool,
    pub decode: bool,
    pub redirect: bool,
    pub message: String,
    pub source: String,
}

/// The cause of a failed connection named by its messages: DNS, then
/// TLS, then refusal, else none of these.
pub open spec fn spec_mentions_dns(source: Seq<char>, raw: Seq<char>) -> bool {
    spec_contains_str(source, "dns"@) || spec_contains_str(source, "resolve"@)
        || spec_contains_str(source, "Name or service not known"@) || spec_contains_str(raw, "dns"@)
}

pub open spec fn spec_mentions_tls(source: Seq<char>, raw: Seq<char>) -> bool {
    spec_contains_str(source, "ssl"@) || spec_contains_str(source, "tls"@) || spec_contains_str(source, "certificate"@)
        || spec_contains_str(source, "SSL"@) || spec_contains_str(source, "TLS"@)
        || spec_contains_str(source, "Certificate"@) || spec_contains_str(raw, "certificate"@)
        || spec_contains_str(raw, "SSL"@)
}

pub open spec fn spec_mentions_refused(source: Seq<char>, raw: Seq<char>) -> bool {
    spec_contains_str(source, "refused"@) || spec_contains_str(raw, "refused"@)
}

/// The human-readable diagnosis of a failed request.
pub open spec fn spec_classify_error(f: ErrorFacts) -> Seq<char> {
    let raw = f.message@;
    let src = f.source@;
    if f.builder {
        if spec_contains_str(raw, "invalid URL"@) || spec_contains_str(raw, "URL scheme"@) {
            "Invalid URL: check the URL format\n\n"@ + raw
        } else {
            "Request builder error: "@ + raw
        }
    } else if f.connect {
        if spec_mentions_dns(src, raw) {
            "DNS Error: could not resolve host\n\n"@ + raw
        } else if spec_mentions_tls(src, raw) {
            "SSL/TLS Error: certificate verification failed\nTip: toggle insecure mode with Ctrl+S\n\n"@ + raw
        } else if spec_mentions_refused(src, raw) {
            "Connection Refused: server is not listening on that port\n\n"@ + raw
        } else {
            "Connection Error: could not reach host\n\n"@ + raw
        }
    } else if f.timeout {
        "Timeout: server did not respond in time\n\n"@ + raw
    } else if f.decode {
        "Decode Error: could not read response body\n\n"@ + raw
    } else if f.redirect {
        "Too Many Redirects: exceeded redirect limit\n\n"@ + raw
    } else {
        "Request Error: "@ + raw
    }
}

/// Classify a failed request into a human-readable diagnostic message
/// (see [`spec_classify_error`]).
pub fn classify_error(f: &ErrorFacts) -> (r: String)
    ensures
        r@ == spec_classify_error(*f),
{
    let raw = f.message.as_str();
    let src = f.source.as_str();
    if f.builder {
        if contains_str(raw, "invalid URL") || contains_str(raw, "URL scheme") {
            return concat("Invalid URL: check the URL format\n\n", raw);
        }
        return concat("Request builder error: ", raw);
    }
    if f.connect {
        if contains_str(src, "dns") || contains_str(src, "resolve") || contains_str(src, "Name or service not known")
            || contains_str(raw, "dns") {
            return concat("DNS Error: could not resolve host\n\n", raw);
        }
        if contains_str(src, "ssl") || contains_str(src, "tls") || contains_str(src, "certificate")
            || contains_str(src, "SSL") || contains_str(src, "TLS") || contains_str(src, "Certificate")
            || contains_str(raw, "certificate") || contains_str(raw, "SSL") {
            return concat("SSL/TLS Error: certificate verification failed\nTip: toggle insecure mode with Ctrl+S\n\n", raw);
        }
        if contains_str(src, "refused") || contains_str(raw, "refused") {
            return concat("Connection Refused: server is not listening on that port\n\n", raw);
        }
        return concat("Connection Error: could not reach host\n\n", raw);
    }
    if f.timeout {
        return concat("Timeout: server did not respond in time\n\n", raw);
    }
    if f.decode {
        return concat("Decode Error: could not read response body\n\n", raw);
    }
    if f.redirect {
        return concat("Too Many Redirects: exceeded redirect limit\n\n", raw);
    }
    concat("Request Error: ", raw)
}

/// The enabled headers, name and value, in order.
pub open spec fn spec_enabled_headers(hs: Seq<Header>) -> Seq<(Seq<char>, Seq<char>)>
    decreases hs.len(),
{
    if hs.len() == 0 {
        Seq::empty()
    } else {
        let rest = spec_enabled_headers(hs.drop_last());
        if hs.last().enabled { rest.push((hs.last().name@, hs.last().value@)) } else { rest }
    }
}

/// The enabled query parameters, key and value, in order.
pub open spec fn spec_enabled_query(qs: Seq<QueryParam>) -> Seq<(Seq<char>, Seq<char>)>
    decreases qs.len(),
{
    if qs.len() == 0 {
        Seq::empty()
    } else {
        let rest = spec_enabled_query(qs.drop_last());
        if qs.last().enabled { rest.push((qs.last().key@, qs.last().value@)) } else { rest }
    }
}

/// Views of a list of string pairs.
pub open spec fn spec_string_pairs(v: Seq<(String, String)>) -> Seq<(Seq<char>, Seq<char>)> {
    Seq::new(v.len(), |i: int| (v[i].0@, v[i].1@))
}

/// What is sent for a request: method, URL, headers (the enabled ones,
/// then the merged `Cookie` header when there are cookies), enabled query
/// parameters, and the body.
#[derive(Debug)]
pub struct SendPlan {
    pub method: HttpMethod,
    pub url: String,
    pub headers: Vec<(String, String)>,
    pub query: Vec<(String, String)>,
    pub body: Option<String>,
}

/// The headers sent for `r`.
pub open spec fn spec_sent_headers(r: Request) -> Seq<(Seq<char>, Seq<char>)> {
    let hs = spec_enabled_headers(r.headers@);
    if spec_cookie_header(r.cookies@).len() > 0 {
        hs.push(("Cookie"@, spec_cookie_header(r.cookies@)))
    } else {
        hs
    }
}

fn enabled_headers(hs: &Vec<Header>) -> (r: Vec<(String, String)>)
    ensures
        spec_string_pairs(r@) == spec_enabled_headers(hs@),
{
    let mut out: Vec<(String, String)> = Vec::new();
    let mut i: usize = 0;
    while i < hs.len()
        invariant
            i <= hs@.len(),
            spec_string_pairs(out@) == spec_enabled_headers(hs@.subrange(0, i as int)),
        decreases hs@.len() - i,
    {
        proof {
            assert(hs@.subrange(0, i + 1).drop_last() =~= hs@.subrange(0, i as int));
        }
        if hs[i].enabled {
            let ghost before = out@;
            out.push((hs[i].name.clone(), hs[i].value.clone()));
            proof {
                assert(spec_string_pairs(out@) =~= spec_string_pairs(before).push((hs@[i as int].name@, hs@[i as int].value@)));
            }
        }
        i = i + 1;
    }
    proof {
        assert(hs@.subrange(0, i as int) =~= hs@);
    }
    out
}

fn enabled_query(qs: &Vec<QueryParam>) -> (r: Vec<(String, String)>)
    ensures
        spec_string_pairs(r@) == spec_enabled_query(qs@),
{
    let mut out: Vec<(String, String)> = Vec::new();
    let mut i: usize = 0;
    while i < qs.len()
        invariant
            i <= qs@.len(),
            spec_string_pairs(out@) == spec_enabled_query(qs@.subrange(0, i as int)),
        decreases qs@.len() - i,
    {
        proof {
            assert(qs@.subrange(0, i + 1).drop_last() =~= qs@.subrange(0, i as int));
        }
        if qs[i].enabled {
            let ghost before = out@;
            out.push((qs[i].key.clone(), qs[i].value.clone()));
            proof {
                assert(spec_string_pairs(out@) =~= spec_string_pairs(before).push((qs@[i as int].key@, qs@[i as int].value@)));
            }
        }
        i = i + 1;
    }
    proof {
        assert(qs@.subrange(0, i as int) =~= qs@);
    }
    out
}

/// What to send for `request`, or the refusal of its URL scheme.
pub fn plan_request(request: &Request) -> (r: Result<SendPlan, String>)
    ensures
        r is Ok <==> spec_scheme_allowed(request.url@),
        r matches Err(msg) ==> msg@ == "Invalid URL scheme: only http:// and https:// are allowed\n\nGot: "@ + request.url@,
        r matches Ok(p) ==> {
            &&& p.method == request.method
            &&& p.url@ == request.url@
            &&& spec_string_pairs(p.headers@) == spec_sent_headers(*request)
            &&& spec_string_pairs(p.query@) == spec_enabled_query(request.query_params@)
            &&& p.body.is_some() == spec_any_body(*request).is_some()
            &&& p.body.is_some() ==> p.body.unwrap()@ == spec_any_body(*request).unwrap()
        },
{
    match check_url_scheme(request.url.as_str()) {
        Err(e) => {
            return Err(e);
        },
        Ok(()) => {},
    }
    let mut headers = enabled_headers(&request.headers);
    let cookie = cookie_header(&request.cookies);
    if cookie.as_str().unicode_len() > 0 {
        let ghost before = headers@;
        headers.push((String::from_str("Cookie"), cookie));
        proof {
            assert(spec_string_pairs(headers@) =~= spec_string_pairs(before).push(("Cookie"@, spec_cookie_header(request.cookies@))));
        }
    }
    let body = match request.any_body() {
        Some(b) => Some(b.clone()),
        None => None,
    };
    Ok(SendPlan {
        method: request.method,
        url: request.url.clone(),
        headers,
        query: enabled_query(&request.query_params),
        body,
    })
}

/// Which of a request's bodies is the one being edited and sent.
#[derive(Clone, Copy, Debug, PartialEq, Eq, Structural)]
pub enum BodyKind {
    Json,
    Xml,
    Form,
    Raw,
}

/// The `kind` body of `r`.
pub open spec fn spec_body_slot(r: Request, kind: BodyKind) -> Option<String> {
    match kind {
        BodyKind::Json => r.body_json,
        BodyKind::Xml => r.body_xml,
        BodyKind::Form => r.body_form,
        BodyKind::Raw => r.body_raw,
    }
}

/// The text of the `kind` body of `r` (empty when it is unset).
pub open spec fn spec_body_text(r: Request, kind: BodyKind) -> Seq<char> {
    match spec_body_slot(r, kind) {
        Some(b) => b@,
        None => Seq::empty(),
    }
}

/// White space as `char::is_whitespace` has it: the characters with the
/// Unicode `White_Space` property.
pub open spec fn spec_is_whitespace(c: char) -> bool {
    let u = c as u32;
    (0x09 <= u <= 0x0d) || u == 0x20 || u == 0x85 || u == 0xa0 || u == 0x1680
        || (0x2000 <= u <= 0x200a) || u == 0x2028 || u == 0x2029 || u == 0x202f
        || u == 0x205f || u == 0x3000
}

fn is_whitespace(c: char) -> (r: bool)
    ensures
        r == spec_is_whitespace(c),
{
    let u = c as u32;
    (0x09 <= u && u <= 0x0d) || u == 0x20 || u == 0x85 || u == 0xa0 || u == 0x1680
        || (0x2000 <= u && u <= 0x200a) || u == 0x2028 || u == 0x2029 || u == 0x202f
        || u == 0x205f || u == 0x3000
}

/// `s` without its leading white space.
pub open spec fn spec_trim_start(s: Seq<char>) -> Seq<char>
    decreases s.len(),
{
    if s.len() > 0 && spec_is_whitespace(s[0]) { spec_trim_start(s.drop_first()) } else { s }
}

/// `s` without its trailing white space.
pub open spec fn spec_trim_end(s: Seq<char>) -> Seq<char>
    decreases s.len(),
{
    if s.len() > 0 && spec_is_whitespace(s.last()) { spec_trim_end(s.drop_last()) } else { s }
}

/// `s` without leading and trailing white space, as `str::trim` gives it.
pub open spec fn spec_trim(s: Seq<char>) -> Seq<char> {
    spec_trim_end(spec_trim_start(s))
}

/// `s` without leading and trailing white space.
pub fn trim(s: &str) -> (r: String)
    ensures
        r@ == spec_trim(s@),
{
    let cs = chars_of(s);
    let n = cs.len();
    let mut i: usize = 0;
    assert(cs@.subrange(0, n as int) =~= cs@);
    while i < n && is_whitespace(cs[i])
        invariant
            i <= n == cs@.len(),
            spec_trim_start(cs@) == spec_trim_start(cs@.subrange(i as int, n as int)),
        decreases n - i,
    {
        assert(cs@.subrange(i as int, n as int).drop_first() =~= cs@.subrange(i + 1, n as int));
        i = i + 1;
    }
    let mut j: usize = n;
    while j > i && is_whitespace(cs[j - 1])
        invariant
            i <= j <= n == cs@.len(),
            spec_trim_end(cs@.subrange(i as int, n as int)) == spec_trim_end(cs@.subrange(i as int, j as int)),
        decreases j - i,
    {
        assert(cs@.subrange(i as int, j as int).drop_last() =~= cs@.subrange(i as int, j - 1));
        j = j - 1;
    }
    let mut out: Vec<char> = Vec::new();
    let mut k: usize = i;
    while k < j
        invariant
            i <= k <= j <= n == cs@.len(),
            out@ == cs@.subrange(i as int, k as int),
        decreases j - k,
    {
        out.push(cs[k]);
        k = k + 1;
        assert(out@ =~= cs@.subrange(i as int, k as int));
    }
    proof {
        assert(spec_trim_start(cs@) == cs@.subrange(i as int, n as int));
        assert(spec_trim_end(cs@.subrange(i as int, j as int)) == cs@.subrange(i as int, j as int));
    }
    string_from_chars(out.as_slice())
}

/// `c` with an ASCII capital letter taken to lower case, as a number.
pub open spec fn spec_ascii_lower(c: char) -> u32 {
    if 65 <= c as u32 <= 90 { (c as u32 + 32) as u32 } else { c as u32 }
}

/// `a` and `b` are equal up to ASCII case, as `str::eq_ignore_ascii_case`
/// compares.
pub open spec fn spec_eq_ignore_ascii_case(a: Seq<char>, b: Seq<char>) -> bool {
    a.len() == b.len() && forall|k: int| 0 <= k < a.len() ==> spec_ascii_lower(#[trigger] a[k]) == spec_ascii_lower(b[k])
}

fn ascii_lower(c: char) -> (r: u32)
    ensures
        r == spec_ascii_lower(c),
{
    let u = c as u32;
    if 65 <= u && u <= 90 { u + 32 } else { u }
}

fn eq_ignore_ascii_case(a: &str, b: &str) -> (r: bool)
    ensures
        r == spec_eq_ignore_ascii_case(a@, b@),
{
    let x = chars_of(a);
    let y = chars_of(b);
    if x.len() != y.len() {
        return false;
    }
    let mut k: usize = 0;
    while k < x.len()
        invariant
            k <= x@.len() == y@.len(),
            x@ == a@ && y@ == b@,
            forall|m: int| 0 <= m < k ==> spec_ascii_lower(#[trigger] x@[m]) == spec_ascii_lower(y@[m]),
        decreases x@.len() - k,
    {
        if ascii_lower(x[k]) != ascii_lower(y[k]) {
            return false;
        }
        k = k + 1;
    }
    true
}

/// Whether an enabled header of `hs` is named `Content-Type`, in any ASCII
/// case.
pub open spec fn spec_has_content_type(hs: Seq<Header>) -> bool {
    exists|k: int| 0 <= k < hs.len() && (#[trigger] hs[k]).enabled && spec_eq_ignore_ascii_case(hs[k].name@, "content-type"@)
}

fn has_content_type(hs: &Vec<Header>) -> (r: bool)
    ensures
        r == spec_has_content_type(hs@),
{
    let mut k: usize = 0;
    while k < hs.len()
        invariant
            k <= hs@.len(),
            forall|m: int| 0 <= m < k ==> !((#[trigger] hs@[m]).enabled && spec_eq_ignore_ascii_case(hs@[m].name@, "content-type"@)),
        decreases hs@.len() - k,
    {
        if hs[k].enabled && eq_ignore_ascii_case(hs[k].name.as_str(), "content-type") {
            return true;
        }
        k = k + 1;
    }
    false
}

/// Get the request ready to send: the `kind` body, trimmed, is the only
/// body left, and none when it is blank; a body that is sent gets a
/// `Content-Type` header of `content_type` unless an enabled one is set.
pub fn prepare_body(req: &mut Request, kind: BodyKind, content_type: &str)
    requires
        old(req).headers@.len() < usize::MAX,
    ensures
        ({
            let (o, n) = (*old(req), *final(req));
            let body = spec_trim(spec_body_text(o, kind));
            &&& n == (Request {
                headers: n.headers, body_json: n.body_json, body_xml: n.body_xml,
                body_form: n.body_form, body_raw: n.body_raw, ..o
            })
            &&& if body.len() > 0 && !spec_has_content_type(o.headers@) {
                &&& n.headers@.len() == o.headers@.len() + 1
                &&& n.headers@.drop_last() == o.headers@
                &&& n.headers@.last().name@ == "Content-Type"@
                &&& n.headers@.last().value@ == content_type@
                &&& n.headers@.last().enabled
            } else {
                n.headers == o.headers
            }
            &&& forall|k: BodyKind| #![trigger spec_body_slot(n, k)] if k == kind && body.len() > 0 {
                spec_body_slot(n, k) matches Some(b) && b@ == body
            } else {
                spec_body_slot(n, k).is_none()
            }
        }),
{
    let text = match kind {
        BodyKind::Json => &req.body_json,
        BodyKind::Xml => &req.body_xml,
        BodyKind::Form => &req.body_form,
        BodyKind::Raw => &req.body_raw,
    };
    let body = match text {
        Some(b) => trim(b.as_str()),
        None => {
            proof {
                reveal_strlit("");
            }
            trim("")
        },
    };
    let nonempty = body.as_str().unicode_len() > 0;
    if nonempty && !has_content_type(&req.headers) {
        req.headers.push(Header { name: String::from_str("Content-Type"), value: String::from_str(content_type), enabled: true });
    }
    req.body_json = None;
    req.body_xml = None;
    req.body_form = None;
    req.body_raw = None;
    if nonempty {
        match kind {
            BodyKind::Json => req.body_json = Some(body),
            BodyKind::Xml => req.body_xml = Some(body),
            BodyKind::Form => req.body_form = Some(body),
            BodyKind::Raw => req.body_raw = Some(body),
        }
    }
}

/// What the screen shows of sending: whether a request is in flight,
/// since when, the last error and the status line.
#[derive(Debug)]
pub struct SendStatus {
    pub in_flight: bool,
    pub started_at: Option<std::time::Instant>,
    pub last_error: Option<String>,
    pub status: String,
}

impl SendStatus {
    /// Sending starts at `now`: in flight, no error, "Sending request...".
    pub fn begin(&mut self, now: std::time::Instant)
        ensures
            final(self).in_flight,
            final(self).started_at == Some(now),
            final(self).last_error.is_none(),
            final(self).status@ == "Sending request..."@,
    {
        self.in_flight = true;
        self.started_at = Some(now);
        self.last_error = None;
        self.status = String::from_str("Sending request...");
    }

    /// Resolving the request's references failed with `err`: nothing is
    /// in flight, `err` is the last error and the status reads "Error: {err}".
    pub fn fail(&mut self, err: String)
        ensures
            !final(self).in_flight,
            final(self).started_at == old(self).started_at,
            final(self).last_error.is_some() && final(self).last_error.unwrap()@ == err@,
            final(self).status@ == "Error: "@ + err@,
    {
        self.in_flight = false;
        self.status = crate::strutil::concat("Error: ", err.as_str());
        self.last_error = Some(err);
    }

    /// The request was cancelled: nothing in flight, no start time,
    /// "Request cancelled".
    pub fn cancel(&mut self)
        ensures
            !final(self).in_flight,
            final(self).started_at.is_none(),
            final(self).last_error == old(self).last_error,
            final(self).status@ == "Request cancelled"@,
    {
        self.in_flight = false;
        self.started_at = None;
        self.status = String::from_str("Request cancelled");
    }
}

} // verus!
