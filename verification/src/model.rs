use vstd::prelude::*;

verus! {

#[allow(non_camel_case_types, clippy::upper_case_acronyms)]
#[derive(Clone, Copy, PartialEq, Eq, Structural, Debug)]
pub enum HttpMethod {
    GET,
    POST,
    PUT,
    PATCH,
    DELETE,
    HEAD,
    OPTIONS,
}

/// The method's name as it goes on the wire.
pub open spec fn spec_method_name(m: HttpMethod) -> Seq<char> {
    match m {
        HttpMethod::GET => "GET"@,
        HttpMethod::POST => "POST"@,
        HttpMethod::PUT => "PUT"@,
        HttpMethod::PATCH => "PATCH"@,
        HttpMethod::DELETE => "DELETE"@,
        HttpMethod::HEAD => "HEAD"@,
        HttpMethod::OPTIONS => "OPTIONS"@,
    }
}

/// The next method in the cycle GET, POST, PUT, PATCH, DELETE, HEAD, OPTIONS.
pub open spec fn spec_next_method(m: HttpMethod) -> HttpMethod {
    match m {
        HttpMethod::GET => HttpMethod::POST,
        HttpMethod::POST => HttpMethod::PUT,
        HttpMethod::PUT => HttpMethod::PATCH,
        HttpMethod::PATCH => HttpMethod::DELETE,
        HttpMethod::DELETE => HttpMethod::HEAD,
        HttpMethod::HEAD => HttpMethod::OPTIONS,
        HttpMethod::OPTIONS => HttpMethod::GET,
    }
}

impl HttpMethod {
    pub fn as_str(&self) -> (r: &'static str)
        ensures
            r@ == spec_method_name(*self),
    {
        match self {
            HttpMethod::GET => "GET",
            HttpMethod::POST => "POST",
            HttpMethod::PUT => "PUT",
            HttpMethod::PATCH => "PATCH",
            HttpMethod::DELETE => "DELETE",
            HttpMethod::HEAD => "HEAD",
            HttpMethod::OPTIONS => "OPTIONS",
        }
    }

    /// The next method in the cycle GET, POST, PUT, PATCH, DELETE, HEAD, OPTIONS.
    pub fn next(&self) -> (r: HttpMethod)
        ensures
            r == spec_next_method(*self),
    {
        match self {
            HttpMethod::GET => HttpMethod::POST,
            HttpMethod::POST => HttpMethod::PUT,
            HttpMethod::PUT => HttpMethod::PATCH,
            HttpMethod::PATCH => HttpMethod::DELETE,
            HttpMethod::DELETE => HttpMethod::HEAD,
            HttpMethod::HEAD => HttpMethod::OPTIONS,
            HttpMethod::OPTIONS => HttpMethod::GET,
        }
    }

    /// The previous method in the same cycle.
    pub fn prev(&self) -> (r: HttpMethod)
        ensures
            spec_next_method(r) == *self,
    {
        match self {
            HttpMethod::GET => HttpMethod::OPTIONS,
            HttpMethod::POST => HttpMethod::GET,
            HttpMethod::PUT => HttpMethod::POST,
            HttpMethod::PATCH => HttpMethod::PUT,
            HttpMethod::DELETE => HttpMethod::PATCH,
            HttpMethod::HEAD => HttpMethod::DELETE,
            HttpMethod::OPTIONS => HttpMethod::HEAD,
        }
    }
}

#[derive(Clone, Debug)]
pub struct Header {
    pub name: String,
    pub value: String,
    pub enabled: bool,
}

#[derive(Clone, Debug)]
pub struct QueryParam {
    pub key: String,
    pub value: String,
    pub enabled: bool,
}

#[derive(Clone, Debug)]
pub struct Cookie {
    pub name: String,
    pub value: String,
    pub enabled: bool,
}

#[derive(Clone, Debug)]
pub struct PathParam {
    pub key: String,
    pub value: String,
    pub enabled: bool,
}

/// An HTTP request as a collection holds it.
#[derive(Clone, Debug)]
pub struct Request {
    pub name: Option<String>,
    pub method: HttpMethod,
    pub url: String,
    pub headers: Vec<Header>,
    pub query_params: Vec<QueryParam>,
    pub cookies: Vec<Cookie>,
    pub path_params: Vec<PathParam>,
    pub body_json: Option<String>,
    pub body_xml: Option<String>,
    pub body_form: Option<String>,
    pub body_raw: Option<String>,
}

/// `r` is a new request named `name`: an empty GET request with no URL,
/// items or body.
pub open spec fn spec_is_new_request(r: Request, name: Seq<char>) -> bool {
    &&& r.name matches Some(s) && s@ == name
    &&& r.method == HttpMethod::GET
    &&& r.url@.len() == 0
    &&& r.headers@.len() == 0 && r.query_params@.len() == 0
    &&& r.cookies@.len() == 0 && r.path_params@.len() == 0
    &&& r.body_json.is_none() && r.body_xml.is_none() && r.body_form.is_none() && r.body_raw.is_none()
}

/// A new, empty request named `name`.
pub fn new_named_request(name: String) -> (r: Request)
    ensures
        spec_is_new_request(r, name@),
{
    Request {
        name: Some(name),
        method: HttpMethod::GET,
        url: String::new(),
        headers: Vec::new(),
        query_params: Vec::new(),
        cookies: Vec::new(),
        path_params: Vec::new(),
        body_json: None,
        body_xml: None,
        body_form: None,
        body_raw: None,
    }
}

/// The body that is sent: the first of the JSON, XML, form and raw bodies
/// that is set.
pub open spec fn spec_any_body(r: Request) -> Option<Seq<char>> {
    if r.body_json.is_some() {
        Some(r.body_json.unwrap()@)
    } else if r.body_xml.is_some() {
        Some(r.body_xml.unwrap()@)
    } else if r.body_form.is_some() {
        Some(r.body_form.unwrap()@)
    } else if r.body_raw.is_some() {
        Some(r.body_raw.unwrap()@)
    } else {
        None
    }
}

impl Request {
    /// The body that is sent (see [`spec_any_body`]).
    pub fn any_body(&self) -> (r: Option<&String>)
        ensures
            r.is_some() == spec_any_body(*self).is_some(),
            r.is_some() ==> r.unwrap()@ == spec_any_body(*self).unwrap(),
    {
        match &self.body_json {
            Some(b) => { return Some(b); },
            None => {},
        }
        match &self.body_xml {
            Some(b) => { return Some(b); },
            None => {},
        }
        match &self.body_form {
            Some(b) => { return Some(b); },
            None => {},
        }
        match &self.body_raw {
            Some(b) => Some(b),
            None => None,
        }
    }
}

/// A named list of requests (one `.http` file).
#[derive(Clone, Debug)]
pub struct Collection {
    pub name: String,
    pub requests: Vec<Request>,
}

/// A received HTTP response.
#[derive(Debug)]
pub struct Response {
    pub status: u16,
    pub status_text: String,
    pub headers: Vec<(String, String)>,
    pub body: String,
    pub content_type: Option<String>,
    pub elapsed_ms: u64,
    pub size_bytes: usize,
    pub body_bytes: Option<Vec<u8>>,
}

pub open spec fn opt_str_eqv(a: Option<String>, b: Option<String>) -> bool {
    a.is_some() == b.is_some() && (a.is_some() ==> a.unwrap()@ == b.unwrap()@)
}

/// Two responses that hold the same values (strings compared by content).
pub open spec fn response_eqv(a: Response, b: Response) -> bool {
    &&& a.status == b.status
    &&& a.status_text@ == b.status_text@
    &&& crate::action::pairs_eqv(a.headers@, b.headers@)
    &&& a.body@ == b.body@
    &&& opt_str_eqv(a.content_type, b.content_type)
    &&& a.elapsed_ms == b.elapsed_ms
    &&& a.size_bytes == b.size_bytes
    &&& a.body_bytes.is_some() == b.body_bytes.is_some()
    &&& (a.body_bytes.is_some() ==> a.body_bytes.unwrap()@ == b.body_bytes.unwrap()@)
}

pub fn copy_opt_string(s: &Option<String>) -> (r: Option<String>)
    ensures
        opt_str_eqv(r, *s),
{
    match s {
        Some(x) => Some(x.clone()),
        None => None,
    }
}

impl Response {
    /// A copy holding the same values.
    pub fn copy(&self) -> (r: Response)
        ensures
            response_eqv(r, *self),
    {
        let mut hs: Vec<(String, String)> = Vec::new();
        let mut i: usize = 0;
        while i < self.headers.len()
            invariant
                i <= self.headers@.len(),
                hs@.len() == i,
                forall|k: int| 0 <= k < i ==> (#[trigger] hs@[k]).0@ == self.headers@[k].0@ && hs@[k].1@ == self.headers@[k].1@,
            decreases self.headers@.len() - i,
        {
            let a = self.headers[i].0.clone();
            let b = self.headers[i].1.clone();
            hs.push((a, b));
            i = i + 1;
        }
        let bytes = match &self.body_bytes {
            Some(v) => Some(crate::vim_buffer::copy_range(v.as_slice(), 0, v.len())),
            None => None,
        };
        proof {
            if self.body_bytes.is_some() {
                assert(self.body_bytes.unwrap()@.subrange(0, self.body_bytes.unwrap()@.len() as int) =~= self.body_bytes.unwrap()@);
            }
        }
        Response {
            status: self.status,
            status_text: self.status_text.clone(),
            headers: hs,
            body: self.body.clone(),
            content_type: copy_opt_string(&self.content_type),
            elapsed_ms: self.elapsed_ms,
            size_bytes: self.size_bytes,
            body_bytes: bytes,
        }
    }
}

} // verus!
