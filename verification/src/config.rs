use vstd::prelude::*;
use vstd::string::{StrSliceExecFns, StringExecFns};

verus! {

pub struct GeneralConfig {
    pub default_environment: Option<String>,
    pub http_file_dirs: Vec<String>,
    pub history_limit: usize,
    pub follow_redirects: bool,
    pub timeout_secs: u64,
    pub verify_ssl: bool,
    pub chain_cache_ttl: u64,
}

pub struct ThemeConfig {
    pub name: Option<String>,
    pub border_focused: Option<String>,
    pub border_unfocused: Option<String>,
    pub status_ok: Option<String>,
    pub status_client_error: Option<String>,
    pub status_server_error: Option<String>,
}

pub struct AppConfig {
    pub general: GeneralConfig,
    pub theme: ThemeConfig,
}

/// No default environment unless the configuration names one.
pub fn default_env() -> (r: Option<String>)
    ensures
        r.is_none(),
{
    None
}

/// Collections are looked for in the working directory.
pub fn default_http_dirs() -> (r: Vec<String>)
    ensures
        r@.len() == 1,
        r@[0]@ == "."@,
{
    let mut v: Vec<String> = Vec::new();
    v.push(String::from_str("."));
    v
}

pub fn default_history_limit() -> (r: usize)
    ensures
        r == 100,
{
    100
}

pub fn default_timeout() -> (r: u64)
    ensures
        r == 30,
{
    30
}

pub fn default_true() -> (r: bool)
    ensures
        r,
{
    true
}

/// Dependency responses are reused for 10 seconds.
pub fn default_chain_cache_ttl() -> (r: u64)
    ensures
        r == 10,
{
    10
}

/// What the configuration holds when the file does not say otherwise.
pub open spec fn spec_is_default_general(g: GeneralConfig) -> bool {
    &&& g.default_environment.is_none()
    &&& g.http_file_dirs@.len() == 1
    &&& g.http_file_dirs@[0]@ == "."@
    &&& g.history_limit == 100
    &&& g.follow_redirects
    &&& g.timeout_secs == 30
    &&& g.verify_ssl
    &&& g.chain_cache_ttl == 10
}

pub open spec fn spec_is_default_theme(t: ThemeConfig) -> bool {
    &&& t.name.is_none()
    &&& t.border_focused.is_none()
    &&& t.border_unfocused.is_none()
    &&& t.status_ok.is_none()
    &&& t.status_client_error.is_none()
    &&& t.status_server_error.is_none()
}

impl Default for GeneralConfig {
    fn default() -> (r: Self)
        ensures
            spec_is_default_general(r),
    {
        GeneralConfig {
            default_environment: default_env(),
            http_file_dirs: default_http_dirs(),
            history_limit: default_history_limit(),
            follow_redirects: true,
            timeout_secs: default_timeout(),
            verify_ssl: true,
            chain_cache_ttl: default_chain_cache_ttl(),
        }
    }
}

impl Default for ThemeConfig {
    fn default() -> (r: Self)
        ensures
            spec_is_default_theme(r),
    {
        ThemeConfig {
            name: None,
            border_focused: None,
            border_unfocused: None,
            status_ok: None,
            status_client_error: None,
            status_server_error: None,
        }
    }
}

impl Default for AppConfig {
    fn default() -> (r: Self)
        ensures
            spec_is_default_general(r.general),
            spec_is_default_theme(r.theme),
    {
        AppConfig { general: GeneralConfig::default(), theme: ThemeConfig::default() }
    }
}

/// `base` joined with the relative component `part`, as `Path::join` does:
/// a `/` goes between them unless `base` is empty or already ends with one.
pub open spec fn spec_path_join(base: Seq<char>, part: Seq<char>) -> Seq<char> {
    if base.len() == 0 {
        part
    } else if base.last() == '/' {
        base + part
    } else {
        base + "/"@ + part
    }
}

/// `base` joined with the relative component `part`.
pub fn path_join(base: &str, part: &str) -> (r: String)
    ensures
        r@ == spec_path_join(base@, part@),
{
    let n = base.unicode_len();
    let mut out = String::from_str(base);
    if n == 0 {
        return String::from_str(part);
    }
    if base.get_char(n - 1) != '/' {
        out.append("/");
    }
    out.append(part);
    out
}

/// The per-user configuration directory of the platform (`dirs::config_dir`),
/// as text (`to_string_lossy`: a path that is not UTF-8 comes out with
/// replacement characters, so such a directory is not named exactly). It
/// depends on the environment, so nothing is stated of it.
#[verifier::external_body]
fn os_config_dir() -> (r: Option<String>) {
    dirs::config_dir().map(|p| p.to_string_lossy().into_owned())
}

/// The per-user data directory of the platform (`dirs::data_dir`), as text
/// (`to_string_lossy`, as for the configuration directory). It depends on
/// the environment, so nothing is stated of it.
#[verifier::external_body]
fn os_data_dir() -> (r: Option<String>) {
    dirs::data_dir().map(|p| p.to_string_lossy().into_owned())
}

/// The application's directory under `base` (the working directory when
/// the platform has none).
pub open spec fn spec_app_dir(base: Option<String>) -> Seq<char> {
    spec_path_join(
        match base {
            Some(b) => b@,
            None => "."@,
        },
        "restui"@,
    )
}

/// The application's directory under `base` (`.` when there is none).
pub fn app_dir_under(base: Option<String>) -> (r: String)
    ensures
        r@ == spec_app_dir(base),
{
    match base {
        Some(b) => path_join(b.as_str(), "restui"),
        None => path_join(".", "restui"),
    }
}

/// `restui` under the platform's configuration directory.
pub fn config_dir() -> (r: String)
    ensures
        exists|base: Option<String>| r@ == spec_app_dir(base),
{
    let base = os_config_dir();
    let ghost b = base;
    let r = app_dir_under(base);
    proof {
        assert(r@ == spec_app_dir(b));
    }
    r
}

/// The configuration file, `config.toml` in [`config_dir`].
pub fn config_path() -> (r: String)
    ensures
        exists|base: Option<String>| r@ == spec_path_join(spec_app_dir(base), "config.toml"@),
{
    let base = os_config_dir();
    let ghost b = base;
    let d = app_dir_under(base);
    let r = path_join(d.as_str(), "config.toml");
    proof {
        assert(r@ == spec_path_join(spec_app_dir(b), "config.toml"@));
    }
    r
}

/// `restui` under the platform's data directory.
pub fn data_dir() -> (r: String)
    ensures
        exists|base: Option<String>| r@ == spec_app_dir(base),
{
    let base = os_data_dir();
    let ghost b = base;
    let r = app_dir_under(base);
    proof {
        assert(r@ == spec_app_dir(b));
    }
    r
}

} // verus!
