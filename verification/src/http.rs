//! HTTP request models and network client configuration.
use vstd::prelude::*;
use std::time::Duration;
use crate::text::{
    ascii_lowered, ascii_uppered, chars_of, is_ascii_text, is_suffix_seq, lowercase, seq_eq, str_eq,
    to_lowercase, to_uppercase, uppercase, ends_with,
};

verus! {

/// Standard and custom HTTP methods.
#[derive(Debug, Clone, PartialEq, Eq, Hash)]
pub enum HttpMethod {
    Get,
    Post,
    Put,
    Patch,
    Delete,
    Head,
    Options,
    Custom(String),
}

/// The name of a method as sent on the wire.
pub open spec fn method_text(m: HttpMethod) -> Seq<char> {
    match m {
        HttpMethod::Get => "GET"@,
        HttpMethod::Post => "POST"@,
        HttpMethod::Put => "PUT"@,
        HttpMethod::Patch => "PATCH"@,
        HttpMethod::Delete => "DELETE"@,
        HttpMethod::Head => "HEAD"@,
        HttpMethod::Options => "OPTIONS"@,
        HttpMethod::Custom(s) => s@,
    }
}

/// The standard method whose name is `u`, if any.
pub open spec fn standard_method(u: Seq<char>) -> Option<HttpMethod> {
    if u == "GET"@ {
        Some(HttpMethod::Get)
    } else if u == "POST"@ {
        Some(HttpMethod::Post)
    } else if u == "PUT"@ {
        Some(HttpMethod::Put)
    } else if u == "PATCH"@ {
        Some(HttpMethod::Patch)
    } else if u == "DELETE"@ {
        Some(HttpMethod::Delete)
    } else if u == "HEAD"@ {
        Some(HttpMethod::Head)
    } else if u == "OPTIONS"@ {
        Some(HttpMethod::Options)
    } else {
        None
    }
}

impl HttpMethod {
    pub fn as_str(&self) -> (r: &str)
        ensures
            r@ == method_text(*self),
    {
        match self {
            HttpMethod::Get => "GET",
            HttpMethod::Post => "POST",
            HttpMethod::Put => "PUT",
            HttpMethod::Patch => "PATCH",
            HttpMethod::Delete => "DELETE",
            HttpMethod::Head => "HEAD",
            HttpMethod::Options => "OPTIONS",
            HttpMethod::Custom(s) => s.as_str(),
        }
    }

    /// The method named `s`, ignoring case; any other name is kept as a
    /// custom method, as written.
    pub fn parse(s: &str) -> (r: Self)
        ensures
            match standard_method(uppercase(s@)) {
                Some(m) => r == m,
                None => r matches HttpMethod::Custom(c) && c@ == s@,
            },
            is_ascii_text(s@) ==> match standard_method(ascii_uppered(s@)) {
                Some(m) => r == m,
                None => r matches HttpMethod::Custom(c) && c@ == s@,
            },
    {
        let upper = to_uppercase(s);
        let u = upper.as_str();
        if str_eq(u, "GET") {
            HttpMethod::Get
        } else if str_eq(u, "POST") {
            HttpMethod::Post
        } else if str_eq(u, "PUT") {
            HttpMethod::Put
        } else if str_eq(u, "PATCH") {
            HttpMethod::Patch
        } else if str_eq(u, "DELETE") {
            HttpMethod::Delete
        } else if str_eq(u, "HEAD") {
            HttpMethod::Head
        } else if str_eq(u, "OPTIONS") {
            HttpMethod::Options
        } else {
            HttpMethod::Custom(s.to_owned())
        }
    }
}

/// A standard method printed and parsed back, in capitals or in lower case,
/// is the same method: its name is ASCII, and raising the case of the name
/// or of its lowered form gives the standard name again.
pub proof fn law_method_round_trip(m: HttpMethod)
    requires
        !(m is Custom),
    ensures
        is_ascii_text(method_text(m)),
        is_ascii_text(ascii_lowered(method_text(m))),
        standard_method(ascii_uppered(method_text(m))) == Some(m),
        standard_method(ascii_uppered(ascii_lowered(method_text(m)))) == Some(m),
{
    reveal_strlit("GET");
    reveal_strlit("POST");
    reveal_strlit("PUT");
    reveal_strlit("PATCH");
    reveal_strlit("DELETE");
    reveal_strlit("HEAD");
    reveal_strlit("OPTIONS");
    let t = method_text(m);
    assert("PUT"@[0] != "GET"@[0]);
    assert("HEAD"@[0] != "POST"@[0]);
    assert(standard_method(t) == Some(m));
    assert(ascii_uppered(t) =~= t);
    assert(ascii_uppered(ascii_lowered(t)) =~= t);
}

impl HttpMethod {
    pub fn copy(&self) -> (r: Self)
        ensures
            r == *self,
    {
        match self {
            HttpMethod::Get => HttpMethod::Get,
            HttpMethod::Post => HttpMethod::Post,
            HttpMethod::Put => HttpMethod::Put,
            HttpMethod::Patch => HttpMethod::Patch,
            HttpMethod::Delete => HttpMethod::Delete,
            HttpMethod::Head => HttpMethod::Head,
            HttpMethod::Options => HttpMethod::Options,
            HttpMethod::Custom(s) => HttpMethod::Custom(s.clone()),
        }
    }
}

impl std::str::FromStr for HttpMethod {
    type Err = std::convert::Infallible;

    fn from_str(s: &str) -> (r: Result<Self, Self::Err>)
        ensures
            match standard_method(uppercase(s@)) {
                Some(m) => r == Ok::<HttpMethod, std::convert::Infallible>(m),
                None => r matches Ok(HttpMethod::Custom(c)) && c@ == s@,
            },
    {
        Ok(HttpMethod::parse(s))
    }
}

/// Key-value query parameter with an enable toggle.
#[derive(Debug, Clone, PartialEq, Eq)]
pub struct QueryParam {
    pub key: String,
    pub value: String,
    pub enabled: bool,
    pub description: Option<String>,
}

/// Key-value HTTP header with an enable toggle and a secret flag.
#[derive(Debug, Clone, PartialEq, Eq)]
pub struct HeaderEntry {
    pub name: String,
    pub value: String,
    pub enabled: bool,
    pub is_secret: bool,
    pub description: Option<String>,
}

/// HTTP request body payload variants; `Empty` is a request without body.
#[derive(Debug, Clone, PartialEq, Eq, Default)]
pub enum HttpBody {
    #[default]
    Empty,
    Raw { content: String, content_type: String },
    Json { json_content: String },
    FormUrlEncoded { fields: Vec<QueryParam> },
    Multipart { fields: Vec<MultipartField> },
    Binary { file_path: String },
}

#[derive(Debug, Clone, PartialEq, Eq)]
pub struct MultipartField {
    pub name: String,
    pub value: String,
    pub is_file: bool,
    pub content_type: Option<String>,
}

/// An HTTP request: method, URL as written, parameters, headers and body.
#[derive(Debug, Clone, PartialEq, Eq)]
pub struct HttpRequest {
    pub method: HttpMethod,
    pub raw_url: String,
    pub params: Vec<QueryParam>,
    pub headers: Vec<HeaderEntry>,
    pub body: HttpBody,
}

impl HttpRequest {
    /// A request with no parameters, headers or body.
    pub fn new(method: HttpMethod, url: &str) -> (r: Self)
        ensures
            r.method == method,
            r.raw_url@ == url@,
            r.params@.len() == 0,
            r.headers@.len() == 0,
            r.body is Empty,
    {
        HttpRequest {
            method,
            raw_url: url.to_owned(),
            params: Vec::new(),
            headers: Vec::new(),
            body: HttpBody::Empty,
        }
    }
}

#[verifier::external_type_specification]
#[verifier::external_body]
pub struct ExUrlParseError(url::ParseError);

/// The text of the URL that `url::Url::parse` makes of `raw`; `None` when
/// it does not parse.
pub uninterp spec fn url_text(raw: Seq<char>) -> Option<Seq<char>>;

/// The decoded query pairs of the URL that `url::Url::parse` makes of
/// `raw`; `None` when it does not parse.
pub uninterp spec fn url_query_pairs(raw: Seq<char>) -> Option<Seq<(Seq<char>, Seq<char>)>>;

/// The text of the URL parsed from `raw` once its query is replaced by the
/// form encoding of `pairs`; `None` when `raw` does not parse.
pub uninterp spec fn url_with_query(raw: Seq<char>, pairs: Seq<(Seq<char>, Seq<char>)>) -> Option<Seq<char>>;

pub open spec fn pair_views(p: Seq<(String, String)>) -> Seq<(Seq<char>, Seq<char>)> {
    p.map_values(|kv: (String, String)| (kv.0@, kv.1@))
}

/// The key and value of each enabled parameter, in order.
pub open spec fn enabled_pairs(params: Seq<QueryParam>) -> Seq<(Seq<char>, Seq<char>)>
    decreases params.len(),
{
    if params.len() == 0 {
        Seq::empty()
    } else if params.last().enabled {
        enabled_pairs(params.drop_last()).push((params.last().key@, params.last().value@))
    } else {
        enabled_pairs(params.drop_last())
    }
}

/// The URL that is sent: the URL as written when there are no parameters;
/// otherwise its query pairs followed by the enabled parameters, encoded
/// again as its query.
pub open spec fn resolved_url_spec(raw: Seq<char>, params: Seq<QueryParam>) -> Option<Seq<char>> {
    if params.len() == 0 {
        url_text(raw)
    } else {
        match url_query_pairs(raw) {
            Some(pairs) => url_with_query(raw, pairs + enabled_pairs(params)),
            None => None,
        }
    }
}

/// Parses `raw` with `url::Url::parse` and renders it; the result is named
/// `url_text`.
#[verifier::external_body]
fn parse_url_text(raw: &str) -> (r: Result<String, url::ParseError>)
    ensures
        match r {
            Ok(s) => url_text(raw@) == Some(s@),
            Err(_) => url_text(raw@) is None,
        },
{
    url::Url::parse(raw).map(String::from)
}

/// Parses `raw` with `url::Url::parse` and takes its decoded query pairs
/// with `query_pairs`; the result is named `url_query_pairs`.
#[verifier::external_body]
fn parse_query_pairs(raw: &str) -> (r: Result<Vec<(String, String)>, url::ParseError>)
    ensures
        match r {
            Ok(p) => url_query_pairs(raw@) == Some(pair_views(p@)),
            Err(_) => url_query_pairs(raw@) is None,
        },
{
    url::Url::parse(raw).map(|u| u.query_pairs().into_owned().collect())
}

/// Parses `raw` with `url::Url::parse`, clears its query with
/// `query_pairs_mut` and appends `pairs`; the result is named
/// `url_with_query`.
#[verifier::external_body]
fn replace_query(raw: &str, pairs: &Vec<(String, String)>) -> (r: Result<String, url::ParseError>)
    ensures
        match r {
            Ok(s) => url_with_query(raw@, pair_views(pairs@)) == Some(s@),
            Err(_) => url_with_query(raw@, pair_views(pairs@)) is None,
        },
{
    let mut u = url::Url::parse(raw)?;
    u.query_pairs_mut().clear().extend_pairs(pairs.iter());
    Ok(String::from(u))
}

/// The URL of `raw` with the enabled parameters appended to its query.
pub fn resolved_url(raw: &str, params: &Vec<QueryParam>) -> (r: Result<String, url::ParseError>)
    ensures
        match r {
            Ok(s) => resolved_url_spec(raw@, params@) == Some(s@),
            Err(_) => resolved_url_spec(raw@, params@) is None,
        },
{
    if params.len() == 0 {
        return parse_url_text(raw);
    }
    let mut pairs = parse_query_pairs(raw)?;
    let ghost existing = pair_views(pairs@);
    let mut i: usize = 0;
    while i < params.len()
        invariant
            i <= params.len(),
            pair_views(pairs@) == existing + enabled_pairs(params@.take(i as int)),
        decreases params.len() - i,
    {
        assert(params@.take(i + 1).drop_last() =~= params@.take(i as int));
        if params[i].enabled {
            let ghost before = pairs@;
            pairs.push((params[i].key.clone(), params[i].value.clone()));
            assert(pair_views(pairs@) =~= pair_views(before).push(
                (params@[i as int].key@, params@[i as int].value@),
            ));
        }
        i = i + 1;
    }
    assert(params@.take(i as int) =~= params@);
    replace_query(raw, &pairs)
}

impl HttpRequest {
    /// The URL with the enabled parameters appended to its query.
    pub fn build_resolved_url(&self) -> (r: Result<String, url::ParseError>)
        ensures
            match r {
                Ok(s) => resolved_url_spec(self.raw_url@, self.params@) == Some(s@),
                Err(_) => resolved_url_spec(self.raw_url@, self.params@) is None,
            },
    {
        resolved_url(self.raw_url.as_str(), &self.params)
    }
}

/// No header name occurs twice.
pub open spec fn names_unique(h: Seq<(String, String)>) -> bool {
    forall|a: int, b: int| 0 <= a < b < h.len() ==> (#[trigger] h[a]).0@ != (#[trigger] h[b]).0@
}

/// An HTTP response: status, headers in the order received (each name once,
/// `names_unique`, as `record_response_header` keeps them), body and metrics.
#[derive(Debug, Clone, PartialEq)]
pub struct HttpResponse {
    pub status_code: u16,
    pub status_text: String,
    pub headers: Vec<(String, String)>,
    pub body_bytes: Vec<u8>,
    pub duration_ms: u64,
    pub size_bytes: usize,
    pub http_version: String,
}

pub ghost struct HttpResponseView {
    pub status_code: u16,
    pub status_text: Seq<char>,
    pub headers: Seq<(String, String)>,
    pub body_bytes: Seq<u8>,
    pub duration_ms: u64,
    pub size_bytes: usize,
    pub http_version: Seq<char>,
}

impl View for HttpResponse {
    type V = HttpResponseView;

    open spec fn view(&self) -> HttpResponseView {
        HttpResponseView {
            status_code: self.status_code,
            status_text: self.status_text@,
            headers: self.headers@,
            body_bytes: self.body_bytes@,
            duration_ms: self.duration_ms,
            size_bytes: self.size_bytes,
            http_version: self.http_version@,
        }
    }
}

impl HttpResponse {
    pub fn copy(&self) -> (r: Self)
        ensures
            r@ == self@,
    {
        let mut headers: Vec<(String, String)> = Vec::new();
        let mut i: usize = 0;
        while i < self.headers.len()
            invariant
                i <= self.headers.len(),
                headers@ == self.headers@.take(i as int),
            decreases self.headers.len() - i,
        {
            let (k, v) = &self.headers[i];
            headers.push((k.clone(), v.clone()));
            assert(self.headers@.take(i + 1) =~= self.headers@.take(i as int).push(self.headers@[i as int]));
            i = i + 1;
        }
        assert(self.headers@.take(i as int) =~= self.headers@);
        let mut body: Vec<u8> = Vec::new();
        let mut j: usize = 0;
        while j < self.body_bytes.len()
            invariant
                j <= self.body_bytes.len(),
                body@ == self.body_bytes@.take(j as int),
            decreases self.body_bytes.len() - j,
        {
            body.push(self.body_bytes[j]);
            assert(self.body_bytes@.take(j + 1) =~= self.body_bytes@.take(j as int).push(self.body_bytes@[j as int]));
            j = j + 1;
        }
        assert(self.body_bytes@.take(j as int) =~= self.body_bytes@);
        HttpResponse {
            status_code: self.status_code,
            status_text: self.status_text.clone(),
            headers,
            body_bytes: body,
            duration_ms: self.duration_ms,
            size_bytes: self.size_bytes,
            http_version: self.http_version.clone(),
        }
    }
}

// ---------------------------------------------------------------------------
// Client configuration
// ---------------------------------------------------------------------------

/// Redirect policy configuration.
#[derive(Debug, Clone, PartialEq, Eq)]
pub struct RedirectPolicy {
    pub follow: bool,
    pub max_redirects: usize,
    pub strip_auth_on_cross_origin: bool,
}

impl Default for RedirectPolicy {
    /// Follow up to ten redirects, stripping credentials across origins.
    fn default() -> (r: Self)
        ensures
            r.follow,
            r.max_redirects == 10,
            r.strip_auth_on_cross_origin,
    {
        RedirectPolicy { follow: true, max_redirects: 10, strip_auth_on_cross_origin: true }
    }
}

/// A recorded step in a redirect chain.
#[derive(Debug, Clone, PartialEq, Eq)]
pub struct RedirectStep {
    pub url: String,
    pub status_code: u16,
}

/// Proxy routing configuration.
#[derive(Debug, Clone, PartialEq, Eq)]
pub struct ProxyConfig {
    pub enabled: bool,
    pub http_proxy: Option<String>,
    pub https_proxy: Option<String>,
    pub no_proxy: Vec<String>,
}

impl Default for ProxyConfig {
    /// Disabled, with no proxies and no exclusions.
    fn default() -> (r: Self)
        ensures
            !r.enabled,
            r.http_proxy is None,
            r.https_proxy is None,
            r.no_proxy@.len() == 0,
    {
        ProxyConfig { enabled: false, http_proxy: None, https_proxy: None, no_proxy: Vec::new() }
    }
}

/// Whether a lowercased `no_proxy` pattern excludes a lowercased host: `*`
/// excludes every host, a pattern starting with `.` excludes the hosts ending
/// with it, and any other pattern excludes exactly that host.
pub open spec fn no_proxy_match(pattern: Seq<char>, host: Seq<char>) -> bool {
    if pattern == "*"@ {
        true
    } else if pattern.len() > 0 && pattern[0] == '.' {
        is_suffix_seq(pattern, host)
    } else {
        host == pattern
    }
}

impl ProxyConfig {
    /// Whether `host` matches the `no_proxy` exclusion list, ignoring case.
    pub fn is_match_no_proxy(&self, host: &str) -> (r: bool)
        ensures
            r == exists|i: int|
                0 <= i < self.no_proxy@.len() && no_proxy_match(
                    lowercase(#[trigger] self.no_proxy@[i]@),
                    lowercase(host@),
                ),
    {
        let h = chars_of(to_lowercase(host).as_str());
        let star = chars_of("*");
        let mut i: usize = 0;
        while i < self.no_proxy.len()
            invariant
                i <= self.no_proxy.len(),
                h@ == lowercase(host@),
                star@ == "*"@,
                forall|k: int|
                    0 <= k < i ==> !no_proxy_match(
                        lowercase(#[trigger] self.no_proxy@[k]@),
                        lowercase(host@),
                    ),
            decreases self.no_proxy.len() - i,
        {
            let p = chars_of(to_lowercase(self.no_proxy[i].as_str()).as_str());
            let hit = if seq_eq(&p, &star) {
                true
            } else if p.len() > 0 && p[0] == '.' {
                ends_with(&h, &p)
            } else {
                seq_eq(&h, &p)
            };
            if hit {
                return true;
            }
            i = i + 1;
        }
        false
    }
}

/// TLS security configuration.
#[derive(Debug, Clone, PartialEq, Eq)]
pub struct TlsConfig {
    pub verify_ssl: bool,
    pub custom_ca_cert_path: Option<String>,
}

impl Default for TlsConfig {
    /// Certificates verified, no custom authority.
    fn default() -> (r: Self)
        ensures
            r.verify_ssl,
            r.custom_ca_cert_path is None,
    {
        TlsConfig { verify_ssl: true, custom_ca_cert_path: None }
    }
}

/// `Duration` is `Copy`: its `clone` gives back the same span.
pub assume_specification[ <std::time::Duration as std::clone::Clone>::clone ](
    d: &std::time::Duration,
) -> (r: std::time::Duration)
    ensures
        r == *d,
;

/// The span that `Duration::from_secs` makes of a number of seconds.
pub uninterp spec fn whole_seconds(secs: u64) -> Duration;

/// `Duration::from_secs`: a span of `secs` whole seconds; the span is named
/// `whole_seconds`.
#[verifier::external_body]
fn seconds(secs: u64) -> (d: Duration)
    ensures
        d == whole_seconds(secs),
{
    Duration::from_secs(secs)
}

/// Options from which the HTTP client is built.
#[derive(Debug, Clone)]
pub struct NetworkClientBuilder {
    pub timeout: Duration,
    pub connect_timeout: Duration,
    pub redirect_policy: RedirectPolicy,
    pub proxy_config: ProxyConfig,
    pub tls_config: TlsConfig,
}

impl NetworkClientBuilder {
    /// Default options: 30 s timeout, 10 s connect timeout, the default
    /// redirect, proxy and TLS settings.
    pub fn new() -> (r: Self)
        ensures
            r.redirect_policy.follow && r.redirect_policy.max_redirects == 10
                && r.redirect_policy.strip_auth_on_cross_origin,
            !r.proxy_config.enabled && r.proxy_config.http_proxy is None
                && r.proxy_config.https_proxy is None && r.proxy_config.no_proxy@.len() == 0,
            r.tls_config.verify_ssl && r.tls_config.custom_ca_cert_path is None,
            r.timeout == whole_seconds(30),
            r.connect_timeout == whole_seconds(10),
    {
        NetworkClientBuilder {
            timeout: seconds(30),
            connect_timeout: seconds(10),
            redirect_policy: RedirectPolicy::default(),
            proxy_config: ProxyConfig::default(),
            tls_config: TlsConfig::default(),
        }
    }

    pub fn with_timeout(self, timeout: Duration) -> (r: Self)
        ensures
            r == (NetworkClientBuilder { timeout, ..self }),
    {
        NetworkClientBuilder { timeout, ..self }
    }

    pub fn with_connect_timeout(self, timeout: Duration) -> (r: Self)
        ensures
            r == (NetworkClientBuilder { connect_timeout: timeout, ..self }),
    {
        NetworkClientBuilder { connect_timeout: timeout, ..self }
    }

    pub fn with_redirect_policy(self, policy: RedirectPolicy) -> (r: Self)
        ensures
            r == (NetworkClientBuilder { redirect_policy: policy, ..self }),
    {
        NetworkClientBuilder { redirect_policy: policy, ..self }
    }

    pub fn with_proxy(self, proxy: ProxyConfig) -> (r: Self)
        ensures
            r == (NetworkClientBuilder { proxy_config: proxy, ..self }),
    {
        NetworkClientBuilder { proxy_config: proxy, ..self }
    }

    pub fn with_tls(self, tls: TlsConfig) -> (r: Self)
        ensures
            r == (NetworkClientBuilder { tls_config: tls, ..self }),
    {
        NetworkClientBuilder { tls_config: tls, ..self }
    }
}

} // verus!
