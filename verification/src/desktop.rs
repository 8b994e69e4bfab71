//! Sending from the request editor: every template is resolved strictly,
//! the URL must be HTTP or HTTPS, and only raw text and JSON bodies go out.
//! What the network returns is redacted and bounded as it arrives.
use vstd::prelude::*;
use crate::engine::{redact_sensitive_header, sensitive_header, ExecutionError};
use crate::http::{
    method_text, names_unique, resolved_url, resolved_url_spec, HeaderEntry, HttpBody, HttpMethod,
    HttpRequest, QueryParam,
};
use crate::json::{json_document, parses_as_document};
use crate::resolver::{ResolutionResult, VariableResolver};
use crate::text::{ascii_lowered, eq_ignore_ascii_case, lowercase};
use crate::vault::{destination_parts, parse_destination};

verus! {

/// Largest response body the editor keeps, in bytes (2 MiB).
pub const DESKTOP_RESPONSE_LIMIT: usize = 2097152;

pub open spec fn unresolved_message() -> Seq<char> {
    "Resolve missing or invalid variables before sending."@
}

pub open spec fn bad_url_message() -> Seq<char> {
    "Enter a valid HTTP or HTTPS URL."@
}

pub open spec fn bad_method_message() -> Seq<char> {
    "Enter a valid HTTP method."@
}

pub open spec fn bad_header_name_message() -> Seq<char> {
    "A header name is invalid."@
}

pub open spec fn bad_header_value_message() -> Seq<char> {
    "A header value is invalid."@
}

pub open spec fn bad_json_message() -> Seq<char> {
    "Request body is not valid JSON."@
}

pub open spec fn unsupported_body_message() -> Seq<char> {
    "This editor supports raw text and JSON bodies."@
}

pub open spec fn too_large_message() -> Seq<char> {
    "Response exceeds the editor's 2 MiB limit."@
}

pub open spec fn network_message() -> Seq<char> {
    "Request failed. Check the connection, URL, and TLS certificate."@
}

/// Whether `e` is a protocol error with message `m`.
pub open spec fn protocol_error(e: ExecutionError, m: Seq<char>) -> bool {
    e matches ExecutionError::Protocol(t) && t@ == m
}

/// `t` resolves completely to `v`.
pub open spec fn resolves(r: VariableResolver, t: Seq<char>, v: Seq<char>) -> bool {
    exists|res: ResolutionResult|
        #[trigger] r.template_ok(t, Seq::empty(), 0, res) && res.diagnostics@.len() == 0
            && res.value@ == v
}

/// Resolving `t` reports a diagnostic.
pub open spec fn unresolvable(r: VariableResolver, t: Seq<char>) -> bool {
    exists|res: ResolutionResult|
        #[trigger] r.template_ok(t, Seq::empty(), 0, res) && res.diagnostics@.len() > 0
}

/// A token character of HTTP (RFC 9110): an ASCII letter or digit, or one
/// of ``!#$%&'*+-.^_`|~``.
pub open spec fn token_char(c: char) -> bool {
    ('a' <= c <= 'z') || ('A' <= c <= 'Z') || ('0' <= c <= '9') || c == '!' || c == '#' || c == '$' || c
        == '%' || c == '&' || c == '\'' || c == '*' || c == '+' || c == '-' || c == '.' || c == '^' || c
        == '_' || c == '`' || c == '|' || c == '~'
}

/// Whether `reqwest::Method::from_bytes` accepts a method name: a token,
/// that is not empty and made of token characters only (any byte of a
/// character beyond ASCII is refused).
pub open spec fn method_accepted(name: Seq<char>) -> bool {
    name.len() > 0 && forall|i: int| 0 <= i < name.len() ==> token_char(#[trigger] name[i])
}

/// Whether `reqwest::header::HeaderName::from_bytes` accepts a header name:
/// a token of at most 65535 characters.
pub open spec fn header_name_accepted(name: Seq<char>) -> bool {
    0 < name.len() <= 65535 && forall|i: int| 0 <= i < name.len() ==> token_char(#[trigger] name[i])
}

/// Whether `reqwest::header::HeaderValue::from_str` accepts a header value:
/// every byte is a tab, or at least a space and not DEL. Bytes of
/// characters beyond ASCII are all accepted.
pub open spec fn header_value_accepted(value: Seq<char>) -> bool {
    forall|i: int| 0 <= i < value.len() ==> #[trigger] value[i] == '\t' || ((value[i] as u32) >= 32 && (
    value[i] as u32) != 127)
}

/// Tries `reqwest::Method::from_bytes` on a method name: as the `http`
/// crate's source shows, it accepts exactly the names of `method_accepted`
/// (its table of method characters; the standard names are such tokens).
#[verifier::external_body]
pub(crate) fn accepts_method(name: &str) -> (r: bool)
    ensures
        r == method_accepted(name@),
{
    reqwest::Method::from_bytes(name.as_bytes()).is_ok()
}

/// Tries `reqwest::header::HeaderName::from_bytes` on a header name: as the
/// `http` crate's source shows, it accepts exactly the names of
/// `header_name_accepted` (its table of header characters, and a length of
/// at most `MAX_HEADER_NAME_LEN`).
#[verifier::external_body]
fn accepts_header_name(name: &str) -> (r: bool)
    ensures
        r == header_name_accepted(name@),
{
    reqwest::header::HeaderName::from_bytes(name.as_bytes()).is_ok()
}

/// Tries `reqwest::header::HeaderValue::from_str` on a header value: as the
/// `http` crate's source shows, it accepts exactly the values of
/// `header_value_accepted` (each byte checked by `is_valid`).
#[verifier::external_body]
fn accepts_header_value(value: &str) -> (r: bool)
    ensures
        r == header_value_accepted(value@),
{
    reqwest::header::HeaderValue::from_str(value).is_ok()
}

/// A request ready for the network: every template resolved.
#[derive(Debug)]
pub struct PreparedRequest {
    pub method: HttpMethod,
    pub url: String,
    /// Headers in the order they are sent.
    pub headers: Vec<(String, String)>,
    pub body: Option<String>,
}

pub open spec fn header_views(h: Seq<(String, String)>) -> Seq<(Seq<char>, Seq<char>)> {
    h.map_values(|kv: (String, String)| (kv.0@, kv.1@))
}

/// `out` holds the parameters of `ps`, the enabled ones with key and value
/// resolved, the others as they are.
pub open spec fn params_resolved(r: VariableResolver, ps: Seq<QueryParam>, out: Seq<QueryParam>) -> bool {
    &&& out.len() == ps.len()
    &&& forall|i: int|
        0 <= i < ps.len() ==> if (#[trigger] ps[i]).enabled {
            &&& out[i].enabled
            &&& resolves(r, ps[i].key@, out[i].key@)
            &&& resolves(r, ps[i].value@, out[i].value@)
        } else {
            out[i] == ps[i]
        }
}

/// `out` holds name and value of each enabled header of `hs`, resolved and
/// accepted, in order.
pub open spec fn headers_resolved(r: VariableResolver, hs: Seq<HeaderEntry>, out: Seq<(Seq<char>, Seq<char>)>) -> bool
    decreases hs.len(),
{
    if hs.len() == 0 {
        out.len() == 0
    } else if !hs.last().enabled {
        headers_resolved(r, hs.drop_last(), out)
    } else {
        &&& out.len() > 0
        &&& headers_resolved(r, hs.drop_last(), out.drop_last())
        &&& resolves(r, hs.last().name@, out.last().0)
        &&& resolves(r, hs.last().value@, out.last().1)
        &&& header_name_accepted(out.last().0)
        &&& header_value_accepted(out.last().1)
    }
}

/// Some enabled header names the content type (ASCII case ignored).
pub open spec fn names_content_type(hs: Seq<HeaderEntry>) -> bool {
    exists|i: int|
        0 <= i < hs.len() && (#[trigger] hs[i]).enabled && ascii_lowered(hs[i].name@)
            == ascii_lowered("content-type"@)
}

/// The scheme of `url` is HTTP or HTTPS and it has a host.
pub open spec fn web_url(url: Seq<char>) -> bool {
    match destination_parts(url) {
        Some(p) => (p.0 == "http"@ || p.0 == "https"@) && p.3 is Some,
        None => false,
    }
}

/// Resolves a template; any diagnostic refuses it.
fn resolve_strict(resolver: &VariableResolver, value: &str) -> (r: Result<String, ExecutionError>)
    requires
        resolver.wf(),
    ensures
        match r {
            Ok(s) => resolves(*resolver, value@, s@),
            Err(e) => unresolvable(*resolver, value@) && protocol_error(e, unresolved_message()),
        },
{
    let res = resolver.resolve_template(value);
    let ghost g = res;
    if res.diagnostics.len() > 0 {
        assert(resolver.template_ok(value@, Seq::empty(), 0, g));
        return Err(ExecutionError::Protocol("Resolve missing or invalid variables before sending.".to_owned()));
    }
    assert(resolver.template_ok(value@, Seq::empty(), 0, g));
    Ok(res.value)
}

/// The parameters with every enabled key and value resolved.
fn resolve_params(resolver: &VariableResolver, params: &Vec<QueryParam>) -> (r: Result<Vec<QueryParam>, ExecutionError>)
    requires
        resolver.wf(),
    ensures
        match r {
            Ok(out) => params_resolved(*resolver, params@, out@),
            Err(e) => protocol_error(e, unresolved_message()) && exists|i: int|
                0 <= i < params@.len() && (#[trigger] params@[i]).enabled && (unresolvable(
                    *resolver,
                    params@[i].key@,
                ) || unresolvable(*resolver, params@[i].value@)),
        },
{
    let mut out: Vec<QueryParam> = Vec::new();
    let mut i: usize = 0;
    while i < params.len()
        invariant
            i <= params.len(),
            resolver.wf(),
            params_resolved(*resolver, params@.take(i as int), out@),
        decreases params.len() - i,
    {
        let p = &params[i];
        if p.enabled {
            let key = match resolve_strict(resolver, p.key.as_str()) {
                Ok(k) => k,
                Err(e) => {
                    assert(params@[i as int].enabled);
                    return Err(e);
                },
            };
            let value = match resolve_strict(resolver, p.value.as_str()) {
                Ok(v) => v,
                Err(e) => {
                    assert(params@[i as int].enabled);
                    return Err(e);
                },
            };
            out.push(QueryParam { key, value, enabled: true, description: crate::domain::copy_opt_string(&p.description) });
        } else {
            out.push(QueryParam {
                key: p.key.clone(),
                value: p.value.clone(),
                enabled: false,
                description: crate::domain::copy_opt_string(&p.description),
            });
            assert(out@.last() == params@[i as int]);
        }
        let ghost ps = params@.take(i + 1);
        assert forall|k: int| 0 <= k < i + 1 implies {
            if (#[trigger] ps[k]).enabled {
                &&& out@[k].enabled
                &&& resolves(*resolver, ps[k].key@, out@[k].key@)
                &&& resolves(*resolver, ps[k].value@, out@[k].value@)
            } else {
                out@[k] == ps[k]
            }
        } by {
            if k < i {
                assert(params@.take(i + 1)[k] == params@.take(i as int)[k]);
            }
        }
        i = i + 1;
    }
    assert(params@.take(i as int) =~= params@);
    Ok(out)
}

/// The enabled headers, resolved and checked, in order.
fn resolve_headers(resolver: &VariableResolver, headers: &Vec<HeaderEntry>) -> (r: Result<Vec<(String, String)>, ExecutionError>)
    requires
        resolver.wf(),
    ensures
        match r {
            Ok(out) => headers_resolved(*resolver, headers@, header_views(out@)),
            Err(e) => {
                ||| protocol_error(e, unresolved_message()) && exists|i: int|
                    0 <= i < headers@.len() && (#[trigger] headers@[i]).enabled && (unresolvable(
                        *resolver,
                        headers@[i].name@,
                    ) || unresolvable(*resolver, headers@[i].value@))
                ||| protocol_error(e, bad_header_name_message()) && exists|i: int, n: Seq<char>|
                    0 <= i < headers@.len() && headers@[i].enabled && #[trigger] resolves(
                        *resolver,
                        headers@[i].name@,
                        n,
                    ) && !header_name_accepted(n)
                ||| protocol_error(e, bad_header_value_message()) && exists|i: int, v: Seq<char>|
                    0 <= i < headers@.len() && headers@[i].enabled && #[trigger] resolves(
                        *resolver,
                        headers@[i].value@,
                        v,
                    ) && !header_value_accepted(v)
            },
        },
{
    let mut out: Vec<(String, String)> = Vec::new();
    let mut i: usize = 0;
    while i < headers.len()
        invariant
            i <= headers.len(),
            resolver.wf(),
            headers_resolved(*resolver, headers@.take(i as int), header_views(out@)),
        decreases headers.len() - i,
    {
        assert(headers@.take(i + 1).drop_last() =~= headers@.take(i as int));
        let h = &headers[i];
        if h.enabled {
            let ghost hi = headers@[i as int];
            let name = match resolve_strict(resolver, h.name.as_str()) {
                Ok(n) => n,
                Err(e) => {
                    assert(headers@[i as int].enabled);
                    return Err(e);
                },
            };
            let value = match resolve_strict(resolver, h.value.as_str()) {
                Ok(v) => v,
                Err(e) => {
                    assert(headers@[i as int].enabled);
                    return Err(e);
                },
            };
            if !accepts_header_name(name.as_str()) {
                assert(headers@[i as int].enabled && resolves(*resolver, hi.name@, name@));
                return Err(ExecutionError::Protocol("A header name is invalid.".to_owned()));
            }
            if !accepts_header_value(value.as_str()) {
                assert(headers@[i as int].enabled && resolves(*resolver, hi.value@, value@));
                return Err(ExecutionError::Protocol("A header value is invalid.".to_owned()));
            }
            let ghost before = out@;
            out.push((name, value));
            assert(header_views(out@).drop_last() =~= header_views(before));
        }
        i = i + 1;
    }
    assert(headers@.take(i as int) =~= headers@);
    Ok(out)
}

/// Whether some enabled header names the content type.
fn has_content_type(headers: &Vec<HeaderEntry>) -> (r: bool)
    ensures
        r == names_content_type(headers@),
{
    let mut i: usize = 0;
    while i < headers.len()
        invariant
            i <= headers.len(),
            forall|k: int|
                0 <= k < i ==> !((#[trigger] headers@[k]).enabled && ascii_lowered(headers@[k].name@)
                    == ascii_lowered("content-type"@)),
        decreases headers.len() - i,
    {
        if headers[i].enabled && eq_ignore_ascii_case(headers[i].name.as_str(), "content-type") {
            return true;
        }
        i = i + 1;
    }
    false
}

/// What the body of a prepared request is, and which content type header
/// is added, when the body can be sent.
pub open spec fn body_ok(
    r: VariableResolver,
    request: HttpRequest,
    headers: Seq<(Seq<char>, Seq<char>)>,
    body: Option<Seq<char>>,
    enabled: Seq<(Seq<char>, Seq<char>)>,
) -> bool {
    match request.body {
        HttpBody::Empty => headers == enabled && body is None,
        HttpBody::Raw { content, content_type } => {
            &&& headers == if names_content_type(request.headers@) {
                enabled
            } else {
                enabled.push(("content-type"@, content_type@))
            }
            &&& body matches Some(b) && resolves(r, content@, b)
        },
        HttpBody::Json { json_content } => {
            &&& headers == if names_content_type(request.headers@) {
                enabled
            } else {
                enabled.push(("content-type"@, "application/json"@))
            }
            &&& body matches Some(b) && resolves(r, json_content@, b) && json_document(b)
        },
        _ => false,
    }
}

/// Why the body of a request cannot be sent.
pub open spec fn body_refused(r: VariableResolver, request: HttpRequest, e: ExecutionError) -> bool {
    match request.body {
        HttpBody::Empty => false,
        HttpBody::Raw { content, .. } => unresolvable(r, content@) && protocol_error(e, unresolved_message()),
        HttpBody::Json { json_content } => {
            ||| unresolvable(r, json_content@) && protocol_error(e, unresolved_message())
            ||| (exists|b: Seq<char>| #[trigger] resolves(r, json_content@, b) && !json_document(b))
                && protocol_error(e, bad_json_message())
        },
        _ => protocol_error(e, unsupported_body_message()),
    }
}

/// Why the URL of a request cannot be sent.
pub open spec fn url_refused(r: VariableResolver, request: HttpRequest, e: ExecutionError) -> bool {
    ||| unresolvable(r, request.raw_url@) && protocol_error(e, unresolved_message())
    ||| protocol_error(e, unresolved_message()) && exists|i: int|
        0 <= i < request.params@.len() && (#[trigger] request.params@[i]).enabled && (unresolvable(
            r,
            request.params@[i].key@,
        ) || unresolvable(r, request.params@[i].value@))
    ||| protocol_error(e, bad_url_message()) && exists|u: Seq<char>, ps: Seq<QueryParam>|
        #![trigger resolves(r, request.raw_url@, u), params_resolved(r, request.params@, ps)]
        resolves(r, request.raw_url@, u) && params_resolved(r, request.params@, ps)
            && match resolved_url_spec(u, ps) {
            Some(url) => !web_url(url),
            None => true,
        }
}

/// Why the headers of a request cannot be sent.
pub open spec fn headers_refused(r: VariableResolver, hs: Seq<HeaderEntry>, e: ExecutionError) -> bool {
    ||| protocol_error(e, unresolved_message()) && exists|i: int|
        0 <= i < hs.len() && (#[trigger] hs[i]).enabled && (unresolvable(r, hs[i].name@)
            || unresolvable(r, hs[i].value@))
    ||| protocol_error(e, bad_header_name_message()) && exists|i: int, n: Seq<char>|
        0 <= i < hs.len() && hs[i].enabled && #[trigger] resolves(r, hs[i].name@, n)
            && !header_name_accepted(n)
    ||| protocol_error(e, bad_header_value_message()) && exists|i: int, v: Seq<char>|
        0 <= i < hs.len() && hs[i].enabled && #[trigger] resolves(r, hs[i].value@, v)
            && !header_value_accepted(v)
}

/// The body that goes out and the content type header it adds, if any.
fn prepare_body(resolver: &VariableResolver, request: &HttpRequest, enabled: Vec<(String, String)>) -> (r: Result<(Vec<(String, String)>, Option<String>), ExecutionError>)
    requires
        resolver.wf(),
    ensures
        match r {
            Ok((hs, body)) => body_ok(
                *resolver,
                *request,
                header_views(hs@),
                match body {
                    Some(b) => Some(b@),
                    None => None,
                },
                header_views(enabled@),
            ),
            Err(e) => body_refused(*resolver, *request, e),
        },
{
    let mut headers = enabled;
    let ghost before = header_views(headers@);
    match &request.body {
        HttpBody::Empty => Ok((headers, None)),
        HttpBody::Raw { content, content_type } => {
            if !has_content_type(&request.headers) {
                headers.push(("content-type".to_owned(), content_type.clone()));
                assert(header_views(headers@) =~= before.push(("content-type"@, content_type@)));
            }
            let body = resolve_strict(resolver, content.as_str())?;
            Ok((headers, Some(body)))
        },
        HttpBody::Json { json_content } => {
            let content = resolve_strict(resolver, json_content.as_str())?;
            if !parses_as_document(content.as_str()) {
                return Err(ExecutionError::Protocol("Request body is not valid JSON.".to_owned()));
            }
            if !has_content_type(&request.headers) {
                headers.push(("content-type".to_owned(), "application/json".to_owned()));
                assert(header_views(headers@) =~= before.push(("content-type"@, "application/json"@)));
            }
            Ok((headers, Some(content)))
        },
        _ => Err(ExecutionError::Protocol("This editor supports raw text and JSON bodies.".to_owned())),
    }
}

/// The URL of a request resolves, with its enabled parameters, to an HTTP
/// or HTTPS URL with a host.
pub open spec fn url_sendable(r: VariableResolver, request: HttpRequest) -> bool {
    exists|u: Seq<char>, ps: Seq<QueryParam>, url: Seq<char>|
        #![trigger resolves(r, request.raw_url@, u), params_resolved(r, request.params@, ps), web_url(url)]
        resolves(r, request.raw_url@, u) && params_resolved(r, request.params@, ps) && resolved_url_spec(u, ps)
            == Some(url) && web_url(url)
}

/// Resolves and checks everything an editor request sends, in this order:
/// the URL with its enabled parameters (HTTP or HTTPS, with a host), the
/// method, the enabled headers, then the body; a part is checked only once
/// the parts before it passed. Each refusal is a protocol error whose
/// message names the part, never its contents.
pub fn prepare_desktop_request(request: &HttpRequest, resolver: &VariableResolver) -> (r: Result<PreparedRequest, ExecutionError>)
    requires
        resolver.wf(),
    ensures
        match r {
            Ok(p) => {
                &&& p.method == request.method
                &&& method_accepted(method_text(request.method))
                &&& web_url(p.url@)
                &&& exists|u: Seq<char>, ps: Seq<QueryParam>|
                    #![trigger resolves(*resolver, request.raw_url@, u), params_resolved(*resolver, request.params@, ps)]
                    resolves(*resolver, request.raw_url@, u) && params_resolved(*resolver, request.params@, ps)
                        && resolved_url_spec(u, ps) == Some(p.url@)
                &&& exists|enabled: Seq<(Seq<char>, Seq<char>)>|
                    #[trigger] headers_resolved(*resolver, request.headers@, enabled) && body_ok(
                        *resolver,
                        *request,
                        header_views(p.headers@),
                        match p.body {
                            Some(b) => Some(b@),
                            None => None,
                        },
                        enabled,
                    )
            },
            Err(e) => {
                ||| url_refused(*resolver, *request, e)
                ||| url_sendable(*resolver, *request) && !method_accepted(method_text(request.method))
                    && protocol_error(e, bad_method_message())
                ||| url_sendable(*resolver, *request) && method_accepted(method_text(request.method))
                    && headers_refused(*resolver, request.headers@, e)
                ||| url_sendable(*resolver, *request) && method_accepted(method_text(request.method))
                    && (exists|enabled: Seq<(Seq<char>, Seq<char>)>|
                    #[trigger] headers_resolved(*resolver, request.headers@, enabled))
                    && body_refused(*resolver, *request, e)
            },
        },
{
    let raw = resolve_strict(resolver, request.raw_url.as_str())?;
    let params = match resolve_params(resolver, &request.params) {
        Ok(ps) => ps,
        Err(e) => return Err(e),
    };
    let url = match resolved_url(raw.as_str(), &params) {
        Ok(u) => u,
        Err(_) => {
            assert(params_resolved(*resolver, request.params@, params@));
            return Err(ExecutionError::Protocol("Enter a valid HTTP or HTTPS URL.".to_owned()));
        },
    };
    let parts = parse_destination(url.as_str());
    let web = match &parts {
        Some(p) => (crate::text::str_eq(p.0.as_str(), "http") || crate::text::str_eq(p.0.as_str(), "https")) && p.3.is_some(),
        None => false,
    };
    if !web {
        assert(params_resolved(*resolver, request.params@, params@));
        return Err(ExecutionError::Protocol("Enter a valid HTTP or HTTPS URL.".to_owned()));
    }
    proof {
        assert(params_resolved(*resolver, request.params@, params@));
        assert(web_url(url@));
        assert(url_sendable(*resolver, *request));
    }
    if !accepts_method(request.method.as_str()) {
        return Err(ExecutionError::Protocol("Enter a valid HTTP method.".to_owned()));
    }
    let enabled = match resolve_headers(resolver, &request.headers) {
        Ok(h) => h,
        Err(e) => return Err(e),
    };
    let ghost enabled_view = header_views(enabled@);
    assert(headers_resolved(*resolver, request.headers@, enabled_view));
    let (headers, body) = prepare_body(resolver, request, enabled)?;
    assert(params_resolved(*resolver, request.params@, params@));
    assert(headers_resolved(*resolver, request.headers@, enabled_view));
    Ok(PreparedRequest { method: request.method.copy(), url, headers, body })
}

/// Records one response header: its value redacted when the name is
/// sensitive, appended after a line break to an earlier value of the same
/// name, added at the end otherwise.
pub fn record_response_header(headers: &mut Vec<(String, String)>, name: &str, value: &str)
    ensures
        ({
            let safe = if sensitive_header(lowercase(name@)) {
                "[REDACTED]"@
            } else {
                value@
            };
            match first_named(old(headers)@, name@) {
                Some(i) => final(headers)@.len() == old(headers)@.len() && final(headers)@[i].0@
                    == name@ && final(headers)@[i].1@ == old(headers)@[i].1@ + "\n"@ + safe
                    && forall|k: int|
                    0 <= k < old(headers)@.len() && k != i ==> #[trigger] final(headers)@[k]
                        == old(headers)@[k],
                None => header_views(final(headers)@) == header_views(old(headers)@).push(
                    (name@, safe),
                ),
            }
        }),
        names_unique(old(headers)@) ==> names_unique(final(headers)@),
{
    let safe = redact_sensitive_header(name, value);
    let mut i: usize = 0;
    while i < headers.len()
        invariant
            i <= headers.len(),
            headers@ == old(headers)@,
            safe@ == if sensitive_header(lowercase(name@)) {
                "[REDACTED]"@
            } else {
                value@
            },
            forall|k: int| 0 <= k < i ==> (#[trigger] headers@[k]).0@ != name@,
        decreases headers.len() - i,
    {
        if crate::text::str_eq(headers[i].0.as_str(), name) {
            let mut joined = headers[i].1.clone();
            joined.push_str("\n");
            joined.push_str(safe.as_str());
            let key = headers[i].0.clone();
            headers.set(i, (key, joined));
            assert(first_named(old(headers)@, name@) == Some(i as int)) by {
                lemma_first_named(old(headers)@, name@, i as int);
            }
            assert(forall|k: int| 0 <= k < headers@.len() ==> (#[trigger] headers@[k]).0@ == old(headers)@[k].0@);
            return;
        }
        i = i + 1;
    }
    assert(first_named(old(headers)@, name@) is None) by {
        lemma_no_name(old(headers)@, name@);
    }
    let ghost before = headers@;
    headers.push((name.to_owned(), safe));
    assert(header_views(headers@) =~= header_views(before).push((name@, safe@)));
    assert(forall|k: int| 0 <= k < before.len() ==> (#[trigger] headers@[k]) == before[k]);
}

/// The first position of a header named `name`.
pub open spec fn first_named(h: Seq<(String, String)>, name: Seq<char>) -> Option<int>
    decreases h.len(),
{
    if h.len() == 0 {
        None
    } else {
        match first_named(h.drop_last(), name) {
            Some(i) => Some(i),
            None => if h.last().0@ == name {
                Some(h.len() - 1)
            } else {
                None
            },
        }
    }
}

proof fn lemma_first_named(h: Seq<(String, String)>, name: Seq<char>, i: int)
    requires
        0 <= i < h.len(),
        h[i].0@ == name,
        forall|k: int| 0 <= k < i ==> (#[trigger] h[k]).0@ != name,
    ensures
        first_named(h, name) == Some(i),
    decreases h.len(),
{
    if i < h.len() - 1 {
        lemma_first_named(h.drop_last(), name, i);
    } else {
        lemma_no_name(h.drop_last(), name);
    }
}

proof fn lemma_no_name(h: Seq<(String, String)>, name: Seq<char>)
    requires
        forall|k: int| 0 <= k < h.len() ==> (#[trigger] h[k]).0@ != name,
    ensures
        first_named(h, name) is None,
    decreases h.len(),
{
    if h.len() > 0 {
        lemma_no_name(h.drop_last(), name);
    }
}

/// Whether a chunk of `chunk` bytes still fits after `received` bytes.
pub fn chunk_fits(received: usize, chunk: usize) -> (r: bool)
    ensures
        r == (chunk <= if received >= DESKTOP_RESPONSE_LIMIT {
            0
        } else {
            DESKTOP_RESPONSE_LIMIT - received
        }),
{
    let room = if received >= DESKTOP_RESPONSE_LIMIT {
        0
    } else {
        DESKTOP_RESPONSE_LIMIT - received
    };
    chunk <= room
}

/// The error for a response over the limit.
pub fn too_large() -> (e: ExecutionError)
    ensures
        protocol_error(e, too_large_message()),
{
    ExecutionError::Protocol("Response exceeds the editor's 2 MiB limit.".to_owned())
}

/// The error for a failed transfer: a timeout is reported as 30 s, anything
/// else without the URL, body or credentials.
pub fn network_failure(timed_out: bool) -> (e: ExecutionError)
    ensures
        timed_out ==> e == ExecutionError::Timeout(30000),
        !timed_out ==> (e matches ExecutionError::Network(m) && m@ == network_message()),
{
    if timed_out {
        ExecutionError::Timeout(30000)
    } else {
        ExecutionError::Network("Request failed. Check the connection, URL, and TLS certificate.".to_owned())
    }
}


// ---------------------------------------------------------------------------
// The request editor
// ---------------------------------------------------------------------------

/// How the editor authenticates a request.
#[derive(Debug, Clone, Copy, PartialEq, Eq, Structural)]
pub enum AuthType {
    NoAuth,
    Bearer,
    Basic,
    ApiKey,
}

/// Which body the editor sends.
#[derive(Debug, Clone, Copy, PartialEq, Eq, Structural)]
pub enum BodyType {
    NoBody,
    Json,
    FormData,
    Raw,
}

/// What the request editor holds: the texts of its fields.
pub struct EditorDraft {
    pub method: String,
    pub url: String,
    /// Header rows: name, value, and whether the row is enabled.
    pub headers: Vec<(String, String, bool)>,
    pub auth_type: AuthType,
    pub bearer_token: String,
    pub basic_username: String,
    pub basic_password: String,
    pub api_key_name: String,
    pub api_key_value: String,
    pub body_type: BodyType,
    pub body: String,
}

/// A header as sent: name, value, enabled, secret, description.
pub type EntryView = (Seq<char>, Seq<char>, bool, bool, Option<Seq<char>>);

pub open spec fn entry_view(h: HeaderEntry) -> EntryView {
    (
        h.name@,
        h.value@,
        h.enabled,
        h.is_secret,
        match h.description {
            Some(d) => Some(d@),
            None => None,
        },
    )
}

pub open spec fn entry_views(hs: Seq<HeaderEntry>) -> Seq<EntryView> {
    hs.map_values(|h: HeaderEntry| entry_view(h))
}

/// The enabled rows of the header table, as plain enabled headers.
pub open spec fn table_headers(rows: Seq<(String, String, bool)>) -> Seq<EntryView>
    decreases rows.len(),
{
    if rows.len() == 0 {
        Seq::empty()
    } else if rows.last().2 {
        table_headers(rows.drop_last()).push((rows.last().0@, rows.last().1@, true, false, None))
    } else {
        table_headers(rows.drop_last())
    }
}

/// The credential header the chosen authentication adds, if any: a bearer
/// token (trimmed) when one is given, Basic credentials always, an API key
/// (name and value trimmed) when both are given.
pub open spec fn auth_headers(d: EditorDraft) -> Seq<EntryView> {
    match d.auth_type {
        AuthType::NoAuth => Seq::empty(),
        AuthType::Bearer => if d.bearer_token@.len() == 0 {
            Seq::empty()
        } else {
            seq![("Authorization"@, "Bearer "@ + crate::text::trim_seq(d.bearer_token@), true, true, Some("Bearer Token"@))]
        },
        AuthType::Basic => seq![
            (
                "Authorization"@,
                "Basic "@ + crate::response::base64(
                    vstd::utf8::encode_utf8(d.basic_username@ + ":"@ + d.basic_password@),
                ),
                true,
                true,
                Some("Basic Authentication"@),
            ),
        ],
        AuthType::ApiKey => if d.api_key_name@.len() > 0 && d.api_key_value@.len() > 0 {
            seq![
                (
                    crate::text::trim_seq(d.api_key_name@),
                    crate::text::trim_seq(d.api_key_value@),
                    true,
                    true,
                    Some("API Key"@),
                ),
            ]
        } else {
            Seq::empty()
        },
    }
}

/// Some header of `hs` names the content type (ASCII case ignored).
pub open spec fn views_name_content_type(hs: Seq<EntryView>) -> bool {
    exists|i: int| 0 <= i < hs.len() && ascii_lowered((#[trigger] hs[i]).0) == ascii_lowered("content-type"@)
}

/// The headers of the request the editor sends: the enabled table rows,
/// then the credential header, then a JSON content type when a JSON body
/// is sent and no header names one.
pub open spec fn draft_headers(d: EditorDraft) -> Seq<EntryView> {
    let base = table_headers(d.headers@) + auth_headers(d);
    if d.body_type == BodyType::Json && d.body@.len() > 0 && !views_name_content_type(base) {
        base.push(("Content-Type"@, "application/json"@, true, false, None))
    } else {
        base
    }
}

fn text_is_empty(s: &str) -> (r: bool)
    ensures
        r == (s@.len() == 0),
{
    crate::text::chars_of(s).len() == 0
}

fn entry(name: String, value: String, secret: bool, description: Option<String>) -> (h: HeaderEntry)
    ensures
        h.name == name,
        h.value == value,
        h.enabled,
        h.is_secret == secret,
        h.description == description,
{
    HeaderEntry { name, value, enabled: true, is_secret: secret, description }
}

fn push_entry(hs: &mut Vec<HeaderEntry>, h: HeaderEntry)
    ensures
        entry_views(final(hs)@) == entry_views(old(hs)@).push(entry_view(h)),
{
    let ghost before = hs@;
    hs.push(h);
    assert(entry_views(hs@) =~= entry_views(before).push(entry_view(h)));
}

fn auth_entries(d: &EditorDraft, hs: &mut Vec<HeaderEntry>)
    ensures
        entry_views(final(hs)@) == entry_views(old(hs)@) + auth_headers(*d),
{
    let ghost before = entry_views(hs@);
    match d.auth_type {
        AuthType::NoAuth => {
            assert(before + Seq::<EntryView>::empty() =~= before);
        },
        AuthType::Bearer => {
            if text_is_empty(d.bearer_token.as_str()) {
                assert(before + Seq::<EntryView>::empty() =~= before);
            } else {
                let mut value = "Bearer ".to_owned();
                let token = crate::text::trim(d.bearer_token.as_str());
                value.push_str(token.as_str());
                push_entry(hs, entry("Authorization".to_owned(), value, true, Some("Bearer Token".to_owned())));
                assert(entry_views(hs@) =~= before + auth_headers(*d));
            }
        },
        AuthType::Basic => {
            let mut raw = d.basic_username.clone();
            raw.push_str(":");
            raw.push_str(d.basic_password.as_str());
            let encoded = crate::response::simple_base64(raw.as_str().as_bytes());
            let mut value = "Basic ".to_owned();
            value.push_str(encoded.as_str());
            push_entry(hs, entry("Authorization".to_owned(), value, true, Some("Basic Authentication".to_owned())));
            assert(entry_views(hs@) =~= before + auth_headers(*d));
        },
        AuthType::ApiKey => {
            if !text_is_empty(d.api_key_name.as_str()) && !text_is_empty(d.api_key_value.as_str()) {
                let name = crate::text::trim(d.api_key_name.as_str());
                let value = crate::text::trim(d.api_key_value.as_str());
                push_entry(hs, entry(name, value, true, Some("API Key".to_owned())));
                assert(entry_views(hs@) =~= before + auth_headers(*d));
            } else {
                assert(before + Seq::<EntryView>::empty() =~= before);
            }
        },
    }
}

fn entries_name_content_type(hs: &Vec<HeaderEntry>) -> (r: bool)
    ensures
        r == views_name_content_type(entry_views(hs@)),
{
    let mut i: usize = 0;
    while i < hs.len()
        invariant
            i <= hs.len(),
            forall|k: int|
                0 <= k < i ==> ascii_lowered((#[trigger] hs@[k]).name@) != ascii_lowered("content-type"@),
        decreases hs.len() - i,
    {
        if eq_ignore_ascii_case(hs[i].name.as_str(), "content-type") {
            assert(entry_views(hs@)[i as int].0 == hs@[i as int].name@);
            return true;
        }
        i = i + 1;
    }
    assert forall|k: int| 0 <= k < entry_views(hs@).len() implies ascii_lowered(
        (#[trigger] entry_views(hs@)[k]).0,
    ) != ascii_lowered("content-type"@) by {
        assert(entry_views(hs@)[k].0 == hs@[k].name@);
    }
    false
}

/// The request the editor sends for a draft: the method as named, the URL
/// trimmed, the headers of `draft_headers`, and the body: JSON or plain text
/// as chosen when the body text is not empty, none otherwise.
pub fn editor_request(d: &EditorDraft) -> (r: HttpRequest)
    ensures
        match crate::http::standard_method(crate::text::uppercase(d.method@)) {
            Some(m) => r.method == m,
            None => r.method matches HttpMethod::Custom(c) && c@ == d.method@,
        },
        r.raw_url@ == crate::text::trim_seq(d.url@),
        r.params@.len() == 0,
        entry_views(r.headers@) == draft_headers(*d),
        d.body@.len() == 0 || d.body_type == BodyType::NoBody ==> r.body is Empty,
        d.body@.len() > 0 && d.body_type == BodyType::Json ==> r.body == (HttpBody::Json { json_content: d.body }),
        d.body@.len() > 0 && (d.body_type == BodyType::FormData || d.body_type == BodyType::Raw) ==> (
        r.body matches HttpBody::Raw { content, content_type } && content == d.body && content_type@
            == "text/plain"@),
{
    let url = crate::text::trim(d.url.as_str());
    let mut request = HttpRequest::new(HttpMethod::parse(d.method.as_str()), url.as_str());
    let mut headers: Vec<HeaderEntry> = Vec::new();
    let mut i: usize = 0;
    while i < d.headers.len()
        invariant
            i <= d.headers.len(),
            entry_views(headers@) == table_headers(d.headers@.take(i as int)),
        decreases d.headers.len() - i,
    {
        assert(d.headers@.take(i + 1).drop_last() =~= d.headers@.take(i as int));
        let (name, value, enabled) = &d.headers[i];
        if *enabled {
            push_entry(&mut headers, entry(name.clone(), value.clone(), false, None));
        }
        i = i + 1;
    }
    assert(d.headers@.take(i as int) =~= d.headers@);
    auth_entries(d, &mut headers);
    let empty_body = text_is_empty(d.body.as_str());
    if d.body_type == BodyType::Json && !empty_body && !entries_name_content_type(&headers) {
        push_entry(&mut headers, entry("Content-Type".to_owned(), "application/json".to_owned(), false, None));
    }
    request.headers = headers;
    if !empty_body {
        match d.body_type {
            BodyType::NoBody => {},
            BodyType::Json => {
                request.body = HttpBody::Json { json_content: d.body.clone() };
            },
            _ => {
                request.body = HttpBody::Raw { content: d.body.clone(), content_type: "text/plain".to_owned() };
            },
        }
    }
    request
}

/// A line of the editor's send history.
#[derive(Debug, Clone, PartialEq, Eq)]
pub struct HistoryItem {
    pub method: String,
    pub url: String,
    pub status_code: Option<u16>,
    pub duration_ms: Option<u64>,
}

/// Lines the editor's send history keeps.
pub const EDITOR_HISTORY_LIMIT: usize = 50;

/// Adds a completed send to the front of the history, which then keeps the
/// newest 50.
pub fn push_history(history: &mut Vec<HistoryItem>, item: HistoryItem)
    ensures
        final(history)@ == (seq![item] + old(history)@).take(
            if old(history)@.len() + 1 > EDITOR_HISTORY_LIMIT {
                EDITOR_HISTORY_LIMIT as int
            } else {
                old(history)@.len() + 1int
            },
        ),
{
    history.insert(0, item);
    assert(history@ =~= seq![item] + old(history)@);
    if history.len() > EDITOR_HISTORY_LIMIT {
        history.truncate(EDITOR_HISTORY_LIMIT);
    }
}

/// Settles a reply that arrives for a draft. It applies only when it
/// answers the draft's latest send (the generations match) and the draft
/// still waits for it; a reply to an older send is ignored. Returns whether
/// it applies and whether the draft still waits afterwards: a matching
/// reply ends the wait, an older one leaves it as it was.
pub fn settle_reply(draft_generation: usize, reply_generation: usize, running: bool) -> (r: (bool, bool))
    ensures
        r.0 == (draft_generation == reply_generation && running),
        r.1 == (draft_generation != reply_generation && running),
{
    if draft_generation != reply_generation {
        (false, running)
    } else {
        (running, false)
    }
}

/// Adds a failed send to the front of the history; a failure does not cut
/// the history down.
pub fn push_failed_history(history: &mut Vec<HistoryItem>, item: HistoryItem)
    ensures
        final(history)@ == seq![item] + old(history)@,
{
    history.insert(0, item);
    assert(history@ =~= seq![item] + old(history)@);
}

/// The status line the editor shows for a response: status, reason,
/// duration, size and protocol version.
pub fn response_summary(response: &crate::http::HttpResponse) -> (s: String)
    ensures
        s@ == crate::text::decimal(response.status_code as nat) + " "@ + response.status_text@
            + " · "@ + crate::text::decimal(response.duration_ms as nat) + " ms · "@
            + crate::text::decimal(response.size_bytes as nat) + " bytes · "@
            + response.http_version@,
{
    let mut s = String::new();
    crate::text::push_decimal(&mut s, response.status_code as u64);
    s.push_str(" ");
    s.push_str(response.status_text.as_str());
    s.push_str(" · ");
    crate::text::push_decimal(&mut s, response.duration_ms);
    s.push_str(" ms · ");
    crate::text::push_decimal(&mut s, response.size_bytes as u64);
    s.push_str(" bytes · ");
    s.push_str(response.http_version.as_str());
    s
}


/// What closing an editor tab does: whether the tab goes, whether a fresh
/// untitled draft is opened, and which tab is active afterwards.
#[derive(Debug, Clone, Copy, PartialEq, Eq)]
pub struct CloseOutcome {
    pub remove: bool,
    pub add_untitled: bool,
    pub active: usize,
}

/// Closing tab `index` of `count` tabs while tab `active` is shown. An
/// editor is never left without a tab: closing the last one (or closing in
/// an empty editor) opens an untitled draft. Closing a tab before the
/// active one keeps the same tab active; the active index never passes the
/// last tab. An index past the end changes nothing (`None`).
pub fn close_outcome(count: usize, active: usize, index: usize) -> (r: Option<CloseOutcome>)
    ensures
        count == 0 ==> r == Some(CloseOutcome { remove: false, add_untitled: true, active: 0 }),
        count > 0 && index >= count ==> r is None,
        count > 0 && index < count ==> r == Some(
            CloseOutcome {
                remove: true,
                add_untitled: count == 1,
                active: if count == 1 {
                    0
                } else if index < active {
                    (active - 1) as usize
                } else if active >= count - 1 {
                    (count - 2) as usize
                } else {
                    active
                },
            },
        ),
{
    if count == 0 {
        return Some(CloseOutcome { remove: false, add_untitled: true, active: 0 });
    }
    if index >= count {
        return None;
    }
    let left = count - 1;
    let next = if left == 0 {
        0
    } else if index < active {
        active - 1
    } else if active >= left {
        left - 1
    } else {
        active
    };
    Some(CloseOutcome { remove: true, add_untitled: left == 0, active: next })
}

} // verus!
