use packetsmith::desktop::{
    close_outcome, CloseOutcome, editor_request, push_failed_history, push_history, settle_reply, response_summary, AuthType, BodyType, EditorDraft, HistoryItem,
    chunk_fits, network_failure, prepare_desktop_request, record_response_header, too_large,
    DESKTOP_RESPONSE_LIMIT,
};
use packetsmith::engine::ExecutionError;
use packetsmith::http::{HeaderEntry, HttpBody, HttpMethod, HttpRequest, HttpResponse, MultipartField, QueryParam};
use packetsmith::resolver::VariableResolver;

fn resolver() -> VariableResolver {
    VariableResolver::new().with_globals(vec![
        ("host".to_string(), "api.test".to_string()),
        ("token".to_string(), "abc".to_string()),
    ])
}

fn header(name: &str, value: &str, enabled: bool) -> HeaderEntry {
    HeaderEntry { name: name.into(), value: value.into(), enabled, is_secret: false, description: None }
}

fn param(key: &str, value: &str, enabled: bool) -> QueryParam {
    QueryParam { key: key.into(), value: value.into(), enabled, description: None }
}

fn protocol_message(e: ExecutionError) -> String {
    match e {
        ExecutionError::Protocol(m) => m,
        other => panic!("unexpected error {:?}", other),
    }
}

#[test]
fn resolved_url_appends_enabled_params_after_existing_query() {
    let mut request = HttpRequest::new(HttpMethod::Get, "https://api.example.com/users?x=1");
    request.params = vec![param("a", "b c", true), param("skip", "me", false)];
    assert_eq!(request.build_resolved_url().unwrap(), "https://api.example.com/users?x=1&a=b+c");
}

#[test]
fn resolved_url_without_params_is_normalized() {
    let request = HttpRequest::new(HttpMethod::Get, "https://example.com");
    assert_eq!(request.build_resolved_url().unwrap(), "https://example.com/");
    assert!(HttpRequest::new(HttpMethod::Get, "not a url").build_resolved_url().is_err());
}

#[test]
fn prepared_request_resolves_url_params_and_enabled_headers() {
    let mut request = HttpRequest::new(HttpMethod::Post, "https://{{host}}/v1");
    request.params = vec![param("t", "{{token}}", true), param("off", "{{missing}}", false)];
    request.headers = vec![header("X-Host", "{{host}}", true), header("X-Off", "{{missing}}", false)];
    request.body = HttpBody::Json { json_content: "{\"k\": \"{{token}}\"}".into() };
    let prepared = prepare_desktop_request(&request, &resolver()).unwrap();
    assert_eq!(prepared.method, HttpMethod::Post);
    assert_eq!(prepared.url, "https://api.test/v1?t=abc");
    assert_eq!(
        prepared.headers,
        vec![
            ("X-Host".to_string(), "api.test".to_string()),
            ("content-type".to_string(), "application/json".to_string()),
        ]
    );
    assert_eq!(prepared.body.as_deref(), Some("{\"k\": \"abc\"}"));
}

#[test]
fn prepared_request_keeps_explicit_content_type() {
    let mut request = HttpRequest::new(HttpMethod::Put, "http://{{host}}/raw");
    request.headers = vec![header("Content-TYPE", "text/csv", true)];
    request.body = HttpBody::Raw { content: "a,b".into(), content_type: "text/plain".into() };
    let prepared = prepare_desktop_request(&request, &resolver()).unwrap();
    assert_eq!(prepared.headers, vec![("Content-TYPE".to_string(), "text/csv".to_string())]);
    assert_eq!(prepared.body.as_deref(), Some("a,b"));

    request.headers.clear();
    let prepared = prepare_desktop_request(&request, &resolver()).unwrap();
    assert_eq!(prepared.headers, vec![("content-type".to_string(), "text/plain".to_string())]);
    assert!(prepared.body.is_some());
}

#[test]
fn prepared_request_refusals_name_the_part_only() {
    let r = resolver();
    let unresolved = prepare_desktop_request(&HttpRequest::new(HttpMethod::Get, "https://{{nope}}/"), &r);
    assert_eq!(protocol_message(unresolved.unwrap_err()), "Resolve missing or invalid variables before sending.");

    let ftp = prepare_desktop_request(&HttpRequest::new(HttpMethod::Get, "ftp://files.test/x"), &r);
    assert_eq!(protocol_message(ftp.unwrap_err()), "Enter a valid HTTP or HTTPS URL.");

    let method = prepare_desktop_request(
        &HttpRequest::new(HttpMethod::Custom("BAD METHOD".into()), "https://api.test/"),
        &r,
    );
    assert_eq!(protocol_message(method.unwrap_err()), "Enter a valid HTTP method.");

    let mut bad_header = HttpRequest::new(HttpMethod::Get, "https://api.test/");
    bad_header.headers = vec![header("bad name", "v", true)];
    assert_eq!(protocol_message(prepare_desktop_request(&bad_header, &r).unwrap_err()), "A header name is invalid.");
    bad_header.headers = vec![header("X-Ok", "line\nbreak", true)];
    assert_eq!(protocol_message(prepare_desktop_request(&bad_header, &r).unwrap_err()), "A header value is invalid.");

    let mut json = HttpRequest::new(HttpMethod::Post, "https://api.test/");
    json.body = HttpBody::Json { json_content: "{not json".into() };
    assert_eq!(protocol_message(prepare_desktop_request(&json, &r).unwrap_err()), "Request body is not valid JSON.");

    let mut multipart = HttpRequest::new(HttpMethod::Post, "https://api.test/");
    multipart.body = HttpBody::Multipart {
        fields: vec![MultipartField { name: "f".into(), value: "v".into(), is_file: false, content_type: None }],
    };
    assert_eq!(
        protocol_message(prepare_desktop_request(&multipart, &r).unwrap_err()),
        "This editor supports raw text and JSON bodies."
    );
}

#[test]
fn response_headers_are_redacted_and_merged() {
    let mut headers = Vec::new();
    record_response_header(&mut headers, "set-cookie", "a=1");
    record_response_header(&mut headers, "content-type", "text/plain");
    record_response_header(&mut headers, "set-cookie", "b=2");
    assert_eq!(
        headers,
        vec![
            ("set-cookie".to_string(), "[REDACTED]\n[REDACTED]".to_string()),
            ("content-type".to_string(), "text/plain".to_string()),
        ]
    );
}

#[test]
fn response_size_limit_and_network_errors() {
    assert_eq!(DESKTOP_RESPONSE_LIMIT, 2 * 1024 * 1024);
    assert!(chunk_fits(0, DESKTOP_RESPONSE_LIMIT));
    assert!(!chunk_fits(1, DESKTOP_RESPONSE_LIMIT));
    assert!(chunk_fits(DESKTOP_RESPONSE_LIMIT, 0));
    assert_eq!(protocol_message(too_large()), "Response exceeds the editor's 2 MiB limit.");
    assert!(matches!(network_failure(true), ExecutionError::Timeout(30000)));
    match network_failure(false) {
        ExecutionError::Network(m) => {
            assert_eq!(m, "Request failed. Check the connection, URL, and TLS certificate.")
        }
        other => panic!("unexpected {:?}", other),
    }
}

fn draft(auth_type: AuthType, body_type: BodyType, body: &str) -> EditorDraft {
    EditorDraft {
        method: "post".into(),
        url: "  https://api.test/items \n".into(),
        headers: vec![
            ("Accept".into(), "*/*".into(), true),
            ("X-Off".into(), "1".into(), false),
        ],
        auth_type,
        bearer_token: " tok ".into(),
        basic_username: "user".into(),
        basic_password: "pass".into(),
        api_key_name: " X-Api-Key ".into(),
        api_key_value: " secret ".into(),
        body_type,
        body: body.into(),
    }
}

fn names(request: &HttpRequest) -> Vec<(String, String, bool)> {
    request.headers.iter().map(|h| (h.name.clone(), h.value.clone(), h.is_secret)).collect()
}

#[test]
fn editor_request_assembles_headers_auth_and_json_body() {
    let request = editor_request(&draft(AuthType::Bearer, BodyType::Json, "{}"));
    assert_eq!(request.method, HttpMethod::Post);
    assert_eq!(request.raw_url, "https://api.test/items");
    assert!(request.params.is_empty());
    assert_eq!(
        names(&request),
        vec![
            ("Accept".to_string(), "*/*".to_string(), false),
            ("Authorization".to_string(), "Bearer tok".to_string(), true),
            ("Content-Type".to_string(), "application/json".to_string(), false),
        ]
    );
    assert_eq!(request.headers[1].description.as_deref(), Some("Bearer Token"));
    assert_eq!(request.body, HttpBody::Json { json_content: "{}".into() });
}

#[test]
fn editor_request_basic_and_api_key_auth() {
    let basic = editor_request(&draft(AuthType::Basic, BodyType::Raw, "text"));
    assert_eq!(basic.headers[1].value, "Basic dXNlcjpwYXNz");
    assert_eq!(basic.body, HttpBody::Raw { content: "text".into(), content_type: "text/plain".into() });
    let key = editor_request(&draft(AuthType::ApiKey, BodyType::FormData, ""));
    assert_eq!(names(&key)[1], ("X-Api-Key".to_string(), "secret".to_string(), true));
    assert_eq!(key.body, HttpBody::Empty);
    let mut no_token = draft(AuthType::Bearer, BodyType::NoBody, "ignored");
    no_token.bearer_token.clear();
    let plain = editor_request(&no_token);
    assert_eq!(plain.headers.len(), 1);
    assert_eq!(plain.body, HttpBody::Empty);
}

#[test]
fn editor_request_keeps_a_json_content_type_from_the_table() {
    let mut d = draft(AuthType::NoAuth, BodyType::Json, "[1]");
    d.headers.push(("content-type".into(), "application/vnd+json".into(), true));
    let request = editor_request(&d);
    assert_eq!(request.headers.len(), 2);
    assert_eq!(request.headers[1].value, "application/vnd+json");
}

#[test]
fn editor_history_keeps_newest_fifty() {
    let mut history = Vec::new();
    for i in 0..55u16 {
        push_history(&mut history, HistoryItem {
            method: "GET".into(),
            url: format!("https://api.test/{i}"),
            status_code: Some(200 + i),
            duration_ms: None,
        });
    }
    assert_eq!(history.len(), 50);
    assert_eq!(history[0].status_code, Some(254));
    assert_eq!(history[49].status_code, Some(205));
}

#[test]
fn editor_response_summary_line() {
    let response = HttpResponse {
        status_code: 404,
        status_text: "Not Found".into(),
        headers: vec![],
        body_bytes: vec![1, 2, 3],
        duration_ms: 12,
        size_bytes: 3,
        http_version: "HTTP/1.1".into(),
    };
    assert_eq!(response_summary(&response), "404 Not Found · 12 ms · 3 bytes · HTTP/1.1");
}

#[test]
fn closing_editor_tabs_keeps_a_sensible_active_tab() {
    assert_eq!(close_outcome(0, 0, 0), Some(CloseOutcome { remove: false, add_untitled: true, active: 0 }));
    assert_eq!(close_outcome(3, 1, 3), None);
    assert_eq!(close_outcome(1, 0, 0), Some(CloseOutcome { remove: true, add_untitled: true, active: 0 }));
    assert_eq!(close_outcome(3, 2, 0), Some(CloseOutcome { remove: true, add_untitled: false, active: 1 }));
    assert_eq!(close_outcome(3, 2, 2), Some(CloseOutcome { remove: true, add_untitled: false, active: 1 }));
    assert_eq!(close_outcome(3, 0, 1), Some(CloseOutcome { remove: true, add_untitled: false, active: 0 }));
}

#[test]
fn test_url_query_resolution() {
    let mut req = HttpRequest::new(HttpMethod::Get, "https://api.example.com/v1/users");
    req.params.push(QueryParam {
        key: "limit".to_string(),
        value: "20".to_string(),
        enabled: true,
        description: None,
    });
    req.params.push(QueryParam {
        key: "ignored".to_string(),
        value: "1".to_string(),
        enabled: false,
        description: None,
    });

    let url = req.build_resolved_url().expect("Failed to build URL");
    assert_eq!(url.as_str(), "https://api.example.com/v1/users?limit=20");
}

#[test]
fn unresolved_variables_fail_without_exposing_values() {
    let resolver = VariableResolver::new();
    let request = HttpRequest::new(HttpMethod::Get, "https://{{missing}}/private-token");
    let error = prepare_desktop_request(&request, &resolver).unwrap_err();
    assert!(!error.message().contains("private-token"));
}

#[test]
fn invalid_requests_fail_before_network_io() {
    for url in ["file:///tmp/test", "not a url", "https://{{missing}}"] {
        assert!(prepare_desktop_request(&HttpRequest::new(HttpMethod::Get, url), &VariableResolver::new()).is_err());
    }
}

#[test]
fn failed_sends_are_recorded_without_cutting_history() {
    let mut history = Vec::new();
    for i in 0..50u16 {
        push_history(&mut history, HistoryItem {
            method: "GET".into(),
            url: format!("https://api.test/{i}"),
            status_code: Some(200),
            duration_ms: Some(1),
        });
    }
    push_failed_history(&mut history, HistoryItem {
        method: "POST".into(),
        url: "https://down.test".into(),
        status_code: None,
        duration_ms: None,
    });
    assert_eq!(history.len(), 51);
    assert_eq!(history[0].method, "POST");
    assert_eq!(history[0].status_code, None);
}

#[test]
fn stale_replies_are_ignored() {
    assert_eq!(settle_reply(3, 3, true), (true, false));
    assert_eq!(settle_reply(3, 2, true), (false, true));
    assert_eq!(settle_reply(3, 3, false), (false, false));
    assert_eq!(settle_reply(4, 3, false), (false, false));
}
