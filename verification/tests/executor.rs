use packetsmith::engine::ExecutionError;
use packetsmith::executor::{http_step, ExecAction, ExecEvent, ExecPhase, ExecState};

fn begin(method: &str) -> ExecState {
    let (s, a) = http_step(ExecState::new(), ExecEvent::Begin { is_http: true, method: method.to_string() });
    assert!(matches!(a, ExecAction::Resolve));
    assert_eq!(s.phase, ExecPhase::Resolving);
    s
}

#[test]
fn non_http_requests_are_refused() {
    let (s, a) = http_step(ExecState::new(), ExecEvent::Begin { is_http: false, method: "GET".into() });
    assert_eq!(s.phase, ExecPhase::Done);
    match a {
        ExecAction::Fail(ExecutionError::Protocol(m)) => assert_eq!(m, "Non-HTTP protocol passed"),
        other => panic!("unexpected {:?}", other),
    }
}

#[test]
fn cancellation_before_connecting_stops_the_execution() {
    let s = begin("GET");
    let (s, a) = http_step(
        s,
        ExecEvent::UrlResolved { value: "https://x.test".into(), display_value: "https://x.test".into(), cancelled: true },
    );
    assert_eq!(s.phase, ExecPhase::Done);
    assert!(matches!(a, ExecAction::Cancel));
}

#[test]
fn connecting_shows_the_redacted_url_and_falls_back_to_get() {
    let s = begin("BAD METHOD");
    let (s, a) = http_step(
        s,
        ExecEvent::UrlResolved {
            value: "https://x.test/?k=secret".into(),
            display_value: "https://x.test/?k=********".into(),
            cancelled: false,
        },
    );
    assert_eq!(s.phase, ExecPhase::Sending);
    match a {
        ExecAction::Connect { display_url, method, url } => {
            assert_eq!(display_url, "https://x.test/?k=********");
            assert_eq!(method, "GET");
            assert_eq!(url, "https://x.test/?k=secret");
        }
        other => panic!("unexpected {:?}", other),
    }
    let s = begin("PATCH");
    let (_, a) = http_step(s, ExecEvent::UrlResolved { value: "u".into(), display_value: "u".into(), cancelled: false });
    assert!(matches!(a, ExecAction::Connect { ref method, .. } if method == "PATCH"));
}

#[test]
fn headers_are_redacted_and_the_body_completes() {
    let s = begin("GET");
    let (s, _) = http_step(s, ExecEvent::UrlResolved { value: "u".into(), display_value: "u".into(), cancelled: false });
    let (s, a) = http_step(
        s,
        ExecEvent::ResponseHeaders {
            status: 200,
            headers: vec![
                ("content-type".into(), "application/json".into()),
                ("Set-Cookie".into(), "sid=1".into()),
                ("x-api-key".into(), "abc".into()),
            ],
        },
    );
    assert_eq!(s.phase, ExecPhase::Receiving);
    match a {
        ExecAction::EmitHeaders { status, headers } => {
            assert_eq!(status, 200);
            assert_eq!(headers[0].1, "application/json");
            assert_eq!(headers[1].1, "[REDACTED]");
            assert_eq!(headers[2].1, "[REDACTED]");
        }
        other => panic!("unexpected {:?}", other),
    }
    let (s, a) = http_step(s, ExecEvent::BodyReceived { bytes: 42 });
    assert_eq!(s.phase, ExecPhase::Done);
    assert!(matches!(a, ExecAction::Complete { status: 200, bytes: 42 }));
    let (s, a) = http_step(s, ExecEvent::BodyReceived { bytes: 1 });
    assert_eq!(s.phase, ExecPhase::Done);
    assert!(matches!(a, ExecAction::Ignore));
}

#[test]
fn network_failures_end_the_execution() {
    let s = begin("GET");
    let (s, _) = http_step(s, ExecEvent::UrlResolved { value: "u".into(), display_value: "u".into(), cancelled: false });
    let (s, a) = http_step(s, ExecEvent::NetworkFailed { error: "refused".into() });
    assert_eq!(s.phase, ExecPhase::Done);
    assert!(matches!(a, ExecAction::FailNetwork(ref e) if e == "refused"));
}
