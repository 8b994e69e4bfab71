//! The decisions of an HTTP execution, as a step from state and event to
//! the next state and the action to perform: refuse other protocols, stop
//! when cancelled before connecting, fall back to GET for a method the
//! client does not accept, and redact headers before they reach events.
use vstd::prelude::*;
use crate::desktop::{accepts_method, method_accepted};
use crate::engine::{redact_sensitive_header, sensitive_header, ExecutionError};
use crate::text::lowercase;

verus! {

/// Where an execution stands.
#[derive(Debug, Clone, Copy, PartialEq, Eq, Structural)]
pub enum ExecPhase {
    /// Nothing done yet.
    Start,
    /// Events `Preparing` and `ResolvingVariables` sent; the URL is being resolved.
    Resolving,
    /// The request is on its way.
    Sending,
    /// The headers arrived; the body is being read.
    Receiving,
    /// The execution ended.
    Done,
}

/// The state of one execution.
#[derive(Debug)]
pub struct ExecState {
    pub phase: ExecPhase,
    /// The method the request document names.
    pub method: String,
    /// The status code, once the headers arrived.
    pub status: u16,
}

/// What happened.
#[derive(Debug)]
pub enum ExecEvent {
    /// The execution was asked for a request of this protocol kind and method.
    Begin { is_http: bool, method: String },
    /// The URL template resolved to `value`, shown as `display_value`; and
    /// whether the execution was cancelled meanwhile.
    UrlResolved { value: String, display_value: String, cancelled: bool },
    /// The response headers arrived: each name with its value as text.
    ResponseHeaders { status: u16, headers: Vec<(String, String)> },
    /// The whole body arrived.
    BodyReceived { bytes: usize },
    /// The network call, or reading the body, failed with this message.
    NetworkFailed { error: String },
}

/// What to do next.
#[derive(Debug)]
pub enum ExecAction {
    /// Return this error; send no event.
    Fail(ExecutionError),
    /// Send `Preparing` and `ResolvingVariables`, then resolve the URL.
    Resolve,
    /// Send `Cancelled` and return `ExecutionError::Cancelled`.
    Cancel,
    /// Send `Connecting` with `display_url` (never the raw value), then send
    /// the request with `method` to `url`.
    Connect { display_url: String, method: String, url: String },
    /// Send `HeadersReceived` with these headers, then read the body.
    EmitHeaders { status: u16, headers: Vec<(String, String)> },
    /// Send `DownloadProgress` and `Completed` and return the summary.
    Complete { status: u16, bytes: usize },
    /// Send `Failed` with this message and return `ExecutionError::Network` of it.
    FailNetwork(String),
    /// The event does not belong to this phase: nothing to do.
    Ignore,
}

/// The value a header may show in events.
pub open spec fn shown_value(name: Seq<char>, value: Seq<char>) -> Seq<char> {
    if sensitive_header(lowercase(name)) {
        "[REDACTED]"@
    } else {
        value
    }
}

/// The method a request is sent with: its own when the client accepts it, GET otherwise.
pub open spec fn sent_method(method: Seq<char>) -> Seq<char> {
    if method_accepted(method) {
        method
    } else {
        "GET"@
    }
}

/// Whether `event` is one the execution waits for in `phase`.
pub open spec fn expected(phase: ExecPhase, event: ExecEvent) -> bool {
    match phase {
        ExecPhase::Start => event is Begin,
        ExecPhase::Resolving => event is UrlResolved,
        ExecPhase::Sending => event is ResponseHeaders || event is NetworkFailed,
        ExecPhase::Receiving => event is BodyReceived || event is NetworkFailed,
        ExecPhase::Done => false,
    }
}

/// Every header with its value as events may show it.
fn redact_headers(headers: &Vec<(String, String)>) -> (r: Vec<(String, String)>)
    ensures
        r@.len() == headers@.len(),
        forall|i: int| 0 <= i < r@.len() ==> (#[trigger] r@[i]).0@ == headers@[i].0@ && r@[i].1@ == shown_value(
            headers@[i].0@,
            headers@[i].1@,
        ),
{
    let mut out: Vec<(String, String)> = Vec::new();
    let mut i: usize = 0;
    while i < headers.len()
        invariant
            i <= headers.len(),
            out@.len() == i,
            forall|k: int| 0 <= k < i ==> (#[trigger] out@[k]).0@ == headers@[k].0@ && out@[k].1@ == shown_value(
                headers@[k].0@,
                headers@[k].1@,
            ),
        decreases headers.len() - i,
    {
        let name = headers[i].0.clone();
        let value = redact_sensitive_header(headers[i].0.as_str(), headers[i].1.as_str());
        out.push((name, value));
        i = i + 1;
    }
    out
}

/// One step of an HTTP execution.
pub fn http_step(state: ExecState, event: ExecEvent) -> (r: (ExecState, ExecAction))
    ensures
        event matches ExecEvent::Begin { is_http, method } ==> (state.phase is Start ==> (if is_http {
            r.0.phase is Resolving && r.0.method@ == method@ && r.1 is Resolve
        } else {
            r.0.phase is Done && (r.1 matches ExecAction::Fail(ExecutionError::Protocol(m)) && m@
                == "Non-HTTP protocol passed"@)
        })),
        event matches ExecEvent::UrlResolved { value, display_value, cancelled } ==> (state.phase is Resolving
            ==> (if cancelled {
            r.0.phase is Done && r.1 is Cancel
        } else {
            r.0.phase is Sending && (r.1 matches ExecAction::Connect { display_url, method, url } && display_url@
                == display_value@ && url@ == value@ && method@ == sent_method(state.method@))
        })),
        event matches ExecEvent::ResponseHeaders { status, headers } ==> (state.phase is Sending ==> (r.0.phase
            is Receiving && r.0.status == status && (r.1 matches ExecAction::EmitHeaders { status: s, headers: h }
            && s == status && h@.len() == headers@.len() && forall|i: int|
            0 <= i < h@.len() ==> (#[trigger] h@[i]).0@ == headers@[i].0@ && h@[i].1@ == shown_value(
            headers@[i].0@,
            headers@[i].1@,
        )))),
        event matches ExecEvent::NetworkFailed { error } ==> (state.phase is Sending ==> (r.0.phase is Done
            && (r.1 matches ExecAction::FailNetwork(e) && e@ == error@))),
        event matches ExecEvent::NetworkFailed { error } ==> (state.phase is Receiving ==> (r.0.phase is Done
            && (r.1 matches ExecAction::Fail(ExecutionError::Network(e)) && e@ == error@))),
        event matches ExecEvent::BodyReceived { bytes } ==> (state.phase is Receiving ==> (r.0.phase is Done
            && (r.1 matches ExecAction::Complete { status: s, bytes: b } && s == state.status && b == bytes))),
        !expected(state.phase, event) ==> r.1 is Ignore && r.0.phase == state.phase,
        !(state.phase is Start && event is Begin) ==> r.0.method@ == state.method@,
        !(state.phase is Sending && event is ResponseHeaders) ==> r.0.status == state.status,
{
    let ExecState { phase, method: current, status: current_status } = state;
    match (phase, event) {
        (ExecPhase::Start, ExecEvent::Begin { is_http, method }) => {
            if !is_http {
                (
                    ExecState { phase: ExecPhase::Done, method: current, status: current_status },
                    ExecAction::Fail(ExecutionError::Protocol("Non-HTTP protocol passed".to_owned())),
                )
            } else {
                (ExecState { phase: ExecPhase::Resolving, method, status: current_status }, ExecAction::Resolve)
            }
        },
        (ExecPhase::Resolving, ExecEvent::UrlResolved { value, display_value, cancelled }) => {
            if cancelled {
                (ExecState { phase: ExecPhase::Done, method: current, status: current_status }, ExecAction::Cancel)
            } else {
                let sent = if accepts_method(current.as_str()) {
                    current.clone()
                } else {
                    "GET".to_owned()
                };
                (
                    ExecState { phase: ExecPhase::Sending, method: current, status: current_status },
                    ExecAction::Connect { display_url: display_value, method: sent, url: value },
                )
            }
        },
        (ExecPhase::Sending, ExecEvent::ResponseHeaders { status, headers }) => {
            let shown = redact_headers(&headers);
            (
                ExecState { phase: ExecPhase::Receiving, method: current, status },
                ExecAction::EmitHeaders { status, headers: shown },
            )
        },
        (ExecPhase::Sending, ExecEvent::NetworkFailed { error }) => {
            (ExecState { phase: ExecPhase::Done, method: current, status: current_status }, ExecAction::FailNetwork(error))
        },
        (ExecPhase::Receiving, ExecEvent::BodyReceived { bytes }) => {
            (
                ExecState { phase: ExecPhase::Done, method: current, status: current_status },
                ExecAction::Complete { status: current_status, bytes },
            )
        },
        (ExecPhase::Receiving, ExecEvent::NetworkFailed { error }) => {
            (
                ExecState { phase: ExecPhase::Done, method: current, status: current_status },
                ExecAction::Fail(ExecutionError::Network(error)),
            )
        },
        (p, _) => (ExecState { phase: p, method: current, status: current_status }, ExecAction::Ignore),
    }
}

impl ExecState {
    /// The state an execution starts in.
    pub fn new() -> (s: Self)
        ensures
            s.phase is Start,
            s.method@ == Seq::<char>::empty(),
            s.status == 0,
    {
        ExecState { phase: ExecPhase::Start, method: String::new(), status: 0 }
    }
}

} // verus!
