//! Request execution errors and redaction of sensitive headers.
use vstd::prelude::*;
use crate::text::{chars_of, contains, contains_seq, decimal, lowercase, push_decimal, str_eq, to_lowercase};

verus! {

/// Why a request execution failed.
#[derive(Debug)]
pub enum ExecutionError {
    Cancelled,
    Network(String),
    Protocol(String),
    Timeout(u64),
    Internal(String),
}

impl ExecutionError {
    /// The text of the error.
    pub fn message(&self) -> (m: String)
        ensures
            m@ == match self {
                ExecutionError::Cancelled => "Execution was cancelled"@,
                ExecutionError::Network(e) => "Network error: "@ + e@,
                ExecutionError::Protocol(e) => "Protocol error: "@ + e@,
                ExecutionError::Timeout(ms) => "Timeout after "@ + decimal(*ms as nat) + " ms"@,
                ExecutionError::Internal(e) => "Internal execution error: "@ + e@,
            },
    {
        match self {
            ExecutionError::Cancelled => "Execution was cancelled".to_owned(),
            ExecutionError::Network(e) => {
                let mut m = "Network error: ".to_owned();
                m.push_str(e.as_str());
                m
            },
            ExecutionError::Protocol(e) => {
                let mut m = "Protocol error: ".to_owned();
                m.push_str(e.as_str());
                m
            },
            ExecutionError::Timeout(ms) => {
                let mut m = "Timeout after ".to_owned();
                push_decimal(&mut m, *ms);
                m.push_str(" ms");
                m
            },
            ExecutionError::Internal(e) => {
                let mut m = "Internal execution error: ".to_owned();
                m.push_str(e.as_str());
                m
            },
        }
    }
}

/// Whether a header, named in lowercase, carries credentials: authorization
/// and cookies, or a name holding `key`, `secret` or `token`.
pub open spec fn sensitive_header(lower: Seq<char>) -> bool {
    lower == "authorization"@ || lower == "cookie"@ || lower == "set-cookie"@ || contains_seq(
        lower,
        "key"@,
    ) || contains_seq(lower, "secret"@) || contains_seq(lower, "token"@)
}

/// The value of a header as it may be logged: `[REDACTED]` for sensitive
/// headers (name compared in lowercase), the value itself otherwise.
pub fn redact_sensitive_header(name: &str, value: &str) -> (r: String)
    ensures
        r@ == if sensitive_header(lowercase(name@)) {
            "[REDACTED]"@
        } else {
            value@
        },
{
    let lower = to_lowercase(name);
    let l = lower.as_str();
    let chars = chars_of(l);
    let key = chars_of("key");
    let secret = chars_of("secret");
    let token = chars_of("token");
    if str_eq(l, "authorization") || str_eq(l, "cookie") || str_eq(l, "set-cookie") || contains(
        &chars,
        &key,
    ) || contains(&chars, &secret) || contains(&chars, &token) {
        "[REDACTED]".to_owned()
    } else {
        value.to_owned()
    }
}

} // verus!
