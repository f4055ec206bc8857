//! Error values of the gateway and their mapping to HTTP responses.

use vstd::prelude::*;

verus! {

/// What kind of failure occurred.
#[derive(Debug, Clone, Copy, PartialEq, Eq, Structural)]
pub enum ErrorKind {
    /// Missing profile, unknown classifier tier or backend, key required but
    /// unset. Never retried.
    Configuration,
    /// Connection failure, TLS error or timeout.
    UpstreamTransport,
    /// A non-2xx status from the upstream.
    UpstreamStatus,
    /// An upstream body that is not JSON, or that lacks what the adapter needs.
    Decode,
    /// Escalate reached its last allowed tier without a sufficient answer.
    Exhaustion,
}

/// A failure with its kind and a human-readable message.
#[derive(Debug)]
pub struct GatewayError {
    pub kind: ErrorKind,
    pub message: String,
}

impl GatewayError {
    /// A configuration error with the given message.
    pub fn configuration(message: &str) -> (r: Self)
        ensures
            r.kind == ErrorKind::Configuration,
            r.message@ == message@,
    {
        GatewayError { kind: ErrorKind::Configuration, message: message.to_owned() }
    }

    /// An error of the given kind.
    pub fn new(kind: ErrorKind, message: String) -> (r: Self)
        ensures
            r.kind == kind,
            r.message == message,
    {
        GatewayError { kind, message }
    }
}

/// The HTTP status for an error kind: configuration-shaped failures are
/// client errors, every other failure a server error.
pub open spec fn status_for(kind: ErrorKind) -> u16 {
    match kind {
        ErrorKind::Configuration => 400,
        _ => 500,
    }
}

/// An error as returned by an HTTP handler: a status and the text of the
/// JSON body `{"error": <message>}`.
#[derive(Debug)]
pub struct AppError {
    pub status: u16,
    pub message: String,
}

impl AppError {
    /// An internal error with the given message.
    pub fn internal(message: String) -> (r: Self)
        ensures
            r.status == 500,
            r.message == message,
    {
        AppError { status: 500, message }
    }
}

impl From<GatewayError> for AppError {
    fn from(e: GatewayError) -> (r: Self) {
        let status: u16 = match e.kind {
            ErrorKind::Configuration => 400,
            _ => 500,
        };
        AppError { status, message: e.message }
    }
}

impl vstd::std_specs::convert::FromSpecImpl<GatewayError> for AppError {
    open spec fn obeys_from_spec() -> bool {
        true
    }

    open spec fn from_spec(e: GatewayError) -> AppError {
        AppError { status: status_for(e.kind), message: e.message }
    }
}

#[verifier::external_type_specification]
#[verifier::external_body]
pub struct ExAnyhowError(anyhow::Error);

/// Relies on the `Display` of `anyhow::Error`: the message of the outermost
/// error.
#[verifier::external_body]
fn anyhow_text(e: &anyhow::Error) -> (r: String) {
    e.to_string()
}

impl From<anyhow::Error> for AppError {
    fn from(e: anyhow::Error) -> (r: Self)
        ensures
            r.status == 500,
    {
        AppError { status: 500, message: anyhow_text(&e) }
    }
}

impl vstd::std_specs::convert::FromSpecImpl<anyhow::Error> for AppError {
    open spec fn obeys_from_spec() -> bool {
        false
    }

    open spec fn from_spec(e: anyhow::Error) -> AppError {
        arbitrary()
    }
}

#[verifier::external_type_specification]
#[verifier::external_body]
pub struct ExIoError(std::io::Error);

/// Relies on the `Display` of `std::io::Error`: its message.
#[verifier::external_body]
fn io_text(e: &std::io::Error) -> (r: String) {
    e.to_string()
}

impl From<std::io::Error> for AppError {
    fn from(e: std::io::Error) -> (r: Self)
        ensures
            r.status == 500,
    {
        AppError { status: 500, message: io_text(&e) }
    }
}

impl vstd::std_specs::convert::FromSpecImpl<std::io::Error> for AppError {
    open spec fn obeys_from_spec() -> bool {
        false
    }

    open spec fn from_spec(e: std::io::Error) -> AppError {
        arbitrary()
    }
}

} // verus!
