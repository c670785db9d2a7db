//! Error taxonomy of the gateway: upstream failure classes, and the
//! gateway's own startup/transport error kinds.

use vstd::prelude::*;

verus! {

/// The failure class reported by the upstream auth service for a call.
#[derive(Debug, Clone, Copy, PartialEq, Eq)]
pub enum UpstreamStatus {
    InvalidArgument,
    Unauthenticated,
    PermissionDenied,
    NotFound,
    AlreadyExists,
    DeadlineExceeded,
    Unavailable,
    Internal,
    Unknown,
}

/// A failed upstream call: the upstream's failure class and a
/// human-readable diagnostic.
#[derive(Debug, Clone)]
pub struct UpstreamError {
    pub status: UpstreamStatus,
    pub message: String,
}

/// An error of the gateway itself.
#[derive(Debug, Clone)]
pub enum GatewayError {
    /// Malformed or missing configuration.
    ConfigError(String),
    /// The upstream channel could not be established or broke down.
    TransportError(String),
    /// The upstream answered a call with a failure status.
    StatusError(UpstreamError),
}

/// The diagnostic line of a gateway error, prefixed by its kind.
pub open spec fn error_text(e: GatewayError) -> Seq<char> {
    match e {
        GatewayError::ConfigError(m) => "Configuration error: "@ + m@,
        GatewayError::TransportError(m) => "gRPC transport error: "@ + m@,
        GatewayError::StatusError(u) => "gRPC status error: "@ + u.message@,
    }
}

impl GatewayError {
    /// The diagnostic line for this error, prefixed by its kind.
    pub fn message(&self) -> (r: String)
        ensures
            r@ == error_text(*self),
    {
        match self {
            GatewayError::ConfigError(m) => {
                let mut r = String::from_str("Configuration error: ");
                r.append(m.as_str());
                r
            },
            GatewayError::TransportError(m) => {
                let mut r = String::from_str("gRPC transport error: ");
                r.append(m.as_str());
                r
            },
            GatewayError::StatusError(e) => {
                let mut r = String::from_str("gRPC status error: ");
                r.append(e.message.as_str());
                r
            },
        }
    }
}

} // verus!
