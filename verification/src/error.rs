//! Error taxonomy for the connection, handshake and streaming layer.
//!
//! Each failure kind is a distinct variant carrying its structured
//! fields, so callers can branch on the kind programmatically instead
//! of inspecting message text.

use vstd::prelude::*;

verus! {

/// The low-level transport failure classes this layer distinguishes.
/// A connection's socket reports one of these when a read or write
/// fails; only the class is needed by the recovery logic, so the
/// class is carried as plain data.
#[derive(Clone, Copy, Debug, PartialEq, Eq, Structural)]
pub enum IoErrorKind {
    /// The peer closed its end and a write hit the closed pipe.
    BrokenPipe,
    /// The connection was reset by the peer.
    ConnectionReset,
    /// The connection was aborted locally.
    ConnectionAborted,
    /// The stream ended before a full frame was read.
    UnexpectedEof,
    /// Any other transport failure.
    Other,
}

/// A failure of the connection, handshake or streaming layer.
#[derive(Clone, Debug, PartialEq, Eq)]
pub enum Error {
    /// A wrapped low-level transport failure.
    Io(IoErrorKind),
    /// Failed to connect with a client to the named service.
    ServiceConnectionFail(String),
    /// Failed to connect to the named topic.
    TopicConnectionFail(String),
    /// A handshake header field held an unexpected value:
    /// field name, expected value, actual value.
    HeaderMismatch(String, String, String),
    /// A required handshake header field was absent: field name.
    HeaderMissingField(String),
    /// A stream was requested with a message type other than the
    /// publisher's binding: expected (bound) type, actual (requested)
    /// type.
    MessageTypeMismatch(String, String),
    /// The data stream was interrupted while reading a service
    /// response.
    ServiceResponseInterruption,
    /// A service response failed for an unknown cause.
    ServiceResponseUnknown,
}

/// True exactly for the transport failure classes that mean the peer
/// is gone: a graceful shutdown seen as a broken pipe, or an abrupt
/// reset.
pub open spec fn spec_is_closed_connection(kind: IoErrorKind) -> bool {
    kind == IoErrorKind::BrokenPipe || kind == IoErrorKind::ConnectionReset
}

/// Classifies a transport failure: `true` when the failure means the
/// peer closed or severed the connection, so the connection's removal
/// is an expected lifecycle event rather than an anomaly.
pub fn is_closed_connection(kind: &IoErrorKind) -> (r: bool)
    ensures
        r == spec_is_closed_connection(*kind),
{
    match *kind {
        IoErrorKind::BrokenPipe => true,
        IoErrorKind::ConnectionReset => true,
        _ => false,
    }
}

impl Error {
    /// True exactly when this error wraps a transport failure whose
    /// class means the peer closed the connection.
    pub open spec fn spec_is_closed_connection(self) -> bool {
        match self {
            Error::Io(kind) => spec_is_closed_connection(kind),
            _ => false,
        }
    }

    /// Classifies this error: `true` only for a wrapped transport
    /// failure of a closed-connection class; every protocol-level
    /// failure answers `false`.
    pub fn is_closed_connection(&self) -> (r: bool)
        ensures
            r == self.spec_is_closed_connection(),
    {
        match self {
            Error::Io(kind) => is_closed_connection(kind),
            _ => false,
        }
    }

    /// A short fixed description of the failure kind, one per
    /// variant.
    pub fn description(&self) -> (r: &'static str)
        ensures
            r@ == self.spec_description(),
    {
        match self {
            Error::Io(_) => "I/O failure on connection",
            Error::ServiceConnectionFail(_) => "Failed to connect to service",
            Error::TopicConnectionFail(_) => "Failed to connect to topic",
            Error::HeaderMismatch(_, _, _) => "Data field within header mismatched",
            Error::HeaderMissingField(_) => "Data field within header missing",
            Error::MessageTypeMismatch(_, _) => "Cannot publish with multiple message types",
            Error::ServiceResponseInterruption => {
                "Data stream interrupted while reading service response"
            },
            Error::ServiceResponseUnknown => "Unknown error caused service response to panic",
        }
    }

    /// The fixed description owed by each variant.
    pub open spec fn spec_description(self) -> Seq<char> {
        match self {
            Error::Io(_) => "I/O failure on connection"@,
            Error::ServiceConnectionFail(_) => "Failed to connect to service"@,
            Error::TopicConnectionFail(_) => "Failed to connect to topic"@,
            Error::HeaderMismatch(_, _, _) => "Data field within header mismatched"@,
            Error::HeaderMissingField(_) => "Data field within header missing"@,
            Error::MessageTypeMismatch(_, _) => "Cannot publish with multiple message types"@,
            Error::ServiceResponseInterruption => {
                "Data stream interrupted while reading service response"@
            },
            Error::ServiceResponseUnknown => "Unknown error caused service response to panic"@,
        }
    }
}

} // verus!
