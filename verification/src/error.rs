//! The ways in which handling a connection can fail, and the status that
//! each one is answered with.

use vstd::prelude::*;

verus! {

/// Why a request could not be served.
#[derive(Clone, Copy, Debug, PartialEq, Eq, Structural)]
pub enum ErrorKind {
    /// The request line does not hold a method, a target and a version.
    MalformedRequest,
    /// The header block is longer than the configured limit.
    HeaderTooLarge,
    /// The body is longer than the configured limit.
    PayloadTooLarge,
    /// The path leads out of the served tree, or the file cannot be read.
    Forbidden,
    /// Nothing exists at the path.
    NotFound,
    /// The method is not served at this path.
    MethodNotAllowed,
    /// The script ended with a status other than zero.
    ScriptFailed,
    /// A read or a script took longer than allowed.
    Timeout,
    /// The transport failed; nothing more can be sent.
    TransportFailure,
}

/// The status code that answers `kind`; a transport failure is answered
/// with nothing.
pub open spec fn status_of(kind: ErrorKind) -> Option<u16> {
    match kind {
        ErrorKind::MalformedRequest => Some(400u16),
        ErrorKind::HeaderTooLarge => Some(431u16),
        ErrorKind::PayloadTooLarge => Some(413u16),
        ErrorKind::Forbidden => Some(403u16),
        ErrorKind::NotFound => Some(404u16),
        ErrorKind::MethodNotAllowed => Some(405u16),
        ErrorKind::ScriptFailed => Some(500u16),
        ErrorKind::Timeout => Some(500u16),
        ErrorKind::TransportFailure => None,
    }
}

/// Executable form of [`status_of`].
pub fn status_code_of(kind: ErrorKind) -> (r: Option<u16>)
    ensures
        r == status_of(kind),
{
    match kind {
        ErrorKind::MalformedRequest => Some(400),
        ErrorKind::HeaderTooLarge => Some(431),
        ErrorKind::PayloadTooLarge => Some(413),
        ErrorKind::Forbidden => Some(403),
        ErrorKind::NotFound => Some(404),
        ErrorKind::MethodNotAllowed => Some(405),
        ErrorKind::ScriptFailed => Some(500),
        ErrorKind::Timeout => Some(500),
        ErrorKind::TransportFailure => None,
    }
}

} // verus!
