use vstd::prelude::*;

verus! {

/// Failure while establishing the connection to the native display system.
///
/// Connection-time failures are fatal to the whole connection and are
/// surfaced to the caller that constructs it; they are never retried
/// internally.
#[derive(Debug, Clone, Copy, PartialEq, Eq, Structural)]
pub enum ConnectError {
    Unknown,
    Parse,
    InsufficientMemory,
    IO,
    AuthenticationRejected,
}

/// Runtime failure surfaced by a live connection.
///
/// Clipboard-peer misbehaviour is deliberately not represented here: an
/// unresponsive or non-conforming peer yields `None` results, never an
/// `OSError`.
#[derive(Debug, Clone)]
pub enum OSError {
    UnknownError,
    ParseError,
    InsufficientMemory,
    IO,
    Other(String),
}

} // verus!
