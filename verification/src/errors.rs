//! Error types returned by channel operations.
//!
//! No operation recovers from a failure internally: each returns a typed
//! error to its caller, and a malformed or adversarial payload is always
//! surfaced as an error, never as a panic.

use vstd::prelude::*;

verus! {

/// Failure to resolve a bootstrap name into a live listening endpoint.
#[derive(Clone, Copy, Debug, PartialEq, Eq, Structural)]
pub enum ConnectionError {
    /// No listening endpoint is registered under the given name, or it was
    /// already claimed by an earlier connection.
    NameNotFound,
}

/// Failure to deliver an encoded value to the peer.
#[derive(Clone, Copy, Debug, PartialEq, Eq, Structural)]
pub enum SendError {
    /// The paired receiver no longer exists.
    Disconnected,
}

/// Failure of `recv` to produce a value.
#[derive(Clone, Copy, Debug, PartialEq, Eq, Structural)]
pub enum RecvError {
    /// Every sender endpoint of the channel was dropped before a message
    /// arrived.
    Disconnected,
    /// The byte payload is malformed, or does not decode to a value of the
    /// expected payload type.
    Decode,
    /// The payload references a capability index with no matching entry in
    /// the delivered handle sequence.
    HandleIndexOutOfRange,
}

/// Failure of a one-shot server to accept its single connection.
#[derive(Clone, Copy, Debug, PartialEq, Eq, Structural)]
pub enum AcceptError {
    /// The transport-level accept failed before a first message arrived.
    Accept,
    /// The first message arrived but could not be decoded.
    FirstMessage(RecvError),
}

} // verus!
