//! The raw transport: opaque connected endpoints that carry one logical
//! message — a byte buffer plus an ordered list of raw sender handles —
//! atomically and in order.
//!
//! The transport here is in-process, over `std::sync::mpsc`; everything the
//! library states about it is confined to the trusted items of this module.
//! A `RawSender` is abstracted by the channel it feeds: duplicating one
//! yields the same abstract value, and the channel identity of a pair made
//! together is shared. Nothing is assumed about what a receive returns —
//! that depends on the peer — beyond the documented disconnection behaviour.
//!
//! The core relies on, and does not itself enforce, one further documented
//! property of the transport: messages sent on one sender are delivered to
//! the paired receiver in the order they were sent, each arriving together
//! with exactly the capability list handed over beside its bytes.

use vstd::prelude::*;
use crate::errors::RecvError;
use crate::errors::SendError;

verus! {

/// One delivered message: the in-band bytes and the out-of-band, ordered
/// capability list built for exactly those bytes.
pub struct RawMessage {
    pub bytes: Vec<u8>,
    pub handles: Vec<RawSender>,
}

/// The sending half of a raw connection. Duplicable; may itself be
/// transmitted as a capability inside another message.
///
/// Held opaquely: the field instantiates `std::sync::mpsc::Sender` with a
/// message type that mentions `RawSender` itself, which a generic type
/// declaration cannot express.
#[verifier::external_body]
pub struct RawSender {
    inner: std::sync::mpsc::Sender<RawMessage>,
}

/// The receiving half of a raw connection. Owned by exactly one consumer.
#[verifier::external_body]
pub struct RawReceiver {
    inner: std::sync::mpsc::Receiver<RawMessage>,
}

/// The identity of the channel a raw sender feeds.
pub uninterp spec fn sender_chan(s: RawSender) -> int;

/// The identity of the channel a raw receiver drains.
pub uninterp spec fn receiver_chan(r: RawReceiver) -> int;

impl Clone for RawSender {
    /// Relies on `std::sync::mpsc::Sender::clone`: the duplicate sends to
    /// the same channel as the original, so it has the same abstract value.
    #[verifier::external_body]
    fn clone(&self) -> (r: Self)
        ensures
            r == *self,
    {
        RawSender { inner: self.inner.clone() }
    }
}

/// Relies on `std::sync::mpsc::channel`: returns the two halves of one newly
/// created connection.
#[verifier::external_body]
pub fn raw_channel() -> (r: (RawSender, RawReceiver))
    ensures
        sender_chan(r.0) == receiver_chan(r.1),
{
    let (tx, rx) = std::sync::mpsc::channel();
    (RawSender { inner: tx }, RawReceiver { inner: rx })
}

impl RawSender {
    /// Relies on `std::sync::mpsc::Sender::send`: delivers the message to
    /// the paired receiver's queue, failing exactly when the receiver has
    /// been dropped. Which outcome occurs depends on the peer, so nothing is
    /// stated beyond the shape of the failure.
    #[verifier::external_body]
    pub fn send(&self, bytes: Vec<u8>, handles: Vec<RawSender>) -> (r: Result<(), SendError>)
        ensures
            r matches Err(e) ==> e == SendError::Disconnected,
    {
        match self.inner.send(RawMessage { bytes, handles }) {
            Ok(()) => Ok(()),
            Err(_) => Err(SendError::Disconnected),
        }
    }
}

impl RawReceiver {
    /// Relies on `std::sync::mpsc::Receiver::recv`: blocks until a message
    /// arrives, and fails exactly when every sender was dropped and the
    /// queue is drained. What a delivered message holds depends on the peer,
    /// so nothing is stated of it.
    #[verifier::external_body]
    pub fn recv(&self) -> (r: Result<RawMessage, RecvError>)
        ensures
            r matches Err(e) ==> e == RecvError::Disconnected,
    {
        match self.inner.recv() {
            Ok(m) => Ok(m),
            Err(_) => Err(RecvError::Disconnected),
        }
    }
}

} // verus!
