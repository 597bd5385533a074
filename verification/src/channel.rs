//! Typed sender and receiver endpoints.
//!
//! An `IpcSender<T>` and `IpcReceiver<T>` pair carry values of one payload
//! type `T`; the type parameter is a compile-time tag with no runtime
//! representation. A sender is duplicable, and may itself travel inside a
//! message; a receiver is owned by exactly one consumer.

use vstd::prelude::*;
use core::marker::PhantomData;
use crate::errors::ConnectionError;
use crate::errors::RecvError;
use crate::errors::SendError;
use crate::model::Value;
use crate::model::ValModel;
use crate::model::conc;
use crate::raw::RawSender;
use crate::raw::RawReceiver;
use crate::raw::raw_channel;
use crate::raw::sender_chan;
use crate::raw::receiver_chan;
use crate::codec::encode_message;
use crate::codec::decode_message;
use crate::wire::DecRes;
use crate::wire::dec;

verus! {

/// A type that can travel over a channel: it embeds into the structured
/// [`Value`] tree and can be read back from it.
pub trait Payload: Sized {
    /// The value model this payload stands for.
    spec fn pview(&self) -> ValModel;

    /// Embeds the payload into a channel value.
    fn to_value(self) -> (v: Value)
        ensures
            v@ == self.pview(),
    ;

    /// Reads a payload back from a channel value: some payload standing for
    /// exactly this value, whenever one exists.
    fn from_value(v: Value) -> (r: Option<Self>)
        ensures
            r matches Some(x) ==> x.pview() == v@,
            (exists|x: Self| x.pview() == v@) ==> r is Some,
    ;
}

impl Payload for Value {
    open spec fn pview(&self) -> ValModel {
        (*self)@
    }

    fn to_value(self) -> (v: Value) {
        self
    }

    fn from_value(v: Value) -> (r: Option<Self>) {
        Some(v)
    }
}

impl Payload for u64 {
    open spec fn pview(&self) -> ValModel {
        ValModel::Int(*self)
    }

    fn to_value(self) -> (v: Value) {
        Value::Int(self)
    }

    fn from_value(v: Value) -> (r: Option<Self>) {
        match v {
            Value::Int(n) => Some(n),
            _ => None,
        }
    }
}

impl Payload for String {
    open spec fn pview(&self) -> ValModel {
        ValModel::Str(self@)
    }

    fn to_value(self) -> (v: Value) {
        Value::Str(self)
    }

    fn from_value(v: Value) -> (r: Option<Self>) {
        match v {
            Value::Str(s) => Some(s),
            _ => None,
        }
    }
}

/// The sending half of a typed channel. Duplicable; transmissible as a
/// capability inside another message.
pub struct IpcSender<T> {
    raw: RawSender,
    phantom: PhantomData<T>,
}

/// The receiving half of a typed channel. Owned by exactly one consumer.
pub struct IpcReceiver<T> {
    raw: RawReceiver,
    phantom: PhantomData<T>,
}

impl<T> IpcSender<T> {
    /// The identity of the raw channel this sender feeds.
    pub closed spec fn chan(&self) -> int {
        sender_chan(self.raw)
    }

    pub(crate) fn from_raw(raw: RawSender) -> (r: Self)
        ensures
            r.chan() == sender_chan(raw),
    {
        IpcSender { raw, phantom: PhantomData }
    }
}

impl<T> IpcReceiver<T> {
    /// The identity of the raw channel this receiver drains.
    pub closed spec fn chan(&self) -> int {
        receiver_chan(self.raw)
    }

    pub(crate) fn from_raw(raw: RawReceiver) -> (r: Self)
        ensures
            r.chan() == receiver_chan(raw),
    {
        IpcReceiver { raw, phantom: PhantomData }
    }
}

impl<T> Clone for IpcSender<T> {
    /// Duplicates the underlying raw handle: both clones feed one channel,
    /// and closing either leaves the other usable.
    fn clone(&self) -> (r: Self)
        ensures
            r.chan() == self.chan(),
    {
        IpcSender { raw: self.raw.clone(), phantom: PhantomData }
    }
}

impl<T: Payload> Payload for IpcSender<T> {
    closed spec fn pview(&self) -> ValModel {
        ValModel::Sender(self.raw)
    }

    fn to_value(self) -> (v: Value) {
        Value::Sender(self.raw)
    }

    fn from_value(v: Value) -> (r: Option<Self>) {
        match v {
            Value::Sender(s) => Some(IpcSender { raw: s, phantom: PhantomData }),
            _ => None,
        }
    }
}

/// Creates a connected sender/receiver pair over a fresh raw channel.
pub fn channel<T: Payload>() -> (r: Result<(IpcSender<T>, IpcReceiver<T>), ConnectionError>)
    ensures
        r matches Ok(p) && p.0.chan() == p.1.chan(),
{
    let (tx, rx) = raw_channel();
    Ok((IpcSender::from_raw(tx), IpcReceiver::from_raw(rx)))
}

/// Decodes one delivered message — byte payload plus capability list — into
/// a typed payload. Exactly one of three things happens: the bytes form one
/// well-formed value read back in full, every embedded index resolves, and a
/// payload standing for that value exists; or the payload is reported
/// malformed; or an out-of-range capability index is reported.
pub fn decode_payload<T: Payload>(bytes: &Vec<u8>, handles: &Vec<RawSender>) -> (r: Result<
    T,
    RecvError,
>)
    ensures
        match dec(bytes@, 0, handles@.len() as nat) {
            DecRes::Node(w, p) => {
                if p == bytes@.len() {
                    match r {
                        Ok(x) => x.pview() == conc(w, handles@),
                        Err(e) => e == RecvError::Decode && (forall|x: T|
                            x.pview() != conc(w, handles@)),
                    }
                } else {
                    r == Err::<T, RecvError>(RecvError::Decode)
                }
            },
            DecRes::Malformed => r == Err::<T, RecvError>(RecvError::Decode),
            DecRes::BadIndex => r == Err::<T, RecvError>(RecvError::HandleIndexOutOfRange),
        },
{
    match decode_message(bytes, handles) {
        Ok(v) => {
            match T::from_value(v) {
                Some(x) => Ok(x),
                None => Err(RecvError::Decode),
            }
        },
        Err(e) => Err(e),
    }
}

impl<T: Payload> IpcSender<T> {
    /// Encodes `data` — collecting its embedded endpoints into the
    /// capability list — and hands bytes and list to the transport as one
    /// atomic message. Every call builds its capability list afresh and
    /// discards it with the call, succeed or fail: no state is shared with
    /// any other operation. What the encoding holds is pinned down by
    /// [`encode_message`]; delivery itself depends on the peer, so failure
    /// is only classified, never promised away.
    pub fn send(&self, data: T) -> (r: Result<(), SendError>)
        ensures
            r matches Err(e) ==> e == SendError::Disconnected,
    {
        let value = data.to_value();
        let (bytes, handles) = encode_message(&value);
        self.raw.send(bytes, handles)
    }
}

impl<T: Payload> IpcReceiver<T> {
    /// Blocks until a message arrives or every sender is gone, then decodes
    /// it as [`decode_payload`] does. What is returned for each delivered
    /// message is pinned down there; which message arrives, or whether the
    /// peer disconnected instead, depends on the peer.
    pub fn recv(&self) -> (r: Result<T, RecvError>)
    {
        match self.raw.recv() {
            Ok(msg) => decode_payload::<T>(&msg.bytes, &msg.handles),
            Err(e) => Err(e),
        }
    }
}

} // verus!
