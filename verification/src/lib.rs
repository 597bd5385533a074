//! Typed, in-process communication channels with capability passing.
//!
//! A `Sender` and `Receiver` pair exchange structured values; a value may
//! itself contain further sender endpoints, which travel alongside the byte
//! payload as an ordered capability list and are reconstructed, immediately
//! usable, on the receiving side. The encoding of values to bytes, the
//! assignment of capability indices, and their resolution on decode are
//! verified; the raw transport underneath is trusted.

pub mod errors;
pub mod raw;
pub mod model;
pub mod wire;
pub mod codec;
pub mod channel;
pub mod bootstrap;

pub use errors::AcceptError;
pub use errors::ConnectionError;
pub use errors::RecvError;
pub use errors::SendError;
pub use model::Value;
pub use channel::channel;
pub use channel::decode_payload;
pub use channel::IpcReceiver;
pub use channel::IpcSender;
pub use channel::Payload;
pub use bootstrap::Bootstrap;
pub use bootstrap::IpcOneShotServer;
pub use codec::encode_message;
pub use codec::decode_message;
