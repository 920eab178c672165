//! Wire-level framing and handshake negotiation for a length-prefixed binary
//! protocol: a consumable byte buffer built on a variable-length integer
//! codec, the packets of the handshake/status/ping family, and the
//! per-connection state machine that turns raw socket bytes into decoded
//! packets and responses.

pub mod buffer;
pub mod client;
pub mod packet;
pub mod varint;
