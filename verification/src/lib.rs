//! Peer-to-peer file transfer: the peer registry and dispatch decisions, and
//! the wire framing with its integrity digest.

pub mod behaviour;
pub mod codec;
pub mod digest;
pub mod peers;
pub mod protocol;
