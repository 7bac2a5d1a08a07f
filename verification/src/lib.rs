//! Core of a multi-client encrypted text relay: per-client cipher sessions,
//! the handshake decoder, wire framing, the client registry, the per-connection
//! state machine and the message router.
//!
//! Everything here is pure with respect to the network: functions take bytes
//! and hand back bytes or decisions, so a server built on top only has to
//! move data between sockets and these functions.

pub mod cipher;
pub mod connection;
pub mod error;
pub mod frame;
pub mod handshake;
pub mod registry;
pub mod router;
pub mod session;
