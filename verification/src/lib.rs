//! A stream-oriented peer-to-peer transport carried over an anonymous mixnet.
//!
//! The mixnet delivers unordered datagrams. This library holds the rules that
//! turn them into connections: the wire envelope and its binary form, the
//! per-connection reorder queue, the substream multiplexer, and the transport
//! state machine that drives the dial/accept handshake.

pub mod address;
pub mod codec;
pub mod connection;
pub mod error;
pub mod invariants;
pub mod message;
pub mod queue;
pub mod substream;
pub mod transport;
