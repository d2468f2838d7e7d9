//! A bidirectional byte-stream multiplexer: one half-duplex serial channel is
//! fanned out to any number of connected network clients, and each client's
//! outbound bytes are serialized back onto the same channel without
//! interleaving.
//!
//! The crate holds the logic of the bridge: the duplex channel discipline
//! (atomic writes, consume-once reads), the client registry (fresh monotonic
//! ids, idempotent removal, broadcast with pruning of dead sinks), the
//! per-session lifecycle state machine, and the loop-body decisions of the
//! outbound broadcaster and the inbound forwarders. The surrounding process
//! (hardware driver, network transport, HTTP routing) performs the actual I/O
//! and feeds its outcomes into these functions as plain values.

pub mod bridge;
mod bytes;
pub mod channel;
pub mod registry;
pub mod session;
