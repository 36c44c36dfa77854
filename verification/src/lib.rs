//! Core of a newline-framed chat relay.
//!
//! The library holds the parts of the relay that carry its logic: the wire
//! codec that turns a [`message::Message`] into a single-line frame and back,
//! a model of the server's broadcast hub with its drop-oldest policy for slow
//! subscribers, the per-connection session decisions, and the client-side
//! bridge queues. Socket I/O and task scheduling live outside the library and
//! drive these functions with plain values.

pub mod bridge;
pub mod codec;
pub mod hub;
pub mod message;
pub mod session;
