//! Framing, capability accounting and readiness dispatch for a local
//! message-passing protocol over Unix-domain sockets.
//!
//! The modules hold the decisions of the protocol as verified functions on
//! plain values: socket system calls, the readiness wait and the payload
//! codec are performed by the program around the library, which hands the
//! results in and carries the returned decisions out.
pub mod connections;
pub mod fs_utils;
pub mod message;
pub mod packet;
pub mod readiness;
pub mod record;
pub mod stream;
pub mod transport;

pub use packet::{Message, Packet};
