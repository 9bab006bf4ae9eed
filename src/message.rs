//! The application messages that travel as packet payloads. Their byte
//! encoding belongs to the codec of the program around the library.
use vstd::prelude::*;

verus! {

/// Requests are messages from a client to the server.
#[derive(Debug)]
pub enum RequestMsg {
    Announce(AnnounceMsg),
}

/// A client names itself.
#[derive(Debug)]
pub struct AnnounceMsg {
    pub name: String,
}

/// Events are messages from the server to a client.
#[derive(Debug, PartialEq, Eq, Structural)]
pub enum EventMsg {
    AnnounceAccepted,
}

} // verus!
