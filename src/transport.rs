//! What a receive or a send reports, judged the same way by both framings.
use vstd::prelude::*;

verus! {

/// Receive flag: the receive completed a record.
pub const FLAG_END_OF_RECORD: u32 = 0x80;

/// Receive flag: part of the message did not fit the buffer and was lost.
pub const FLAG_TRUNCATED: u32 = 0x20;

/// Receive flag: part of the ancillary data was discarded.
pub const FLAG_CONTROL_TRUNCATED: u32 = 0x08;

/// Receive flag: the data came from the socket's error queue.
pub const FLAG_ERROR_QUEUE: u32 = 0x2000;

/// Whether `bit` is set in `flags`.
pub open spec fn has_flag(flags: u32, bit: u32) -> bool {
    flags & bit != 0
}

/// A receive whose result must end the connection.
#[derive(Debug, PartialEq, Eq, Structural)]
pub enum ReceiveFault {
    /// Part of the message was lost.
    Truncated,
    /// Part of the ancillary data, and so possibly capabilities, was lost.
    ControlTruncated,
    /// An error-queue notification arrived in place of data.
    ErrorQueue,
    /// The peer performed an orderly shutdown.
    PeerClosed,
}

/// The fault that the flags of a receive report, if any; a lost message
/// outranks lost ancillary data, which outranks an error notification.
pub open spec fn flags_fault(flags: u32) -> Option<ReceiveFault> {
    if has_flag(flags, FLAG_TRUNCATED) {
        Some(ReceiveFault::Truncated)
    } else if has_flag(flags, FLAG_CONTROL_TRUNCATED) {
        Some(ReceiveFault::ControlTruncated)
    } else if has_flag(flags, FLAG_ERROR_QUEUE) {
        Some(ReceiveFault::ErrorQueue)
    } else {
        None
    }
}

/// Judges the flags of a receive: `Ok` where the data can be used.
pub fn check_receive_flags(flags: u32) -> (r: Result<(), ReceiveFault>)
    ensures
        flags_fault(flags) is None ==> r is Ok,
        flags_fault(flags) is Some ==> r == Err::<(), ReceiveFault>(flags_fault(flags)->Some_0),
{
    if flags & FLAG_TRUNCATED != 0 {
        Err(ReceiveFault::Truncated)
    } else if flags & FLAG_CONTROL_TRUNCATED != 0 {
        Err(ReceiveFault::ControlTruncated)
    } else if flags & FLAG_ERROR_QUEUE != 0 {
        Err(ReceiveFault::ErrorQueue)
    } else {
        Ok(())
    }
}

/// A send that did not transmit the whole frame in one call.
#[derive(Debug, PartialEq, Eq, Structural)]
pub struct PartialSend {
    /// Bytes the call transmitted.
    pub sent: usize,
    /// Bytes of the whole frame.
    pub expected: usize,
}

/// Judges the result of a send: one call must transmit the whole frame.
pub fn check_sent(sent: usize, expected: usize) -> (r: Result<(), PartialSend>)
    ensures
        sent == expected ==> r is Ok,
        sent != expected ==> r == Err::<(), PartialSend>(PartialSend { sent, expected }),
{
    if sent == expected {
        Ok(())
    } else {
        Err(PartialSend { sent, expected })
    }
}

} // verus!
