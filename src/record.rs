//! Record framing over a connection-oriented datagram socket.
//!
//! The kernel keeps record boundaries, so no header is needed: the bytes and
//! capabilities of consecutive partial receives are joined until one of them
//! carries the end-of-record flag.
use vstd::prelude::*;

use crate::packet::Packet;
use crate::transport::{check_receive_flags, flags_fault, has_flag, ReceiveFault, FLAG_END_OF_RECORD};

verus! {

/// The packet being assembled from the partial receives of one record.
#[derive(Debug)]
pub struct RecordAccumulator<F> {
    pending: Packet<F>,
}

impl<F> View for RecordAccumulator<F> {
    type V = (Seq<u8>, Seq<F>);

    /// The bytes and capabilities received so far of the current record.
    closed spec fn view(&self) -> (Seq<u8>, Seq<F>) {
        self.pending@
    }
}

impl<F> RecordAccumulator<F> {
    /// An accumulator with nothing received.
    pub fn new() -> (r: Self)
        ensures
            r@.0 == Seq::<u8>::empty(),
            r@.1 == Seq::<F>::empty(),
    {
        RecordAccumulator { pending: Packet::empty() }
    }

    /// Takes in one receive: its bytes, the capabilities attached to it and
    /// its flags.
    ///
    /// An empty receive means the peer closed; a fault in the flags ends the
    /// connection; in both cases nothing is kept. Otherwise the receive is
    /// appended, and where it ends the record the whole packet is returned and
    /// the accumulator starts afresh.
    pub fn absorb(&mut self, bytes: Vec<u8>, fds: Vec<F>, flags: u32) -> (r: Result<
        Option<Packet<F>>,
        ReceiveFault,
    >)
        ensures
            bytes@.len() == 0 ==> r == Err::<Option<Packet<F>>, ReceiveFault>(
                ReceiveFault::PeerClosed,
            ) && final(self)@ == old(self)@,
            bytes@.len() > 0 && flags_fault(flags) is Some ==> r == Err::<
                Option<Packet<F>>,
                ReceiveFault,
            >(flags_fault(flags)->Some_0) && final(self)@ == old(self)@,
            bytes@.len() > 0 && flags_fault(flags) is None && has_flag(flags, FLAG_END_OF_RECORD)
                ==> r is Ok && r->Ok_0 is Some && r->Ok_0->Some_0@ == (
                old(self)@.0 + bytes@,
                old(self)@.1 + fds@,
            ) && final(self)@ == (Seq::<u8>::empty(), Seq::<F>::empty()),
            bytes@.len() > 0 && flags_fault(flags) is None && !has_flag(flags, FLAG_END_OF_RECORD)
                ==> r == Ok::<Option<Packet<F>>, ReceiveFault>(None) && final(self)@ == (
                old(self)@.0 + bytes@,
                old(self)@.1 + fds@,
            ),
    {
        if bytes.len() == 0 {
            return Err(ReceiveFault::PeerClosed);
        }
        if let Err(fault) = check_receive_flags(flags) {
            return Err(fault);
        }
        let mut bytes = bytes;
        let mut fds = fds;
        self.pending.data.append(&mut bytes);
        self.pending.fds.append(&mut fds);
        if flags & FLAG_END_OF_RECORD != 0 {
            let mut done = Packet::empty();
            std::mem::swap(&mut self.pending, &mut done);
            Ok(Some(done))
        } else {
            Ok(None)
        }
    }
}

} // verus!
