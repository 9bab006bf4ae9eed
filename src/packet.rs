use vstd::prelude::*;

verus! {

/// One complete application-level message: an opaque payload and the
/// descriptor capabilities that travel with it, in order.
///
/// `F` is the type of a capability handle (an owned descriptor in a program,
/// any value in a test).
#[derive(Debug)]
pub struct Packet<F> {
    /// The payload, without any framing header.
    pub data: Vec<u8>,
    /// The capabilities attached to this packet, in arrival order.
    pub fds: Vec<F>,
}

/// A decoded message together with the capabilities that came with it.
pub struct Message<T, F> {
    pub msg: T,
    pub fds: Vec<F>,
}

impl<F> View for Packet<F> {
    type V = (Seq<u8>, Seq<F>);

    /// A packet is its payload and its capabilities.
    open spec fn view(&self) -> (Seq<u8>, Seq<F>) {
        (self.data@, self.fds@)
    }
}

impl<F> Packet<F> {
    /// A packet with no payload and no capabilities.
    pub fn empty() -> (r: Self)
        ensures
            r.data@ == Seq::<u8>::empty(),
            r.fds@ == Seq::<F>::empty(),
    {
        Packet { data: Vec::new(), fds: Vec::new() }
    }

    /// Whether this packet fits the sixteen-bit length and count fields of
    /// the stream framing.
    pub open spec fn fits_stream_header(self) -> bool {
        self.data@.len() <= 0xffff && self.fds@.len() <= 0xffff
    }
}

} // verus!
