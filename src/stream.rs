//! Length-prefixed framing over a reliable byte stream.
//!
//! Each frame is a two-byte little-endian payload length `L`, a two-byte
//! little-endian capability count `C`, and `L` payload bytes. The `C`
//! capabilities of a frame are the next `C` not yet claimed capabilities
//! received on the same socket, in arrival order; bytes and capabilities are
//! therefore buffered separately and bound together only when both are
//! complete.
use vstd::prelude::*;

use crate::packet::Packet;

verus! {

/// Bytes taken by the frame header.
pub const HEADER_LEN: usize = 4;

/// Largest value of a sixteen-bit header field.
pub const FIELD_MAX: usize = 0xffff;

/// The value of two bytes read as a little-endian sixteen-bit integer.
pub open spec fn le16(lo: u8, hi: u8) -> nat {
    lo as nat + 256 * (hi as nat)
}

/// The two little-endian bytes of `n`, for `n` below 65536.
pub open spec fn le16_bytes(n: nat) -> Seq<u8> {
    seq![(n % 256) as u8, (n / 256) as u8]
}

/// The wire bytes of a frame carrying `payload` and announcing `caps`
/// capabilities.
pub open spec fn frame_bytes(payload: Seq<u8>, caps: nat) -> Seq<u8> {
    le16_bytes(payload.len()) + le16_bytes(caps) + payload
}

/// The payload length announced by the header at the front of `data`.
pub open spec fn payload_len(data: Seq<u8>) -> nat {
    le16(data[0], data[1])
}

/// The capability count announced by the header at the front of `data`.
pub open spec fn cap_count(data: Seq<u8>) -> nat {
    le16(data[2], data[3])
}

/// Whether a whole frame, and every capability it announces, is buffered.
pub open spec fn frame_ready<F>(data: Seq<u8>, caps: Seq<F>) -> bool {
    &&& data.len() >= HEADER_LEN
    &&& data.len() >= HEADER_LEN + payload_len(data)
    &&& caps.len() >= cap_count(data)
}

/// The packet that the frame at the front of the buffer carries.
pub open spec fn front_packet<F>(data: Seq<u8>, caps: Seq<F>) -> (Seq<u8>, Seq<F>) {
    (
        data.subrange(HEADER_LEN as int, HEADER_LEN + payload_len(data)),
        caps.subrange(0, cap_count(data) as int),
    )
}

/// What stays buffered once the front frame has been sliced off.
pub open spec fn after_front<F>(data: Seq<u8>, caps: Seq<F>) -> (Seq<u8>, Seq<F>) {
    (
        data.subrange(HEADER_LEN + payload_len(data), data.len() as int),
        caps.subrange(cap_count(data) as int, caps.len() as int),
    )
}

/// Slices complete frames off the front of a buffer until none is left:
/// the packets, in order, and the bytes and capabilities that stay.
pub open spec fn drain_frames<F>(data: Seq<u8>, caps: Seq<F>) -> (
    Seq<(Seq<u8>, Seq<F>)>,
    Seq<u8>,
    Seq<F>,
)
    decreases data.len(),
{
    if frame_ready(data, caps) {
        let rest = after_front(data, caps);
        let tail = drain_frames(rest.0, rest.1);
        (seq![front_packet(data, caps)] + tail.0, tail.1, tail.2)
    } else {
        (Seq::empty(), data, caps)
    }
}

/// What draining leaves holds no complete frame.
pub proof fn lemma_drain_leaves_no_frame<F>(data: Seq<u8>, caps: Seq<F>)
    ensures
        !frame_ready(drain_frames(data, caps).1, drain_frames(data, caps).2),
    decreases data.len(),
{
    if frame_ready(data, caps) {
        let rest = after_front(data, caps);
        lemma_drain_leaves_no_frame(rest.0, rest.1);
    }
}

/// Errors of encoding a packet for the stream framing.
#[derive(Debug, PartialEq, Eq, Structural)]
pub enum FrameError {
    /// The payload is longer than the sixteen-bit length field can say.
    PayloadTooLarge,
    /// More capabilities than the sixteen-bit count field can say.
    TooManyCapabilities,
}

/// Encodes the header and payload of one frame.
///
/// Fails, and never truncates, where the payload length or the capability
/// count does not fit its sixteen-bit field.
pub fn encode_frame(payload: &Vec<u8>, caps: usize) -> (r: Result<Vec<u8>, FrameError>)
    ensures
        payload@.len() > FIELD_MAX ==> r == Err::<Vec<u8>, FrameError>(FrameError::PayloadTooLarge),
        payload@.len() <= FIELD_MAX && caps > FIELD_MAX ==> r == Err::<Vec<u8>, FrameError>(
            FrameError::TooManyCapabilities,
        ),
        payload@.len() <= FIELD_MAX && caps <= FIELD_MAX ==> r is Ok && r->Ok_0@ == frame_bytes(
            payload@,
            caps as nat,
        ),
{
    let len = payload.len();
    if len > FIELD_MAX {
        return Err(FrameError::PayloadTooLarge);
    }
    if caps > FIELD_MAX {
        return Err(FrameError::TooManyCapabilities);
    }
    let mut out: Vec<u8> = Vec::with_capacity(len + HEADER_LEN);
    out.push((len % 256) as u8);
    out.push((len / 256) as u8);
    out.push((caps % 256) as u8);
    out.push((caps / 256) as u8);
    let mut i: usize = 0;
    while i < len
        invariant
            len == payload@.len(),
            i <= len,
            out@ == le16_bytes(len as nat) + le16_bytes(caps as nat) + payload@.subrange(0, i as int),
        decreases len - i,
    {
        out.push(payload[i]);
        i += 1;
        assert(payload@.subrange(0, i as int) == payload@.subrange(0, i - 1) + seq![payload@[i - 1]]);
    }
    assert(payload@.subrange(0, len as int) == payload@);
    Ok(out)
}

/// Bytes and capabilities read from a stream socket that have not yet been
/// bound into a complete packet.
#[derive(Debug)]
pub struct PartialPacket<F> {
    /// Bytes received and not yet sliced into packets; they begin at a frame
    /// boundary.
    data: Vec<u8>,
    /// Capabilities received and not yet claimed by a complete frame.
    fds: Vec<F>,
}

impl<F> View for PartialPacket<F> {
    type V = (Seq<u8>, Seq<F>);

    /// The pending bytes and the pending capabilities.
    closed spec fn view(&self) -> (Seq<u8>, Seq<F>) {
        (self.data@, self.fds@)
    }
}

impl<F> PartialPacket<F> {
    /// An empty buffer.
    pub fn new() -> (r: PartialPacket<F>)
        ensures
            r@.0 == Seq::<u8>::empty(),
            r@.1 == Seq::<F>::empty(),
    {
        PartialPacket { data: Vec::new(), fds: Vec::new() }
    }

    /// Slices the frame at the front of the buffer, if it and all the
    /// capabilities it announces are present.
    pub fn try_drain_packet(&mut self) -> (r: Option<Packet<F>>)
        ensures
            frame_ready(old(self)@.0, old(self)@.1) ==> r is Some && r->Some_0@ == front_packet(
                old(self)@.0,
                old(self)@.1,
            ) && final(self)@ == after_front(old(self)@.0, old(self)@.1),
            !frame_ready(old(self)@.0, old(self)@.1) ==> r is None && final(self)@ == old(self)@,
    {
        if self.data.len() < HEADER_LEN {
            return None;
        }
        let packet_length: usize = self.data[0] as usize + 256 * (self.data[1] as usize);
        if self.data.len() - HEADER_LEN < packet_length {
            return None;
        }
        let num_fds: usize = self.data[2] as usize + 256 * (self.data[3] as usize);
        if self.fds.len() < num_fds {
            return None;
        }
        let mut rest = self.data.split_off(HEADER_LEN + packet_length);
        std::mem::swap(&mut self.data, &mut rest);
        let mut head = rest;
        let payload = head.split_off(HEADER_LEN);
        let mut packet_fds = self.fds.split_off(num_fds);
        std::mem::swap(&mut self.fds, &mut packet_fds);
        proof {
            assert(payload@ =~= front_packet(old(self)@.0, old(self)@.1).0);
        }
        Some(Packet { data: payload, fds: packet_fds })
    }

    /// Returns every complete packet in the buffer, in order: none, one or
    /// several. What stays buffered holds no complete frame.
    pub fn drain_packets(&mut self) -> (r: Vec<Packet<F>>)
        ensures
            r@.map_values(|p: Packet<F>| p@) == drain_frames(old(self)@.0, old(self)@.1).0,
            final(self)@.0 == drain_frames(old(self)@.0, old(self)@.1).1,
            final(self)@.1 == drain_frames(old(self)@.0, old(self)@.1).2,
            !frame_ready(final(self)@.0, final(self)@.1),
    {
        proof {
            lemma_drain_leaves_no_frame(self@.0, self@.1);
        }
        let mut result: Vec<Packet<F>> = Vec::new();
        loop
            invariant
                drain_frames(old(self)@.0, old(self)@.1) == (
                    result@.map_values(|p: Packet<F>| p@) + drain_frames(self@.0, self@.1).0,
                    drain_frames(self@.0, self@.1).1,
                    drain_frames(self@.0, self@.1).2,
                ),
            decreases self@.0.len(),
        {
            let ghost before = self@;
            match self.try_drain_packet() {
                Some(packet) => {
                    proof {
                        let tail = drain_frames(self@.0, self@.1);
                        assert(drain_frames(before.0, before.1).0 == seq![packet@] + tail.0);
                        assert(result@.push(packet).map_values(|p: Packet<F>| p@)
                            =~= result@.map_values(|p: Packet<F>| p@).push(packet@));
                        assert(result@.map_values(|p: Packet<F>| p@) + (seq![packet@] + tail.0)
                            =~= result@.map_values(|p: Packet<F>| p@).push(packet@) + tail.0);
                    }
                    result.push(packet);
                },
                None => {
                    proof {
                        assert(result@.map_values(|p: Packet<F>| p@) + Seq::empty()
                            =~= result@.map_values(|p: Packet<F>| p@));
                    }
                    return result;
                },
            }
        }
    }

    /// Buffers the bytes and capabilities of one receive, then returns every
    /// packet that is complete.
    pub fn feed(&mut self, bytes: Vec<u8>, fds: Vec<F>) -> (r: Vec<Packet<F>>)
        ensures
            r@.map_values(|p: Packet<F>| p@) == drain_frames(
                old(self)@.0 + bytes@,
                old(self)@.1 + fds@,
            ).0,
            final(self)@.0 == drain_frames(old(self)@.0 + bytes@, old(self)@.1 + fds@).1,
            final(self)@.1 == drain_frames(old(self)@.0 + bytes@, old(self)@.1 + fds@).2,
            !frame_ready(final(self)@.0, final(self)@.1),
    {
        let mut bytes = bytes;
        let mut fds = fds;
        self.data.append(&mut bytes);
        self.fds.append(&mut fds);
        self.drain_packets()
    }
}

/// The wire bytes of a sequence of packets, framed one after another.
pub open spec fn encode_all<F>(ps: Seq<(Seq<u8>, Seq<F>)>) -> Seq<u8>
    decreases ps.len(),
{
    if ps.len() == 0 {
        Seq::empty()
    } else {
        frame_bytes(ps[0].0, ps[0].1.len()) + encode_all(ps.drop_first())
    }
}

/// The capabilities of a sequence of packets, in the order they are sent.
pub open spec fn caps_all<F>(ps: Seq<(Seq<u8>, Seq<F>)>) -> Seq<F>
    decreases ps.len(),
{
    if ps.len() == 0 {
        Seq::empty()
    } else {
        ps[0].1 + caps_all(ps.drop_first())
    }
}

/// Whether every packet fits the sixteen-bit header fields.
pub open spec fn all_fit<F>(ps: Seq<(Seq<u8>, Seq<F>)>) -> bool {
    forall|i: int| 0 <= i < ps.len() ==> #[trigger] ps[i].0.len() <= FIELD_MAX && ps[i].1.len() <= FIELD_MAX
}

/// The bytes of a sequence of receives, joined.
pub open spec fn read_bytes<F>(reads: Seq<(Seq<u8>, Seq<F>)>) -> Seq<u8>
    decreases reads.len(),
{
    if reads.len() == 0 {
        Seq::empty()
    } else {
        reads[0].0 + read_bytes(reads.drop_first())
    }
}

/// The capabilities of a sequence of receives, joined.
pub open spec fn read_caps<F>(reads: Seq<(Seq<u8>, Seq<F>)>) -> Seq<F>
    decreases reads.len(),
{
    if reads.len() == 0 {
        Seq::empty()
    } else {
        reads[0].1 + read_caps(reads.drop_first())
    }
}

/// What `PartialPacket::feed` yields over a sequence of receives, starting
/// from the pending bytes `data` and capabilities `caps`: every packet
/// returned, in order, and what stays pending at the end.
pub open spec fn feed_all<F>(data: Seq<u8>, caps: Seq<F>, reads: Seq<(Seq<u8>, Seq<F>)>) -> (
    Seq<(Seq<u8>, Seq<F>)>,
    Seq<u8>,
    Seq<F>,
)
    decreases reads.len(),
{
    if reads.len() == 0 {
        (Seq::empty(), data, caps)
    } else {
        let step = drain_frames(data + reads[0].0, caps + reads[0].1);
        let tail = feed_all(step.1, step.2, reads.drop_first());
        (step.0 + tail.0, tail.1, tail.2)
    }
}

proof fn lemma_le16_round_trip(n: nat)
    requires
        n <= FIELD_MAX,
    ensures
        le16(le16_bytes(n)[0], le16_bytes(n)[1]) == n,
{
    assert(n == n % 256 + 256 * (n / 256)) by (nonlinear_arith);
    assert(n / 256 < 256) by (nonlinear_arith)
        requires
            n <= FIELD_MAX,
    ;
}

/// A frame followed by anything is ready, carries its packet, and leaves
/// exactly what followed it.
proof fn lemma_frame_front<F>(payload: Seq<u8>, caps: Seq<F>, rest: Seq<u8>, rest_caps: Seq<F>)
    requires
        payload.len() <= FIELD_MAX,
        caps.len() <= FIELD_MAX,
    ensures
        frame_ready(frame_bytes(payload, caps.len()) + rest, caps + rest_caps),
        front_packet(frame_bytes(payload, caps.len()) + rest, caps + rest_caps) == (payload, caps),
        after_front(frame_bytes(payload, caps.len()) + rest, caps + rest_caps) == (rest, rest_caps),
{
    let d = frame_bytes(payload, caps.len()) + rest;
    let f = caps + rest_caps;
    lemma_le16_round_trip(payload.len());
    lemma_le16_round_trip(caps.len());
    assert(d[0] == le16_bytes(payload.len())[0]);
    assert(d[1] == le16_bytes(payload.len())[1]);
    assert(d[2] == le16_bytes(caps.len())[0]);
    assert(d[3] == le16_bytes(caps.len())[1]);
    assert(payload_len(d) == payload.len());
    assert(cap_count(d) == caps.len());
    assert(front_packet(d, f).0 =~= payload);
    assert(front_packet(d, f).1 =~= caps);
    assert(after_front(d, f).0 =~= rest);
    assert(after_front(d, f).1 =~= rest_caps);
}

/// Appending to a buffer does not change the frame at its front.
proof fn lemma_ready_extend<F>(d: Seq<u8>, f: Seq<F>, e: Seq<u8>, g: Seq<F>)
    requires
        frame_ready(d, f),
    ensures
        frame_ready(d + e, f + g),
        front_packet(d + e, f + g) == front_packet(d, f),
        after_front(d + e, f + g).0 == after_front(d, f).0 + e,
        after_front(d + e, f + g).1 == after_front(d, f).1 + g,
{
    let de = d + e;
    let fg = f + g;
    assert(de[0] == d[0] && de[1] == d[1] && de[2] == d[2] && de[3] == d[3]);
    assert(front_packet(de, fg).0 =~= front_packet(d, f).0);
    assert(front_packet(de, fg).1 =~= front_packet(d, f).1);
    assert(after_front(de, fg).0 =~= after_front(d, f).0 + e);
    assert(after_front(de, fg).1 =~= after_front(d, f).1 + g);
}

/// Draining, appending and draining again is draining once after appending.
proof fn lemma_drain_extend<F>(d: Seq<u8>, f: Seq<F>, e: Seq<u8>, g: Seq<F>)
    ensures
        ({
            let first = drain_frames(d, f);
            let second = drain_frames(first.1 + e, first.2 + g);
            let once = drain_frames(d + e, f + g);
            &&& first.0 + second.0 == once.0
            &&& second.1 == once.1
            &&& second.2 == once.2
        }),
    decreases d.len(),
{
    let first = drain_frames(d, f);
    if frame_ready(d, f) {
        let rest = after_front(d, f);
        lemma_ready_extend(d, f, e, g);
        lemma_drain_extend(rest.0, rest.1, e, g);
        let tail = drain_frames(rest.0, rest.1);
        let second = drain_frames(first.1 + e, first.2 + g);
        let once = drain_frames(d + e, f + g);
        assert(once.0 == seq![front_packet(d, f)] + drain_frames(rest.0 + e, rest.1 + g).0);
        assert(first.0 + second.0 =~= seq![front_packet(d, f)] + (tail.0 + second.0));
    } else {
        assert(first.0 + drain_frames(d + e, f + g).0 =~= drain_frames(d + e, f + g).0);
    }
}

/// Feeding receives one by one yields what draining their concatenation
/// at once yields.
proof fn lemma_feed_all_drain<F>(d: Seq<u8>, f: Seq<F>, reads: Seq<(Seq<u8>, Seq<F>)>)
    ensures
        ({
            let start = drain_frames(d, f);
            let fed = feed_all(start.1, start.2, reads);
            let once = drain_frames(d + read_bytes(reads), f + read_caps(reads));
            &&& start.0 + fed.0 == once.0
            &&& fed.1 == once.1
            &&& fed.2 == once.2
        }),
    decreases reads.len(),
{
    let start = drain_frames(d, f);
    if reads.len() == 0 {
        assert(d + read_bytes(reads) =~= d);
        assert(f + read_caps(reads) =~= f);
        assert(start.0 + Seq::empty() =~= start.0);
    } else {
        let r = reads[0];
        let rest = reads.drop_first();
        let e = read_bytes(rest);
        let g = read_caps(rest);
        lemma_feed_all_drain(start.1 + r.0, start.2 + r.1, rest);
        lemma_drain_extend(d, f, r.0 + e, r.1 + g);
        lemma_drain_extend(start.1 + r.0, start.2 + r.1, Seq::empty(), Seq::empty());
        assert(start.1 + r.0 + e =~= start.1 + (r.0 + e));
        assert(start.2 + r.1 + g =~= start.2 + (r.1 + g));
        assert(d + read_bytes(reads) =~= d + (r.0 + e));
        assert(f + read_caps(reads) =~= f + (r.1 + g));
        let step = drain_frames(start.1 + r.0, start.2 + r.1);
        let tail = feed_all(step.1, step.2, rest);
        assert(start.0 + (step.0 + tail.0) =~= (start.0 + step.0) + tail.0);
    }
}

/// A buffer that holds complete frames followed by a remainder in which no
/// frame is complete yields exactly those packets, in order, and keeps
/// exactly the remainder; draining that remainder again yields nothing.
pub proof fn lemma_drain_complete_frames<F>(
    ps: Seq<(Seq<u8>, Seq<F>)>,
    rest: Seq<u8>,
    rest_caps: Seq<F>,
)
    requires
        all_fit(ps),
        !frame_ready(rest, rest_caps),
    ensures
        drain_frames(encode_all(ps) + rest, caps_all(ps) + rest_caps) == (ps, rest, rest_caps),
        drain_frames(rest, rest_caps) == (Seq::<(Seq<u8>, Seq<F>)>::empty(), rest, rest_caps),
    decreases ps.len(),
{
    assert(drain_frames(rest, rest_caps) == (Seq::<(Seq<u8>, Seq<F>)>::empty(), rest, rest_caps));
    if ps.len() == 0 {
        assert(encode_all(ps) + rest =~= rest);
        assert(caps_all(ps) + rest_caps =~= rest_caps);
        assert(ps =~= Seq::<(Seq<u8>, Seq<F>)>::empty());
    } else {
        let tail = ps.drop_first();
        assert(all_fit(tail)) by {
            assert forall|i: int| 0 <= i < tail.len() implies #[trigger] tail[i].0.len() <= FIELD_MAX
                && tail[i].1.len() <= FIELD_MAX by {
                assert(tail[i] == ps[i + 1]);
            }
        }
        assert(ps[0].0.len() <= FIELD_MAX && ps[0].1.len() <= FIELD_MAX);
        lemma_drain_complete_frames(tail, rest, rest_caps);
        let after = encode_all(tail) + rest;
        let after_caps = caps_all(tail) + rest_caps;
        lemma_frame_front(ps[0].0, ps[0].1, after, after_caps);
        let d = encode_all(ps) + rest;
        let f = caps_all(ps) + rest_caps;
        assert(d =~= frame_bytes(ps[0].0, ps[0].1.len()) + after);
        assert(f =~= ps[0].1 + after_caps);
        assert(frame_ready(d, f));
        assert(front_packet(d, f) == ps[0]);
        assert(after_front(d, f) == (after, after_caps));
        assert(drain_frames(d, f).0 == seq![ps[0]] + tail);
        assert(seq![ps[0]] + tail =~= ps);
    }
}

/// Stream round trip: packets that fit the header fields, framed one after
/// another and received in any chunking of their bytes and any grouping of
/// their capabilities, come out of `feed` exactly as they were sent, in
/// order, with nothing left pending.
pub proof fn lemma_stream_round_trip<F>(
    ps: Seq<(Seq<u8>, Seq<F>)>,
    reads: Seq<(Seq<u8>, Seq<F>)>,
)
    requires
        all_fit(ps),
        read_bytes(reads) == encode_all(ps),
        read_caps(reads) == caps_all(ps),
    ensures
        feed_all(Seq::<u8>::empty(), Seq::<F>::empty(), reads) == (
            ps,
            Seq::<u8>::empty(),
            Seq::<F>::empty(),
        ),
{
    let d = Seq::<u8>::empty();
    let f = Seq::<F>::empty();
    assert(!frame_ready(d, f));
    lemma_feed_all_drain(d, f, reads);
    lemma_drain_complete_frames(ps, d, f);
    assert(d + read_bytes(reads) =~= encode_all(ps) + d);
    assert(f + read_caps(reads) =~= caps_all(ps) + f);
    assert(Seq::<(Seq<u8>, Seq<F>)>::empty() + feed_all(d, f, reads).0 =~= feed_all(d, f, reads).0);
}

/// No early completion: of a frame and its capabilities, any prefix of the
/// bytes together with any prefix of the capabilities yields no packet
/// unless both are whole, and then yields the packet once, leaving nothing.
pub proof fn lemma_no_early_completion<F>(payload: Seq<u8>, caps: Seq<F>, nb: nat, nc: nat)
    requires
        payload.len() <= FIELD_MAX,
        caps.len() <= FIELD_MAX,
        nb <= frame_bytes(payload, caps.len()).len(),
        nc <= caps.len(),
    ensures
        ({
            let out = drain_frames(frame_bytes(payload, caps.len()).take(nb as int), caps.take(nc as int));
            if nb == frame_bytes(payload, caps.len()).len() && nc == caps.len() {
                out == (seq![(payload, caps)], Seq::<u8>::empty(), Seq::<F>::empty())
            } else {
                out.0.len() == 0
            }
        }),
{
    let frame = frame_bytes(payload, caps.len());
    let d = frame.take(nb as int);
    let f = caps.take(nc as int);
    lemma_frame_front(payload, caps, Seq::<u8>::empty(), Seq::<F>::empty());
    assert(frame + Seq::<u8>::empty() =~= frame);
    assert(caps + Seq::<F>::empty() =~= caps);
    if nb == frame.len() && nc == caps.len() {
        assert(d =~= frame);
        assert(f =~= caps);
        let e = drain_frames(Seq::<u8>::empty(), Seq::<F>::empty());
        assert(seq![(payload, caps)] + e.0 =~= seq![(payload, caps)]);
    } else if nb >= HEADER_LEN {
        assert(d[0] == frame[0] && d[1] == frame[1] && d[2] == frame[2] && d[3] == frame[3]);
        assert(!frame_ready(d, f));
    }
}

/// The receives of a prefix carry a prefix of the bytes and of the
/// capabilities of all the receives.
proof fn lemma_read_prefix<F>(reads: Seq<(Seq<u8>, Seq<F>)>, k: int)
    requires
        0 <= k <= reads.len(),
    ensures
        read_bytes(reads.take(k)) + read_bytes(reads.skip(k)) == read_bytes(reads),
        read_caps(reads.take(k)) + read_caps(reads.skip(k)) == read_caps(reads),
    decreases k,
{
    if k == 0 {
        assert(reads.take(0) =~= Seq::<(Seq<u8>, Seq<F>)>::empty());
        assert(reads.skip(0) =~= reads);
        assert(Seq::<u8>::empty() + read_bytes(reads) =~= read_bytes(reads));
        assert(Seq::<F>::empty() + read_caps(reads) =~= read_caps(reads));
    } else {
        let rest = reads.drop_first();
        lemma_read_prefix(rest, k - 1);
        assert(reads.take(k).drop_first() =~= rest.take(k - 1));
        assert(rest.skip(k - 1) =~= reads.skip(k));
        assert(reads.take(k)[0] == reads[0]);
        assert(read_bytes(reads.take(k)) + read_bytes(reads.skip(k)) =~= reads[0].0 + (read_bytes(
            rest.take(k - 1),
        ) + read_bytes(rest.skip(k - 1))));
        assert(read_caps(reads.take(k)) + read_caps(reads.skip(k)) =~= reads[0].1 + (read_caps(
            rest.take(k - 1),
        ) + read_caps(rest.skip(k - 1))));
    }
}

/// Completion happens once: when a frame and its capabilities arrive over a
/// sequence of receives, the receives up to any point have yielded no packet
/// until both the bytes and the capabilities are whole, and from then on
/// exactly that one packet.
pub proof fn lemma_completes_once<F>(
    payload: Seq<u8>,
    caps: Seq<F>,
    reads: Seq<(Seq<u8>, Seq<F>)>,
    k: int,
)
    requires
        payload.len() <= FIELD_MAX,
        caps.len() <= FIELD_MAX,
        read_bytes(reads) == frame_bytes(payload, caps.len()),
        read_caps(reads) == caps,
        0 <= k <= reads.len(),
    ensures
        ({
            let got = feed_all(Seq::<u8>::empty(), Seq::<F>::empty(), reads.take(k)).0;
            if read_bytes(reads.take(k)).len() == frame_bytes(payload, caps.len()).len()
                && read_caps(reads.take(k)).len() == caps.len() {
                got == seq![(payload, caps)]
            } else {
                got.len() == 0
            }
        }),
{
    let frame = frame_bytes(payload, caps.len());
    let head = reads.take(k);
    let nb = read_bytes(head).len();
    let nc = read_caps(head).len();
    lemma_read_prefix(reads, k);
    assert(read_bytes(head) =~= frame.take(nb as int));
    assert(read_caps(head) =~= caps.take(nc as int));
    let d = Seq::<u8>::empty();
    let f = Seq::<F>::empty();
    assert(!frame_ready(d, f));
    lemma_feed_all_drain(d, f, head);
    assert(d + read_bytes(head) =~= read_bytes(head));
    assert(f + read_caps(head) =~= read_caps(head));
    assert(Seq::<(Seq<u8>, Seq<F>)>::empty() + feed_all(d, f, head).0 =~= feed_all(d, f, head).0);
    lemma_no_early_completion(payload, caps, nb, nc);
}

} // verus!