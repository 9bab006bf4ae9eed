//! Turning the events of a readiness wait into typed notifications.
//!
//! A descriptor is registered under a caller-chosen key, which the kernel
//! stores as a 64-bit integer and hands back with each event. Keys therefore
//! implement `PollKey`, whose conversions must round-trip.
use vstd::prelude::*;

verus! {

/// Event bit: input is available.
pub const EVENT_IN: u32 = 0x001;

/// Event bit: an error condition.
pub const EVENT_ERR: u32 = 0x008;

/// Event bit: the peer hung up.
pub const EVENT_HUP: u32 = 0x010;

/// A key under which a descriptor is registered with the multiplexer.
pub trait PollKey: Sized + Copy {
    /// The integer that stands for this key.
    spec fn key_bits(&self) -> u64;

    /// The key that an integer stands for, if any.
    spec fn key_from_bits(bits: u64) -> Option<Self>;

    /// Every key is recovered from its integer.
    proof fn lemma_key_round_trip(k: Self)
        ensures
            Self::key_from_bits(k.key_bits()) == Some(k),
    ;

    fn to_u64(&self) -> (r: u64)
        ensures
            r == self.key_bits(),
    ;

    fn from_u64(bits: u64) -> (r: Option<Self>)
        ensures
            r == Self::key_from_bits(bits),
    ;
}

/// A readiness notification for the descriptor registered under a key.
#[derive(Debug, PartialEq, Eq, Structural)]
pub enum Message<K> {
    /// Input is available.
    Ready(K),
    /// An error condition.
    Broken(K),
    /// The peer hung up without an error.
    Hup(K),
}

/// An event whose integer stands for no key: the keys in use break the
/// round-trip law, a configuration error.
#[derive(Debug, PartialEq, Eq, Structural)]
pub struct UnknownKey {
    pub bits: u64,
}

/// The notifications that one event with `flags` raises for key `k`, each
/// condition on its own: input, then error, then a hang-up without error.
pub open spec fn event_messages<K>(flags: u32, k: K) -> Seq<Message<K>> {
    (if flags & EVENT_IN != 0 { seq![Message::Ready(k)] } else { Seq::empty() })
        + (if flags & EVENT_ERR != 0 { seq![Message::Broken(k)] } else { Seq::empty() })
        + (if flags & EVENT_HUP != 0 && flags & EVENT_ERR == 0 {
        seq![Message::Hup(k)]
    } else {
        Seq::empty()
    })
}

/// The notifications for a list of events `(flags, key integer)`, in order,
/// or the first integer that stands for no key.
pub open spec fn decoded_events<K: PollKey>(events: Seq<(u32, u64)>) -> Result<Seq<Message<K>>, u64>
    decreases events.len(),
{
    if events.len() == 0 {
        Ok(Seq::empty())
    } else {
        match K::key_from_bits(events[0].1) {
            None => Err(events[0].1),
            Some(k) => match decoded_events::<K>(events.drop_first()) {
                Ok(rest) => Ok(event_messages(events[0].0, k) + rest),
                Err(bits) => Err(bits),
            },
        }
    }
}

/// Decodes the events that one wait returned.
pub fn decode_events<K: PollKey>(events: &Vec<(u32, u64)>) -> (r: Result<Vec<Message<K>>, UnknownKey>)
    ensures
        decoded_events::<K>(events@) is Ok ==> r is Ok && r->Ok_0@ == decoded_events::<K>(
            events@,
        )->Ok_0,
        decoded_events::<K>(events@) is Err ==> r == Err::<Vec<Message<K>>, UnknownKey>(
            UnknownKey { bits: decoded_events::<K>(events@)->Err_0 },
        ),
{
    let mut out: Vec<Message<K>> = Vec::new();
    let mut i: usize = 0;
    proof {
        assert(events@.skip(0) =~= events@);
        match decoded_events::<K>(events@) {
            Ok(rest) => {
                assert(out@ + rest =~= rest);
            },
            Err(_) => {},
        }
    }
    while i < events.len()
        invariant
            i <= events@.len(),
            decoded_events::<K>(events@) == match decoded_events::<K>(events@.skip(i as int)) {
                Ok(rest) => Ok(out@ + rest),
                Err(bits) => Err(bits),
            },
        decreases events@.len() - i,
    {
        let (flags, bits) = events[i];
        let ghost tail = events@.skip(i as int);
        proof {
            assert(tail[0] == (flags, bits));
            assert(tail.drop_first() =~= events@.skip(i + 1));
        }
        match K::from_u64(bits) {
            None => {
                return Err(UnknownKey { bits });
            },
            Some(k) => {
                let ghost before = out@;
                if flags & EVENT_IN != 0 {
                    out.push(Message::Ready(k));
                }
                if flags & EVENT_ERR != 0 {
                    out.push(Message::Broken(k));
                }
                if flags & EVENT_HUP != 0 && flags & EVENT_ERR == 0 {
                    out.push(Message::Hup(k));
                }
                proof {
                    assert(out@ =~= before + event_messages(flags, k));
                    match decoded_events::<K>(events@.skip(i + 1)) {
                        Ok(rest) => {
                            assert(before + (event_messages(flags, k) + rest) =~= out@ + rest);
                        },
                        Err(_) => {},
                    }
                }
            },
        }
        i += 1;
    }
    proof {
        assert(events@.skip(i as int) =~= Seq::<(u32, u64)>::empty());
        assert(out@ + Seq::<Message<K>>::empty() =~= out@);
    }
    Ok(out)
}

/// What the server registers with the multiplexer: its listening socket, or
/// a client connection by the number of its descriptor.
#[derive(Debug, PartialEq, Eq, Structural, Clone, Copy)]
pub enum PollId {
    Socket,
    Client(i32),
}

/// The integer of the listening socket; client descriptors are offset past it.
pub const SOCKET_BITS: u64 = 0;

/// Offset from a client's descriptor number to its integer.
pub const CLIENT_OFFSET: i64 = 0x8000_0001;

impl PollKey for PollId {
    open spec fn key_bits(&self) -> u64 {
        match *self {
            PollId::Socket => SOCKET_BITS,
            PollId::Client(fd) => (fd as i64 + CLIENT_OFFSET) as u64,
        }
    }

    open spec fn key_from_bits(bits: u64) -> Option<PollId> {
        if bits == SOCKET_BITS {
            Some(PollId::Socket)
        } else if bits <= 0x1_0000_0000 {
            Some(PollId::Client((bits as i64 - CLIENT_OFFSET) as i32))
        } else {
            None
        }
    }

    proof fn lemma_key_round_trip(k: PollId) {
    }

    fn to_u64(&self) -> (r: u64) {
        match *self {
            PollId::Socket => SOCKET_BITS,
            PollId::Client(fd) => (fd as i64 + CLIENT_OFFSET) as u64,
        }
    }

    fn from_u64(bits: u64) -> (r: Option<PollId>) {
        if bits == SOCKET_BITS {
            Some(PollId::Socket)
        } else if bits <= 0x1_0000_0000 {
            Some(PollId::Client((bits as i64 - CLIENT_OFFSET) as i32))
        } else {
            None
        }
    }
}

/// Key round trip: every key of the server is recovered from its integer.
pub proof fn lemma_poll_id_round_trip(k: PollId)
    ensures
        PollId::key_from_bits(k.key_bits()) == Some(k),
{
    PollId::lemma_key_round_trip(k);
}

} // verus!
