use libuio::readiness::{decode_events, Message, PollId, PollKey, UnknownKey, EVENT_ERR, EVENT_HUP, EVENT_IN};

#[test]
fn event_bits_match_the_platform() {
    assert_eq!(EVENT_IN, libc::EPOLLIN as u32);
    assert_eq!(EVENT_ERR, libc::EPOLLERR as u32);
    assert_eq!(EVENT_HUP, libc::EPOLLHUP as u32);
}

#[test]
fn poll_id_round_trips() {
    for k in [
        PollId::Socket,
        PollId::Client(0),
        PollId::Client(3),
        PollId::Client(-1),
        PollId::Client(i32::MAX),
        PollId::Client(i32::MIN),
    ] {
        assert_eq!(PollId::from_u64(k.to_u64()), Some(k));
    }
}

#[test]
fn socket_and_clients_have_distinct_integers() {
    assert_ne!(PollId::Socket.to_u64(), PollId::Client(0).to_u64());
    assert_ne!(PollId::Client(4).to_u64(), PollId::Client(5).to_u64());
    assert_eq!(PollId::from_u64(u64::MAX), None);
}

#[test]
fn each_condition_is_reported() {
    let fd = PollId::Client(7).to_u64();
    let out = decode_events::<PollId>(&vec![(EVENT_IN | EVENT_ERR, fd)]).unwrap();
    assert_eq!(out, vec![Message::Ready(PollId::Client(7)), Message::Broken(PollId::Client(7))]);
}

#[test]
fn hang_up_without_error_is_reported_as_hup() {
    let fd = PollId::Client(9).to_u64();
    let out = decode_events::<PollId>(&vec![(EVENT_HUP, fd), (EVENT_HUP | EVENT_ERR, fd)]).unwrap();
    assert_eq!(out, vec![Message::Hup(PollId::Client(9)), Message::Broken(PollId::Client(9))]);
}

#[test]
fn input_and_hang_up_together() {
    let s = PollId::Socket.to_u64();
    let out = decode_events::<PollId>(&vec![(EVENT_IN | EVENT_HUP, s), (0, s)]).unwrap();
    assert_eq!(out, vec![Message::Ready(PollId::Socket), Message::Hup(PollId::Socket)]);
}

#[test]
fn unknown_key_is_an_error() {
    let good = PollId::Client(1).to_u64();
    let r = decode_events::<PollId>(&vec![(EVENT_IN, good), (EVENT_IN, u64::MAX)]);
    assert_eq!(r, Err(UnknownKey { bits: u64::MAX }));
}

#[test]
fn no_events_no_messages() {
    assert!(decode_events::<PollId>(&Vec::new()).unwrap().is_empty());
}
