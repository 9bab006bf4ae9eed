use libuio::connections::{route, ClientState, ConnectionTable, Step};
use libuio::readiness::{decode_events, Message, PollId, PollKey, EVENT_IN};
use libuio::stream::{encode_frame, PartialPacket};

#[test]
fn insert_find_and_remove() {
    let mut t = ConnectionTable::new();
    assert_eq!(t.len(), 0);
    assert_eq!(t.insert(5, "five"), Ok(()));
    assert_eq!(t.insert(6, "six"), Ok(()));
    assert!(t.contains(5));
    assert_eq!(t.find(6), Some(1));
    assert_eq!(t.remove(5), Some("five"));
    assert!(!t.contains(5));
    assert_eq!(t.find(6), Some(0));
    assert_eq!(t.len(), 1);
}

#[test]
fn second_entry_under_a_live_identity_is_refused() {
    let mut t = ConnectionTable::new();
    assert_eq!(t.insert(4, 1u32), Ok(()));
    assert_eq!(t.insert(4, 2u32), Err(2));
    assert_eq!(t.len(), 1);
    assert_eq!(t.get_mut(4).map(|c| *c), Some(1));
}

#[test]
fn removing_a_missing_identity_is_ignored() {
    let mut t: ConnectionTable<u32> = ConnectionTable::new();
    assert_eq!(t.remove(3), None);
    t.insert(3, 30).unwrap();
    assert_eq!(t.remove(3), Some(30));
    assert_eq!(t.remove(3), None);
    assert_eq!(t.len(), 0);
}

#[test]
fn get_mut_changes_the_entry_in_place() {
    let mut t = ConnectionTable::new();
    t.insert(8, 0u32).unwrap();
    t.insert(9, 0u32).unwrap();
    *t.get_mut(9).unwrap() += 5;
    assert_eq!(t.get_mut(9).map(|c| *c), Some(5));
    assert_eq!(t.get_mut(8).map(|c| *c), Some(0));
    assert!(t.get_mut(10).is_none());
}

#[test]
fn accept_close_fuzzing_never_shares_an_identity() {
    let mut t = ConnectionTable::new();
    let mut live = std::collections::BTreeSet::new();
    let mut seed: u64 = 0x2545_f491_4f6c_dd1d;
    for step in 0..5000u32 {
        seed ^= seed << 13;
        seed ^= seed >> 7;
        seed ^= seed << 17;
        let fd = (seed % 16) as i32;
        if seed & 0x100 == 0 {
            let r = t.insert(fd, step);
            assert_eq!(r.is_ok(), live.insert(fd));
        } else {
            assert_eq!(t.remove(fd).is_some(), live.remove(&fd));
        }
        assert_eq!(t.len(), live.len());
        for id in 0..16 {
            assert_eq!(t.contains(id), live.contains(&id));
        }
    }
}

#[test]
fn routing_of_notifications() {
    assert_eq!(route(&Message::Ready(PollId::Socket)), Step::Accept);
    assert_eq!(route(&Message::Ready(PollId::Client(4))), Step::Serve(4));
    assert_eq!(route(&Message::Broken(PollId::Client(4))), Step::Close(4));
    assert_eq!(route(&Message::Hup(PollId::Client(5))), Step::Close(5));
    assert_eq!(route(&Message::Broken(PollId::Socket)), Step::Shutdown);
    assert_eq!(route(&Message::Hup(PollId::Socket)), Step::Shutdown);
}

#[test]
fn new_client_is_unknown() {
    assert_eq!(ClientState::new(), ClientState::Unknown);
}

#[test]
fn two_connections_are_served_independently() {
    let mut t: ConnectionTable<PartialPacket<u32>> = ConnectionTable::new();
    t.insert(5, PartialPacket::new()).unwrap();
    t.insert(6, PartialPacket::new()).unwrap();

    let mut backlog = Vec::new();
    for i in 0..50u8 {
        backlog.extend(encode_frame(&vec![i; 10], 0).unwrap());
    }
    backlog.extend_from_slice(&[200, 0]);
    let other = encode_frame(&b"quick".to_vec(), 0).unwrap();

    let events = vec![
        (EVENT_IN, PollId::Client(5).to_u64()),
        (EVENT_IN, PollId::Client(6).to_u64()),
    ];
    let mut delivered: Vec<(i32, Vec<u8>)> = Vec::new();
    for msg in decode_events::<PollId>(&events).unwrap() {
        match route(&msg) {
            Step::Serve(fd) => {
                let input = if fd == 5 { backlog.clone() } else { other.clone() };
                let buf = t.get_mut(fd).unwrap();
                for p in buf.feed(input, Vec::new()) {
                    delivered.push((fd, p.data));
                }
            }
            _ => panic!("unexpected step"),
        }
    }
    assert_eq!(delivered.iter().filter(|(fd, _)| *fd == 5).count(), 50);
    assert_eq!(delivered.iter().filter(|(fd, _)| *fd == 6).collect::<Vec<_>>(), vec![&(6, b"quick".to_vec())]);
}
