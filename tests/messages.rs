use libuio::message::{AnnounceMsg, EventMsg, RequestMsg};
use libuio::stream::{encode_frame, PartialPacket};

#[test]
fn announce_crosses_the_stream_intact() {
    // bincode writes an enum as its variant index, then the variant's fields.
    let payload = bincode::serialize(&(0u32, "X".to_string())).unwrap();
    let wire = encode_frame(&payload, 0).unwrap();
    let mut buf: PartialPacket<u32> = PartialPacket::new();
    let mut packets = buf.feed(wire, Vec::new());
    assert_eq!(packets.len(), 1);
    let p = packets.pop().unwrap();
    assert!(p.fds.is_empty());
    let (tag, name): (u32, String) = bincode::deserialize(&p.data).unwrap();
    assert_eq!(tag, 0);
    let msg = RequestMsg::Announce(AnnounceMsg { name });
    match msg {
        RequestMsg::Announce(AnnounceMsg { name }) => assert_eq!(name, "X"),
    }
}

#[test]
fn event_values_compare() {
    assert_eq!(EventMsg::AnnounceAccepted, EventMsg::AnnounceAccepted);
}
