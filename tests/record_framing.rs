use libuio::record::RecordAccumulator;
use libuio::transport::{
    check_receive_flags, check_sent, PartialSend, ReceiveFault, FLAG_CONTROL_TRUNCATED,
    FLAG_END_OF_RECORD, FLAG_ERROR_QUEUE, FLAG_TRUNCATED,
};

#[test]
fn flag_values_match_the_platform() {
    assert_eq!(FLAG_END_OF_RECORD, libc::MSG_EOR as u32);
    assert_eq!(FLAG_TRUNCATED, libc::MSG_TRUNC as u32);
    assert_eq!(FLAG_CONTROL_TRUNCATED, libc::MSG_CTRUNC as u32);
    assert_eq!(FLAG_ERROR_QUEUE, libc::MSG_ERRQUEUE as u32);
}

#[test]
fn record_in_one_receive() {
    let mut acc = RecordAccumulator::new();
    let p = acc.absorb(b"whole".to_vec(), vec![3u32], FLAG_END_OF_RECORD).unwrap().unwrap();
    assert_eq!(p.data, b"whole".to_vec());
    assert_eq!(p.fds, vec![3]);
}

#[test]
fn record_over_several_receives() {
    let mut acc = RecordAccumulator::new();
    assert!(acc.absorb(b"ab".to_vec(), vec![1u32], 0).unwrap().is_none());
    assert!(acc.absorb(b"cd".to_vec(), Vec::new(), 0).unwrap().is_none());
    let p = acc.absorb(b"e".to_vec(), vec![2], FLAG_END_OF_RECORD).unwrap().unwrap();
    assert_eq!(p.data, b"abcde".to_vec());
    assert_eq!(p.fds, vec![1, 2]);
    let q = acc.absorb(b"next".to_vec(), Vec::new(), FLAG_END_OF_RECORD).unwrap().unwrap();
    assert_eq!(q.data, b"next".to_vec());
    assert!(q.fds.is_empty());
}

#[test]
fn empty_receive_means_peer_closed() {
    let mut acc: RecordAccumulator<u32> = RecordAccumulator::new();
    assert_eq!(acc.absorb(Vec::new(), Vec::new(), FLAG_END_OF_RECORD).err(), Some(ReceiveFault::PeerClosed));
}

#[test]
fn faults_in_flags_end_the_record() {
    let mut acc: RecordAccumulator<u32> = RecordAccumulator::new();
    assert_eq!(acc.absorb(b"x".to_vec(), Vec::new(), FLAG_TRUNCATED).err(), Some(ReceiveFault::Truncated));
    assert_eq!(
        acc.absorb(b"x".to_vec(), Vec::new(), FLAG_CONTROL_TRUNCATED | FLAG_END_OF_RECORD).err(),
        Some(ReceiveFault::ControlTruncated)
    );
    assert_eq!(acc.absorb(b"x".to_vec(), Vec::new(), FLAG_ERROR_QUEUE).err(), Some(ReceiveFault::ErrorQueue));
    let p = acc.absorb(b"ok".to_vec(), Vec::new(), FLAG_END_OF_RECORD).unwrap().unwrap();
    assert_eq!(p.data, b"ok".to_vec());
}

#[test]
fn receive_flags_are_judged_in_order() {
    assert_eq!(check_receive_flags(0), Ok(()));
    assert_eq!(check_receive_flags(FLAG_END_OF_RECORD), Ok(()));
    assert_eq!(
        check_receive_flags(FLAG_TRUNCATED | FLAG_CONTROL_TRUNCATED | FLAG_ERROR_QUEUE),
        Err(ReceiveFault::Truncated)
    );
    assert_eq!(
        check_receive_flags(FLAG_CONTROL_TRUNCATED | FLAG_ERROR_QUEUE),
        Err(ReceiveFault::ControlTruncated)
    );
    assert_eq!(check_receive_flags(FLAG_ERROR_QUEUE), Err(ReceiveFault::ErrorQueue));
}

#[test]
fn a_send_must_transmit_the_whole_frame() {
    assert_eq!(check_sent(12, 12), Ok(()));
    assert_eq!(check_sent(5, 12), Err(PartialSend { sent: 5, expected: 12 }));
}
