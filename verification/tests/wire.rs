use sunwalker_invoker::wire::{
    split_into_packets, MessageAssembler, RecvStep, WireError, MAX_FDS_PER_PACKET,
    MAX_PACKET_SIZE,
};

fn assemble_all(
    packets: Vec<sunwalker_invoker::wire::Packet>,
) -> (Vec<u8>, Vec<i32>, usize) {
    let mut collector = MessageAssembler::new();
    let mut terminators = 0;
    let mut done = None;
    for p in packets {
        let mut data = Vec::new();
        data.push(if p.last { 1u8 } else { 0u8 });
        for b in &p.payload {
            data.push(*b);
        }
        if p.last {
            terminators += 1;
        }
        match collector.push_packet(&data, &p.fds).unwrap() {
            RecvStep::NeedMore => {}
            RecvStep::Complete(bytes, fds) => {
                assert!(done.is_none(), "message completed twice");
                done = Some((bytes, fds));
            }
            RecvStep::EndOfStream => panic!("unexpected end of stream"),
        }
    }
    let (bytes, fds) = done.expect("message never completed");
    (bytes, fds, terminators)
}

#[test]
fn small_message_is_one_packet() {
    let bytes = vec![1u8, 2, 3];
    let fds = vec![5, 6];
    let packets = split_into_packets(&bytes, &fds);
    assert_eq!(packets.len(), 1);
    assert!(packets[0].last);
    assert_eq!(packets[0].payload, bytes);
    assert_eq!(packets[0].fds, fds);
}

#[test]
fn large_message_splits_and_reassembles() {
    let mut bytes = Vec::new();
    for i in 0..40000usize {
        bytes.push((i % 251) as u8);
    }
    let fds = vec![3, 4, 5];
    let packets = split_into_packets(&bytes, &fds);
    assert_eq!(packets.len(), 3);
    assert!(!packets[0].last && !packets[1].last && packets[2].last);
    assert_eq!(packets[0].payload.len(), MAX_PACKET_SIZE - 1);
    let (out_bytes, out_fds, terminators) = assemble_all(packets);
    assert_eq!(out_bytes, bytes);
    assert_eq!(out_fds, fds);
    assert_eq!(terminators, 1);
}

#[test]
fn many_fds_split_into_ancillary_chunks() {
    let bytes = vec![0u8; 10];
    let mut fds = Vec::new();
    for i in 0..300i32 {
        fds.push(i);
    }
    let packets = split_into_packets(&bytes, &fds);
    assert_eq!(packets.len(), 2);
    assert_eq!(packets[0].fds.len(), MAX_FDS_PER_PACKET);
    assert_eq!(packets[1].fds.len(), 300 - MAX_FDS_PER_PACKET);
    let (out_bytes, out_fds, _) = assemble_all(packets);
    assert_eq!(out_bytes, bytes);
    assert_eq!(out_fds, fds);
}

#[test]
fn empty_message_still_sends_terminator() {
    let packets = split_into_packets(&Vec::new(), &Vec::new());
    assert_eq!(packets.len(), 1);
    assert!(packets[0].last);
    assert!(packets[0].payload.is_empty());
}

#[test]
fn clean_end_of_stream() {
    let mut collector = MessageAssembler::new();
    match collector.push_packet(&Vec::new(), &Vec::new()).unwrap() {
        RecvStep::EndOfStream => {}
        _ => panic!("expected end of stream"),
    }
}

#[test]
fn eof_inside_message_is_unterminated() {
    let mut collector = MessageAssembler::new();
    let data = vec![0u8, 1, 2, 3];
    match collector.push_packet(&data, &Vec::new()).unwrap() {
        RecvStep::NeedMore => {}
        _ => panic!("expected more"),
    }
    match collector.push_packet(&Vec::new(), &Vec::new()) {
        Err(e) => assert_eq!(e, WireError::UnterminatedStream),
        Ok(_) => panic!("expected an unterminated-stream error"),
    }
}

#[test]
fn descriptors_without_bytes_are_an_error() {
    let mut collector = MessageAssembler::new();
    match collector.push_packet(&Vec::new(), &vec![9]) {
        Err(e) => assert_eq!(e, WireError::EmptyPacket),
        Ok(_) => panic!("expected an empty-packet error"),
    }
}

#[test]
fn assembler_resets_between_messages() {
    let mut collector = MessageAssembler::new();
    let first = vec![1u8, 10, 20];
    match collector.push_packet(&first, &Vec::new()).unwrap() {
        RecvStep::Complete(bytes, fds) => {
            assert_eq!(bytes, vec![10, 20]);
            assert!(fds.is_empty());
        }
        _ => panic!("expected completion"),
    }
    let second = vec![1u8, 30];
    match collector.push_packet(&second, &Vec::new()).unwrap() {
        RecvStep::Complete(bytes, _) => assert_eq!(bytes, vec![30]),
        _ => panic!("expected completion"),
    }
}
