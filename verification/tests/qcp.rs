use bytes::Bytes;
use cross233::qcp::error::QcpError;
use cross233::qcp::link::{
    check_message_len, fragment_count, fragments, listener_syn, CoreState, Liveness, MAX_MESSAGE,
};
use cross233::qcp::stream::{StreamBuffers, FLUSH_THRESHOLD};
use cross233::qcp::wire::{
    decode, encode, Packet, Stream, FLAG_ACK, FLAG_DATA, FLAG_FIN, FLAG_PING, FLAG_PONG, FLAG_SYN,
    HEADER_LEN, MAX_PAYLOAD,
};

fn packet(flags: u8, stream: Stream, msg_id: u32, index: u16, total: u16, payload: &[u8]) -> Packet {
    Packet {
        flags,
        stream,
        msg_id,
        frag_index: index,
        frag_total: total,
        payload: Bytes::copy_from_slice(payload),
    }
}

#[test]
fn packet_header_layout_and_round_trip() {
    let p = packet(FLAG_DATA, Stream::Critical, 0x01020304, 5, 7, b"hi");
    let bytes = encode(&p);
    assert_eq!(bytes.len(), HEADER_LEN + 2);
    assert_eq!(&bytes[..4], b"QCP1");
    assert_eq!(bytes[4], FLAG_DATA);
    assert_eq!(bytes[5], 2);
    assert_eq!(&bytes[6..10], &[1, 2, 3, 4]);
    assert_eq!(&bytes[10..12], &[0, 5]);
    assert_eq!(&bytes[12..14], &[0, 7]);
    assert_eq!(&bytes[14..18], &[0, 0, 0, 2]);
    assert_eq!(&bytes[18..], b"hi");

    let back = decode(&bytes).expect("a packet decodes");
    assert_eq!(back.flags, FLAG_DATA);
    assert_eq!(back.stream, Stream::Critical);
    assert_eq!(back.msg_id, 0x01020304);
    assert_eq!(back.frag_index, 5);
    assert_eq!(back.frag_total, 7);
    assert_eq!(&back.payload[..], b"hi");
}

#[test]
fn decode_rejects_bad_magic_and_short_buffers() {
    let p = packet(FLAG_PING, Stream::Batch, 9, 0, 1, b"");
    let mut bytes = encode(&p).to_vec();
    assert!(decode(&bytes[..HEADER_LEN - 1]).is_none());
    bytes[0] = b'X';
    assert!(decode(&bytes).is_none());
    let mut long = encode(&packet(FLAG_DATA, Stream::Batch, 1, 0, 1, b"abc")).to_vec();
    long.truncate(HEADER_LEN + 2);
    assert!(decode(&long).is_none());
}

#[test]
fn unknown_stream_numbers_are_batch() {
    assert_eq!(Stream::from_u8(1), Stream::Realtime);
    assert_eq!(Stream::from_u8(2), Stream::Critical);
    assert_eq!(Stream::from_u8(3), Stream::Batch);
    assert_eq!(Stream::from_u8(200), Stream::Batch);
    assert_eq!(Stream::Realtime.code(), 1);
}

#[test]
fn messages_split_into_payload_sized_fragments_that_rejoin() {
    assert_eq!(fragment_count(0), 0);
    assert_eq!(fragment_count(1), 1);
    assert_eq!(fragment_count(MAX_PAYLOAD), 1);
    assert_eq!(fragment_count(MAX_PAYLOAD + 1), 2);
    let data: Vec<u8> = (0..3000u32).map(|i| (i % 251) as u8).collect();
    let pkts = fragments(&data, Stream::Batch, 42);
    assert_eq!(pkts.len(), 3);
    let mut joined = Vec::new();
    for (i, p) in pkts.iter().enumerate() {
        assert_eq!(p.msg_id, 42);
        assert_eq!(p.frag_index as usize, i);
        assert_eq!(p.frag_total, 3);
        assert_eq!(p.flags, FLAG_DATA);
        joined.extend_from_slice(&p.payload);
    }
    assert_eq!(joined, data);
}

#[test]
fn message_length_limit() {
    assert_eq!(check_message_len(0), Ok(false));
    assert_eq!(check_message_len(10), Ok(true));
    assert_eq!(MAX_MESSAGE, 8192 * 1382);
    assert_eq!(check_message_len(11_321_344), Ok(true));
    assert_eq!(check_message_len(11_321_345), Err(QcpError::TooLarge(11_321_345, 11_321_344)));
    assert_eq!(fragment_count(MAX_MESSAGE), 8192);
    assert_eq!(check_message_len(MAX_MESSAGE), Ok(true));
    assert_eq!(
        check_message_len(MAX_MESSAGE + 1),
        Err(QcpError::TooLarge(MAX_MESSAGE + 1, MAX_MESSAGE))
    );
}

#[test]
fn listener_answers_every_syn_and_replaces_only_closed_links() {
    let (replace, reply) = listener_syn(None);
    assert!(replace);
    assert_eq!(reply.flags, FLAG_SYN | FLAG_ACK);
    assert_eq!(listener_syn(Some(true)).0, true);
    assert_eq!(listener_syn(Some(false)).0, false);
}

#[test]
fn handshake_ping_and_fin() {
    let mut core = CoreState::new(0, 200, 10);
    let out = core.handle_packet(&packet(FLAG_SYN | FLAG_ACK, Stream::Batch, 0, 0, 1, b""), 20);
    assert!(out.wake_handshake);
    assert!(core.handshaked);
    assert_eq!(core.last_activity_ms, 20);

    let out = core.handle_packet(&packet(FLAG_PING, Stream::Batch, 7, 0, 1, b""), 30);
    let reply = out.reply.expect("a ping is answered");
    assert_eq!(reply.flags, FLAG_PONG);
    assert_eq!(reply.msg_id, 7);

    let out = core.handle_packet(&packet(FLAG_FIN, Stream::Batch, 0, 0, 1, b""), 40);
    assert!(out.wake_fin && out.wake_closed);
    assert!(core.closed);

    // A closed link ignores whatever comes.
    let out = core.handle_packet(&packet(FLAG_PING, Stream::Batch, 8, 0, 1, b""), 50);
    assert!(out.reply.is_none());
    assert_eq!(core.last_activity_ms, 40);
}

#[test]
fn reliable_message_is_reassembled_acknowledged_and_delivered_once() {
    let mut core = CoreState::new(0, 200, 0);
    let second = packet(FLAG_DATA, Stream::Critical, 5, 1, 2, b"world");
    let first = packet(FLAG_DATA, Stream::Critical, 5, 0, 2, b"hello ");
    let out = core.handle_packet(&second, 1);
    assert!(out.deliver.is_none());
    let out = core.handle_packet(&first, 2);
    let (data, stream) = out.deliver.expect("complete message is delivered");
    assert_eq!(data, b"hello world".to_vec());
    assert_eq!(stream, Stream::Critical);
    let ack = out.reply.expect("a complete message is acknowledged");
    assert_eq!(ack.flags & FLAG_ACK, FLAG_ACK);
    assert_eq!(ack.msg_id, 5);

    // The same message again is acknowledged but not delivered again.
    let again = packet(FLAG_DATA, Stream::Critical, 5, 0, 1, b"hello world");
    let out = core.handle_packet(&again, 3);
    assert!(out.deliver.is_none());
    assert_eq!(out.reply.expect("re-acknowledged").msg_id, 5);
}

#[test]
fn realtime_latest_wins_without_retransmission() {
    let mut core = CoreState::new(0, 200, 0);
    let out = core.handle_packet(&packet(FLAG_DATA, Stream::Realtime, 3, 0, 1, b"c"), 1);
    assert_eq!(out.deliver.expect("newest is delivered").0, b"c".to_vec());
    let out = core.handle_packet(&packet(FLAG_DATA, Stream::Realtime, 2, 0, 1, b"b"), 2);
    assert!(out.deliver.is_none());
    let out = core.handle_packet(&packet(FLAG_DATA, Stream::Realtime, 4, 0, 1, b"d"), 3);
    assert_eq!(out.deliver.expect("newer is delivered").0, b"d".to_vec());
}

#[test]
fn send_records_in_flight_until_acknowledged() {
    let mut core = CoreState::new(0, 200, 0);
    let (id, pkts) = core.begin_send(b"payload", Stream::Batch, 100).unwrap();
    assert_eq!(id, 1);
    assert_eq!(pkts.len(), 1);
    assert_eq!(core.next_msg_id, 2);
    assert!(core.in_flight.contains_key(&1));

    // Nothing is due before the timeout; everything after it.
    assert!(core.retransmit_plan(150).resend.is_empty());
    let plan = core.retransmit_plan(400);
    assert_eq!(plan.resend, vec![1]);
    assert!(!plan.give_up);

    let out = core.handle_packet(&packet(FLAG_ACK, Stream::Batch, 1, 0, 1, b""), 120);
    assert!(out.wake_window);
    assert_eq!(out.rtt_sample_ms, Some(20));
    assert!(core.in_flight.is_empty());

    // Realtime messages are never kept for retransmission.
    let (rid, _) = core.begin_send(b"x", Stream::Realtime, 130).unwrap();
    assert_eq!(rid, 2);
    assert!(core.in_flight.is_empty());
}

#[test]
fn closed_and_dead_links_refuse_to_send() {
    let mut core = CoreState::new(0, 200, 0);
    core.mark_dead("peer vanished");
    assert!(core.dead && core.closed);
    assert_eq!(core.dead_reason.as_deref(), Some("peer vanished"));
    assert_eq!(core.begin_send(b"x", Stream::Batch, 1).err(), Some(QcpError::Closed));
    let mut core = CoreState::new(0, 200, 0);
    let fin = core.close();
    assert_eq!(fin.flags, FLAG_FIN);
    assert_eq!(core.begin_send(b"x", Stream::Batch, 1).err(), Some(QcpError::Closed));
}

#[test]
fn window_size_is_clamped() {
    assert_eq!(CoreState::new(0, 100, 0).cwnd, 32);
    assert_eq!(CoreState::new(10, 100, 0).cwnd, 10);
    assert_eq!(CoreState::new(10, 100, 0).ssthresh, 20);
    assert_eq!(CoreState::new(100_000, 100, 0).cwnd, 4096);
}

#[test]
fn keepalive_pings_when_idle_and_declares_silent_peers_dead() {
    let mut core = CoreState::new(0, 200, 0);
    assert!(matches!(core.liveness_tick(500), Liveness::Quiet));
    match core.liveness_tick(1500) {
        Liveness::Ping(p) => assert_eq!(p.flags, FLAG_PING),
        _ => panic!("an idle link is pinged"),
    }
    assert!(matches!(core.liveness_tick(9000), Liveness::Died));
    assert!(core.dead);
    let mut closed = CoreState::new(0, 200, 0);
    closed.close();
    assert!(matches!(closed.liveness_tick(9000), Liveness::Stopped));
}

#[test]
fn stream_buffers_read_in_pieces_and_flush_at_threshold() {
    let mut b = StreamBuffers::new();
    assert!(b.needs_message());
    b.put_message(b"abcdef".to_vec());
    assert_eq!(b.read(4), b"abcd".to_vec());
    assert_eq!(b.read(10), b"ef".to_vec());
    assert!(b.needs_message());

    assert_eq!(b.write(b"small"), None);
    assert_eq!(b.flush(), Some(b"small".to_vec()));
    assert_eq!(b.flush(), None);
    let big = vec![7u8; FLUSH_THRESHOLD];
    assert_eq!(b.write(&big), Some(big.clone()));
    assert!(b.write_buf.is_empty());
}

#[test]
fn realtime_message_is_delivered_only_whole() {
    let mut sender = CoreState::new(0, 200, 0);
    let data: Vec<u8> = (0..3000u32).map(|i| (i % 251) as u8).collect();
    let (_, pkts) = sender.begin_send(&data, Stream::Realtime, 0).unwrap();
    assert_eq!(pkts.len(), 3);
    let mut receiver = CoreState::new(0, 200, 0);
    assert!(receiver.handle_packet(&pkts[0], 1).deliver.is_none());
    assert!(receiver.handle_packet(&pkts[2], 2).deliver.is_none());
    let out = receiver.handle_packet(&pkts[1], 3);
    let (msg, stream) = out.deliver.expect("the whole message");
    assert_eq!(msg, data);
    assert_eq!(stream, Stream::Realtime);
    // An older realtime message arriving afterwards is dropped.
    let stale = packet(FLAG_DATA, Stream::Realtime, 0, 0, 1, b"old");
    assert!(receiver.handle_packet(&stale, 4).deliver.is_none());
}

#[test]
fn batch_messages_go_out_one_at_a_time() {
    let mut core = CoreState::new(0, 200, 0);
    assert_eq!(core.send_gate(Stream::Batch), Ok(true));
    let (id, _) = core.begin_send(b"first", Stream::Batch, 0).unwrap();
    assert_eq!(core.send_gate(Stream::Batch), Ok(false));
    assert_eq!(core.send_gate(Stream::Critical), Ok(true));
    core.handle_packet(&packet(FLAG_ACK, Stream::Batch, id, 0, 0, b""), 10);
    assert_eq!(core.send_gate(Stream::Batch), Ok(true));
}

#[test]
fn whole_reliable_message_is_acknowledged_and_delivered_once() {
    let mut sender = CoreState::new(0, 200, 0);
    let data = vec![7u8; 5000];
    let (id, pkts) = sender.begin_send(&data, Stream::Batch, 0).unwrap();
    let mut receiver = CoreState::new(0, 200, 0);
    let mut delivered = Vec::new();
    for (i, p) in pkts.iter().enumerate() {
        let out = receiver.handle_packet(p, i as u64);
        if let Some((m, _)) = out.deliver {
            delivered.push(m);
            let ack = out.reply.expect("acknowledged");
            assert_eq!((ack.flags, ack.msg_id), (FLAG_ACK, id));
        }
    }
    assert_eq!(delivered, vec![data]);
    // A retransmitted message is acknowledged again, not delivered again.
    let mut last = None;
    for p in &pkts {
        let out = receiver.handle_packet(p, 9);
        assert!(out.deliver.is_none());
        last = out.reply;
    }
    assert_eq!(last.map(|a| (a.flags, a.msg_id)), Some((FLAG_ACK, id)));
}

#[test]
fn batch_messages_reach_the_reader_in_order_over_a_lossy_network() {
    let mut sender = CoreState::new(0, 200, 0);
    let mut receiver = CoreState::new(0, 200, 0);
    let mut read: Vec<Vec<u8>> = Vec::new();
    let first: Vec<u8> = (0..3000u32).map(|i| (i % 251) as u8).collect();
    let second = b"second".to_vec();
    let (id1, pkts1) = sender.begin_send(&first, Stream::Batch, 0).unwrap();
    assert_eq!(pkts1.len(), 3);
    // The second message must wait for the first to be acknowledged.
    assert_eq!(sender.send_gate(Stream::Batch), Ok(false));
    // Fragment 1 is lost; 2 and 0 arrive, 2 twice.
    for p in [&pkts1[2], &pkts1[0], &pkts1[2]] {
        let out = receiver.handle_packet(p, 5);
        assert!(out.deliver.is_none());
        assert!(out.reply.is_none());
    }
    assert_eq!(sender.send_gate(Stream::Batch), Ok(false));
    // The retransmission brings the whole message again.
    let resent = sender.resend_packets(id1);
    let mut ack = None;
    for p in &resent {
        let out = receiver.handle_packet(p, 50);
        if let Some((m, _)) = out.deliver {
            read.push(m);
        }
        if out.reply.is_some() {
            ack = out.reply;
        }
    }
    assert_eq!(read, vec![first.clone()]);
    let ack = ack.expect("acknowledged");
    assert_eq!((ack.flags, ack.msg_id), (FLAG_ACK, id1));
    sender.handle_packet(&ack, 60);
    assert_eq!(sender.send_gate(Stream::Batch), Ok(true));
    let (id2, pkts2) = sender.begin_send(&second, Stream::Batch, 70).unwrap();
    assert_ne!(id1, id2);
    // A late duplicate of the first message is not read again.
    for p in pkts1.iter().chain(pkts2.iter()) {
        let out = receiver.handle_packet(p, 80);
        if let Some((m, _)) = out.deliver {
            read.push(m);
        }
    }
    assert_eq!(read, vec![first, second]);
}
