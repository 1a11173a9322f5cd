use elbus_broker::broker::{Broker, ElbusClientType};
use elbus_broker::codec::{
    check_greeting, check_name, decode_routed, encode_ack, encode_routed, greeting, name_length,
    parse_op_header, OpHeader,
};
use elbus_broker::peer::{OpOutcome, PeerState};
use elbus_broker::proto::{
    FrameKind, FrameOp, QoS, DEFAULT_QUEUE_SIZE, ERR_BUSY, ERR_DATA, ERR_NOT_REGISTERED,
    ERR_NOT_SUPPORTED, OP_ACK, RESPONSE_OK,
};

fn join(name: &[u8], b: &mut Broker) -> u64 {
    let (code, id) = b.accept_name(name, ElbusClientType::Tcp, None, None);
    assert_eq!(code, RESPONSE_OK);
    id.unwrap()
}

fn header(op_id: [u8; 4], flags: u8, len: u32) -> OpHeader {
    let mut buf = op_id.to_vec();
    buf.push(flags);
    buf.extend_from_slice(&len.to_le_bytes());
    parse_op_header(&buf).unwrap().unwrap()
}

fn run(b: &mut Broker, id: u64, flags: u8, body: &[u8]) -> OpOutcome {
    let h = header([4, 3, 2, 1], flags, body.len() as u32);
    b.handle_op(id, &h, body.to_vec())
}

fn wire(out: &OpOutcome) -> Vec<u8> {
    out.delivery.as_ref().unwrap().frame.encode()
}

#[test]
fn handshake_then_ping() {
    let mut b = Broker::new();
    let g = greeting();
    assert_eq!(g, vec![0xEB, 0x01, 0x00]);
    assert_eq!(check_greeting(&g), RESPONSE_OK);
    assert_eq!(name_length(&[0x03, 0x00]), 3);
    let (code, id) = b.accept_name(b"abc", ElbusClientType::Tcp, None, None);
    assert_eq!(code, RESPONSE_OK);
    assert!(id.is_some());
    assert!(matches!(parse_op_header(&[0u8; 9]), Ok(None)));
}

#[test]
fn bad_greeting_is_not_supported() {
    assert_eq!(check_greeting(&[0xEA, 0x01, 0x00]), ERR_NOT_SUPPORTED);
    assert_eq!(check_greeting(&[0xEB, 0x02, 0x00]), ERR_NOT_SUPPORTED);
}

#[test]
fn empty_name_is_data_error() {
    let mut b = Broker::new();
    assert_eq!(check_name(b""), ERR_DATA);
    assert_eq!(b.accept_name(b"", ElbusClientType::Tcp, None, None), (ERR_DATA, None));
}

#[test]
fn dotted_name_is_data_error() {
    let mut b = Broker::new();
    assert_eq!(b.accept_name(b".broker", ElbusClientType::Tcp, None, None), (ERR_DATA, None));
    assert_eq!(b.accept_name(&[0xFF, 0xFE], ElbusClientType::Tcp, None, None), (ERR_DATA, None));
}

#[test]
fn duplicate_name_is_busy() {
    let mut b = Broker::new();
    join(b"a", &mut b);
    assert_eq!(b.accept_name(b"a", ElbusClientType::LocalIpc, None, None), (ERR_BUSY, None));
}

#[test]
fn directed_message_with_ack() {
    let mut b = Broker::new();
    let a = join(b"A", &mut b);
    let bb = join(b"B", &mut b);
    let out = run(&mut b, a, 0x12 | (1 << 6), b"B\0hello");
    assert!(out.error.is_none());
    assert_eq!(out.delivery.as_ref().unwrap().recipients, vec![bb]);
    let f = decode_routed(&wire(&out)).unwrap();
    assert_eq!(f.kind, FrameKind::Message);
    assert_eq!(f.sender, b"A".to_vec());
    assert_eq!(f.data, b"hello".to_vec());
    assert_eq!(out.ack, Some(vec![OP_ACK, 4, 3, 2, 1, RESPONSE_OK]));
}

#[test]
fn unknown_target_gets_not_registered_ack() {
    let mut b = Broker::new();
    let a = join(b"A", &mut b);
    let out = run(&mut b, a, 0x12 | (1 << 6), b"Z\0x");
    assert!(out.delivery.is_none());
    assert!(out.error.is_none());
    assert_eq!(out.ack, Some(vec![OP_ACK, 4, 3, 2, 1, ERR_NOT_REGISTERED]));
}

#[test]
fn unknown_target_without_qos_is_silent() {
    let mut b = Broker::new();
    let a = join(b"A", &mut b);
    let out = run(&mut b, a, 0x12, b"Z\0x");
    assert!(out.delivery.is_none() && out.ack.is_none() && out.error.is_none());
}

#[test]
fn topic_publish_fan_out() {
    let mut b = Broker::new();
    let a = join(b"A", &mut b);
    let bb = join(b"B", &mut b);
    let c = join(b"C", &mut b);
    let _d = join(b"D", &mut b);
    let s1 = run(&mut b, bb, 0x02 | (1 << 6), b"room/+/chat");
    assert_eq!(s1.ack, Some(vec![OP_ACK, 4, 3, 2, 1, RESPONSE_OK]));
    run(&mut b, c, 0x02, b"room/#");
    let out = run(&mut b, a, 0x01, b"room/7/chat\0hi");
    let mut r = out.delivery.as_ref().unwrap().recipients.clone();
    r.sort();
    assert_eq!(r, vec![bb, c]);
    let f = decode_routed(&wire(&out)).unwrap();
    assert_eq!(f.kind, FrameKind::Publish);
    assert_eq!(f.topic, Some(b"room/7/chat".to_vec()));
    assert_eq!(f.sender, b"A".to_vec());
    assert_eq!(f.data, b"hi".to_vec());
}

#[test]
fn broadcast_fan_out() {
    let mut b = Broker::new();
    let a = join(b"A", &mut b);
    let t1 = join(b"sensor.temp.1", &mut b);
    let t2 = join(b"sensor.temp.2", &mut b);
    let _h = join(b"sensor.humid.1", &mut b);
    let out = run(&mut b, a, 0x13, b"sensor.temp.*\0v");
    let mut r = out.delivery.as_ref().unwrap().recipients.clone();
    r.sort();
    assert_eq!(r, vec![t1, t2]);
    let q = run(&mut b, a, 0x13, b"sensor.?.1\0v");
    assert_eq!(q.delivery.as_ref().unwrap().recipients.len(), 2);
    let f = decode_routed(&wire(&out)).unwrap();
    assert_eq!(f.kind, FrameKind::Broadcast);
}

#[test]
fn broadcast_matching_nobody_acks_ok() {
    let mut b = Broker::new();
    let a = join(b"A", &mut b);
    let out = run(&mut b, a, 0x13 | (1 << 6), b"nobody.*\0v");
    assert!(out.delivery.as_ref().unwrap().recipients.is_empty());
    assert_eq!(out.ack, Some(vec![OP_ACK, 4, 3, 2, 1, RESPONSE_OK]));
}

#[test]
fn disconnect_cleanup() {
    let mut b = Broker::new();
    let a = join(b"A", &mut b);
    let p = join(b"P", &mut b);
    run(&mut b, a, 0x02, b"t/#");
    b.unregister(a);
    assert_eq!(b.lookup(b"A"), None);
    let out = run(&mut b, p, 0x01, b"t/x\0m");
    assert!(out.delivery.as_ref().unwrap().recipients.is_empty());
    let (code, _) = b.accept_name(b"A", ElbusClientType::Tcp, None, None);
    assert_eq!(code, RESPONSE_OK);
    let out = run(&mut b, p, 0x01, b"t/x\0m");
    assert!(out.delivery.as_ref().unwrap().recipients.is_empty());
}

#[test]
fn lookup_returns_registered_id() {
    let mut b = Broker::new();
    let x = join(b"x", &mut b);
    let y = join(b"y", &mut b);
    assert_eq!(b.lookup(b"x"), Some(x));
    assert_eq!(b.lookup(b"y"), Some(y));
    assert_eq!(b.client(x).unwrap().name, b"x".to_vec());
}

#[test]
fn every_client_hears_broker_warnings() {
    let mut b = Broker::new();
    let x = join(b"x", &mut b);
    let p = join(b"p", &mut b);
    let out = run(&mut b, p, 0x01, b".broker/warn\0w");
    let mut r = out.delivery.as_ref().unwrap().recipients.clone();
    r.sort();
    assert_eq!(r, vec![x, p]);
    let info = run(&mut b, p, 0x01, b".broker/info\0w");
    assert!(info.delivery.as_ref().unwrap().recipients.is_empty());
}

#[test]
fn repeated_subscribe_then_one_unsubscribe() {
    let mut b = Broker::new();
    let x = join(b"x", &mut b);
    let p = join(b"p", &mut b);
    for _ in 0..3 {
        assert_eq!(b.subscribe(x, b"a/b"), Ok(()));
    }
    let once = run(&mut b, p, 0x01, b"a/b\0m");
    assert_eq!(once.delivery.as_ref().unwrap().recipients, vec![x]);
    assert_eq!(b.unsubscribe(x, b"a/b"), Ok(()));
    let none = run(&mut b, p, 0x01, b"a/b\0m");
    assert!(none.delivery.as_ref().unwrap().recipients.is_empty());
}

#[test]
fn message_to_own_name_delivers_once() {
    let mut b = Broker::new();
    let x = join(b"x", &mut b);
    let out = run(&mut b, x, 0x12, b"x\0\x00\x01\x02");
    assert_eq!(out.delivery.as_ref().unwrap().recipients, vec![x]);
    let f = decode_routed(&wire(&out)).unwrap();
    assert_eq!(f.sender, b"x".to_vec());
    assert_eq!(f.data, vec![0u8, 1, 2]);
}

#[test]
fn empty_payload_is_delivered_empty() {
    let mut b = Broker::new();
    let a = join(b"A", &mut b);
    let bb = join(b"B", &mut b);
    let out = run(&mut b, a, 0x12, b"B\0");
    assert_eq!(out.delivery.as_ref().unwrap().recipients, vec![bb]);
    assert!(out.delivery.as_ref().unwrap().frame.payload().is_empty());
    let f = decode_routed(&wire(&out)).unwrap();
    assert!(f.data.is_empty());
}

#[test]
fn routed_frame_round_trip() {
    let e = encode_routed(FrameKind::Publish, b"me", Some(b"a/b"), b"", b"data");
    assert_eq!(e[0], 0x01);
    assert_eq!(&e[1..5], &(3u32 + 4 + 4).to_le_bytes());
    assert_eq!(e[5], 0);
    let f = decode_routed(&e).unwrap();
    assert_eq!(f.kind, FrameKind::Publish);
    assert_eq!(f.sender, b"me".to_vec());
    assert_eq!(f.topic, Some(b"a/b".to_vec()));
    assert_eq!(f.data, b"data".to_vec());
    let m = encode_routed(FrameKind::Message, b"s", None, b"", b"");
    assert_eq!(m, vec![0x12, 2, 0, 0, 0, 0, b's', 0]);
    assert!(decode_routed(&m[..7]).is_none());
}

#[test]
fn ack_layout() {
    assert_eq!(encode_ack(&[1, 2, 3, 4], 0x76), vec![0xFE, 1, 2, 3, 4, 0x76]);
}

#[test]
fn op_header_fields() {
    let h = header([9, 8, 7, 6], 0x03 | (1 << 6), 300);
    assert_eq!(h.op_id, vec![9, 8, 7, 6]);
    assert_eq!(h.op, FrameOp::UnsubscribeTopic);
    assert_eq!(h.qos, QoS::Processed);
    assert_eq!(h.len, 300);
    assert!(matches!(parse_op_header(&[0, 0, 0, 0, 0x3F, 0, 0, 0, 0]), Err(ERR_NOT_SUPPORTED)));
    assert!(matches!(parse_op_header(&[0, 0, 0, 0, 0x92, 0, 0, 0, 0]), Err(ERR_NOT_SUPPORTED)));
}

#[test]
fn body_without_terminator_closes() {
    let mut b = Broker::new();
    let a = join(b"A", &mut b);
    let out = run(&mut b, a, 0x12 | (1 << 6), b"B");
    assert_eq!(out.error, Some(ERR_DATA));
    assert!(out.ack.is_none());
}

#[test]
fn bad_pattern_in_batch_stops_with_data_ack() {
    let mut b = Broker::new();
    let a = join(b"A", &mut b);
    let p = join(b"P", &mut b);
    let out = run(&mut b, a, 0x02 | (1 << 6), b"x/y\0a/#/b\0z");
    assert_eq!(out.ack, Some(vec![OP_ACK, 4, 3, 2, 1, ERR_DATA]));
    let x = run(&mut b, p, 0x01, b"x/y\0m");
    assert_eq!(x.delivery.as_ref().unwrap().recipients, vec![a]);
    let z = run(&mut b, p, 0x01, b"z\0m");
    assert!(z.delivery.as_ref().unwrap().recipients.is_empty());
}

#[test]
fn multi_segment_wildcard_needs_a_segment() {
    let mut b = Broker::new();
    let a = join(b"A", &mut b);
    let p = join(b"P", &mut b);
    run(&mut b, a, 0x02, b"room/#");
    let out = run(&mut b, p, 0x01, b"room\0m");
    assert!(out.delivery.as_ref().unwrap().recipients.is_empty());
}

#[test]
fn in_process_client() {
    let mut b = Broker::new();
    assert_eq!(b.queue_size(), DEFAULT_QUEUE_SIZE);
    b.set_queue_size(16);
    assert_eq!(b.queue_size(), 16);
    let me = b.register_client(".broker").ok().unwrap();
    let other = b.register_client("other").ok().unwrap();
    assert!(matches!(b.register_client("other"), Err(ERR_BUSY)));
    assert!(matches!(b.register_client(""), Err(ERR_DATA)));
    assert_eq!(b.client(me.id()).unwrap().queue_size, 16);
    assert_eq!(other.subscribe(&mut b, "news/#", QoS::Processed), Ok(Some(RESPONSE_OK)));
    assert_eq!(other.subscribe_bulk(&mut b, vec!["a", "b"], QoS::No), Ok(None));
    let (d, c) = me.publish(&b, "news/today", b"n".to_vec(), QoS::No);
    assert_eq!(c, None);
    assert_eq!(d.recipients, vec![other.id()]);
    let (d, _) = me.send(&b, "other", b"hey".to_vec(), QoS::Processed).ok().unwrap();
    assert_eq!(d.recipients, vec![other.id()]);
    assert_eq!(d.frame.payload(), b"hey".to_vec());
    let (z, _) = me.zc_send(&b, "other", b"H".to_vec(), b"p".to_vec(), QoS::No).ok().unwrap();
    let f = decode_routed(&z.frame.encode()).unwrap();
    assert_eq!(f.data, b"Hp".to_vec());
    assert!(matches!(me.send(&b, "nobody", vec![], QoS::No), Err(ERR_NOT_REGISTERED)));
    let (bc, _) = me.send_broadcast(&b, "oth?r", vec![], QoS::No);
    assert!(bc.recipients.is_empty());
    let (bc, _) = me.send_broadcast(&b, "*", vec![], QoS::No);
    assert_eq!(bc.recipients.len(), 2);
    assert_eq!(other.unsubscribe(&mut b, "news/#", QoS::No), Ok(None));
    assert_eq!(other.unsubscribe_bulk(&mut b, vec!["a"], QoS::Processed), Ok(Some(RESPONSE_OK)));
    other.unregister(&mut b);
    assert_eq!(b.lookup(b"other"), None);
    assert!(matches!(other.subscribe(&mut b, "x", QoS::No), Err(ERR_NOT_REGISTERED)));
}

#[test]
fn client_type_names() {
    assert_eq!(ElbusClientType::Internal.as_str(), "internal");
    assert_eq!(ElbusClientType::LocalIpc.as_str(), "local_ipc");
    assert_eq!(ElbusClientType::Tcp.as_str(), "tcp");
}

#[test]
fn clients_listed_by_name() {
    let mut b = Broker::new();
    let x = join(b"b", &mut b);
    let y = join(b"a", &mut b);
    let z = b.accept_name(b"ab", ElbusClientType::LocalIpc, None, Some("/tmp/s".to_owned())).1.unwrap();
    let list = b.list_clients();
    let names: Vec<Vec<u8>> = list.iter().map(|c| c.name.clone()).collect();
    assert_eq!(names, vec![b"a".to_vec(), b"ab".to_vec(), b"b".to_vec()]);
    let ids: Vec<u64> = list.iter().map(|c| c.id).collect();
    assert_eq!(ids, vec![y, z, x]);
    assert_eq!(list[1].tp, ElbusClientType::LocalIpc);
    assert_eq!(list[1].port, Some("/tmp/s".to_owned()));
}

#[test]
fn connection_steps_through_handshake() {
    let mut b = Broker::new();
    let s = PeerState::GreetingIn;
    assert_eq!(s.wants(), 3);
    assert!(s.read_is_bounded());
    let st = b.peer_step(s, &[0xEB, 0x01, 0x00], ElbusClientType::Tcp, None, None);
    assert_eq!(st.write, vec![RESPONSE_OK]);
    assert_eq!(st.next.wants(), 2);
    let st = b.peer_step(st.next, &[0x03, 0x00], ElbusClientType::Tcp, None, None);
    assert!(st.write.is_empty());
    assert_eq!(st.next.wants(), 3);
    let st = b.peer_step(st.next, b"abc", ElbusClientType::Tcp, Some("1.2.3.4:5".to_owned()), None);
    assert_eq!(st.write, vec![RESPONSE_OK]);
    assert!(matches!(st.next, PeerState::Idle { .. }));
    assert!(!st.next.read_is_bounded());
    assert_eq!(st.next.wants(), 9);
    let st = b.peer_step(st.next, &[0u8; 9], ElbusClientType::Tcp, None, None);
    assert!(st.write.is_empty() && st.outcome.is_none());
    assert!(matches!(st.next, PeerState::Idle { .. }));
    let st = b.peer_step(st.next, &[1, 0, 0, 0, 0x02 | (1 << 6), 3, 0, 0, 0], ElbusClientType::Tcp, None, None);
    assert_eq!(st.next.wants(), 3);
    assert!(st.next.read_is_bounded());
    let st = b.peer_step(st.next, b"t/x", ElbusClientType::Tcp, None, None);
    assert_eq!(st.outcome.unwrap().ack, Some(vec![OP_ACK, 1, 0, 0, 0, RESPONSE_OK]));
    assert!(matches!(st.next, PeerState::Idle { .. }));
    let st = b.peer_step(st.next, &[1, 0, 0, 0, 0x3F, 0, 0, 0, 0], ElbusClientType::Tcp, None, None);
    assert!(st.next.is_closed());
    assert_eq!(b.list_clients()[0].source, Some("1.2.3.4:5".to_owned()));
}

#[test]
fn connection_refused_on_bad_greeting_and_names() {
    let mut b = Broker::new();
    let st = b.peer_step(PeerState::GreetingIn, &[0xEB, 0x09, 0x00], ElbusClientType::Tcp, None, None);
    assert_eq!(st.write, vec![ERR_NOT_SUPPORTED]);
    assert!(st.next.is_closed());
    let st = b.peer_step(PeerState::Name { len: 0 }, b"", ElbusClientType::Tcp, None, None);
    assert_eq!(st.write, vec![ERR_DATA]);
    assert!(st.next.is_closed());
    let st = b.peer_step(PeerState::Name { len: 2 }, b".x", ElbusClientType::Tcp, None, None);
    assert_eq!(st.write, vec![ERR_DATA]);
    b.peer_step(PeerState::Name { len: 1 }, b"x", ElbusClientType::Tcp, None, None);
    let st = b.peer_step(PeerState::Name { len: 1 }, b"x", ElbusClientType::Tcp, None, None);
    assert_eq!(st.write, vec![ERR_BUSY]);
    assert!(st.next.is_closed());
}

#[test]
fn registration_keeps_description() {
    let mut b = Broker::new();
    b.set_queue_size(7);
    let (code, id) = b.accept_name(b"n", ElbusClientType::Tcp, Some("10.0.0.1:9".to_owned()), Some("0.0.0.0:7777".to_owned()));
    assert_eq!(code, RESPONSE_OK);
    let c = b.client(id.unwrap()).unwrap();
    assert_eq!(c.tp, ElbusClientType::Tcp);
    assert_eq!(c.source, Some("10.0.0.1:9".to_owned()));
    assert_eq!(c.port, Some("0.0.0.0:7777".to_owned()));
    assert_eq!(c.queue_size, 7);
    let me = b.register_client("inproc").ok().unwrap();
    let d = b.client(me.id()).unwrap();
    assert_eq!(d.tp, ElbusClientType::Internal);
    assert_eq!(d.source, None);
    let busy = b.accept_name(b"inproc", ElbusClientType::Tcp, None, None);
    assert_eq!(busy, (ERR_BUSY, None));
    assert_eq!(b.lookup(b"inproc"), Some(me.id()));
}
