use vaux::{
    ConnAck, Disconnect, ErrorKind, MqttError, Outcome, Packet, PacketType, Property,
    PropertyType, PropertyValue, PubResp, Publish, QoSLevel, Reason, Session, Size,
    UserPropertyMap,
};

#[test]
fn it_works() {
    let result = 2 + 2;
    assert_eq!(result, 4);
}

fn publish(id: Option<u16>, payload: &[u8]) -> Packet {
    Packet::Publish(Publish {
        dup: false,
        qos: QoSLevel::AtLeastOnce,
        retain: false,
        topic_name: "topic".to_string(),
        packet_id: id,
        properties: Vec::new(),
        payload: payload.to_vec(),
    })
}

fn connack(reason: Reason) -> ConnAck {
    ConnAck { session_present: false, reason, properties: Vec::new() }
}

fn connected(receive_max: u16) -> Session {
    let mut s = Session::new(Some("client".to_string()), true, receive_max, true);
    let frames = s.handle_connack(&connack(Reason::Success)).unwrap();
    assert!(frames.is_empty());
    assert!(s.connected());
    s
}

fn puback(id: u16) -> Packet {
    Packet::PubAck(PubResp { packet_id: id, reason: Reason::Success, properties: Vec::new() })
}

fn sent_publish_id(frame: &[u8]) -> Option<u16> {
    match vaux::decode_packet(frame).unwrap() {
        Some((Packet::Publish(p), _)) => p.packet_id,
        _ => None,
    }
}

#[test]
fn credit_window_of_one() {
    let mut s = connected(1);
    let a = s.on_outbound(publish(None, b"first"));
    assert!(matches!(a.outcome, Outcome::Continue));
    assert_eq!(1, a.transmit.len());
    assert_eq!(Some(1), sent_publish_id(&a.transmit[0]));
    let b = s.on_outbound(publish(None, b"second"));
    assert!(matches!(b.outcome, Outcome::Continue));
    assert!(b.transmit.is_empty());
    assert_eq!(1, s.pending_len());
    assert_eq!(1, s.in_flight_len());
    assert_eq!(0, s.credit());
    let c = s.on_inbound(puback(1));
    assert!(matches!(c.deliver, Some(Packet::PubAck(_))));
    assert_eq!(1, c.transmit.len());
    match vaux::decode_packet(&c.transmit[0]).unwrap() {
        Some((Packet::Publish(p), _)) => {
            assert_eq!(b"second".to_vec(), p.payload);
            assert_eq!(Some(2), p.packet_id);
        }
        _ => panic!("expected the second publish"),
    }
    assert_eq!(0, s.pending_len());
    assert_eq!(1, s.in_flight_len());
}

#[test]
fn credit_never_exceeds_receive_max() {
    let mut s = connected(2);
    let mut sent = 0;
    for i in 0..6u8 {
        let a = s.on_outbound(publish(None, &[i]));
        sent += a.transmit.len();
        assert!(s.in_flight_len() <= 2);
    }
    assert_eq!(2, sent);
    assert_eq!(4, s.pending_len());
    // An unmatched acknowledgement changes nothing.
    let a = s.on_inbound(puback(99));
    assert!(a.transmit.is_empty());
    assert_eq!(0, s.credit());
    for id in 1..=6u16 {
        let a = s.on_inbound(puback(id));
        for f in &a.transmit {
            let pid = sent_publish_id(f).unwrap();
            for k in 0..s.in_flight_len() - 1 {
                assert_ne!(Some(pid), s.in_flight_packet_id(k));
            }
        }
        assert!(s.in_flight_len() <= 2);
        assert!(s.credit() <= s.receive_max());
    }
    assert_eq!(0, s.in_flight_len());
    assert_eq!(2, s.credit());
}

#[test]
fn connack_refused_keeps_reason() {
    let mut s = Session::new(Some("client".to_string()), true, 10, true);
    let e = s.handle_connack(&connack(Reason::Unauthorized)).unwrap_err();
    assert_eq!(ErrorKind::Protocol(Reason::Unauthorized), e.kind());
    assert!(!s.connected());
}

#[test]
fn connack_assigns_client_id() {
    let mut s = Session::new(None, true, 10, true);
    let e = s.handle_connack(&connack(Reason::Success)).unwrap_err();
    assert_eq!(ErrorKind::Protocol(Reason::InvalidClientId), e.kind());
    assert!(!s.connected());
    let mut c = connack(Reason::Success);
    c.properties.push(Property::new(PropertyType::AssignedClientId, PropertyValue::Utf8("given".to_string())));
    assert!(s.handle_connack(&c).is_ok());
    assert_eq!(Some("given".to_string()), s.client_id());
    assert!(s.connected());
}

#[test]
fn handshake_disconnect_reports_reason() {
    let mut s = Session::new(Some("c".to_string()), true, 10, true);
    let e = s
        .handshake(Packet::Disconnect(Disconnect { reason: Reason::ServerBusy, properties: Vec::new() }))
        .unwrap_err();
    assert_eq!(ErrorKind::Protocol(Reason::ServerBusy), e.kind());
    let e = s.handshake(Packet::PingResponse).unwrap_err();
    assert_eq!(ErrorKind::Protocol(Reason::ProtocolErr), e.kind());
}

#[test]
fn peer_disconnect_recovers_pending() {
    let mut s = connected(5);
    let a = s.on_outbound(publish(None, b"kept"));
    assert_eq!(1, a.transmit.len());
    let d = s.on_inbound(Packet::Disconnect(Disconnect { reason: Reason::AdminAction, properties: Vec::new() }));
    match d.outcome {
        Outcome::Fail(e) => assert_eq!(ErrorKind::Protocol(Reason::AdminAction), e.kind()),
        _ => panic!("expected failure"),
    }
    assert!(d.deliver.is_none());
    assert_eq!(1, s.pending_len());
    assert_eq!(0, s.in_flight_len());
    assert_eq!(Some(1), s.pending_packet_id(0));
    assert!(!s.connected());
    // A new session sends it again once connected.
    let frames = s.handle_connack(&connack(Reason::Success)).unwrap();
    assert_eq!(1, frames.len());
    assert_eq!(Some(1), sent_publish_id(&frames[0]));
}

#[test]
fn inbound_publish_is_acknowledged() {
    let mut s = connected(5);
    let a = s.on_inbound(publish(Some(77), b"x"));
    assert_eq!(1, a.transmit.len());
    assert_eq!(vec![0x40, 0x04, 0x00, 0x4d, 0x00, 0x00], a.transmit[0]);
    assert!(matches!(a.deliver, Some(Packet::Publish(_))));
    let b = s.on_inbound(publish(None, b"x"));
    match b.outcome {
        Outcome::Fail(e) => assert_eq!(ErrorKind::Protocol(Reason::MalformedPacket), e.kind()),
        _ => panic!("expected failure"),
    }
}

#[test]
fn caller_assigned_ids() {
    let mut s = Session::new(Some("c".to_string()), true, 5, false);
    s.handle_connack(&connack(Reason::Success)).unwrap();
    assert_eq!(1, s.on_outbound(publish(Some(10), b"a")).transmit.len());
    match s.on_outbound(publish(Some(10), b"b")).outcome {
        Outcome::Rejected(e) => assert_eq!(ErrorKind::Protocol(Reason::PacketIdInUse), e.kind()),
        _ => panic!("expected rejection"),
    }
    match s.on_outbound(publish(None, b"c")).outcome {
        Outcome::Rejected(e) => assert_eq!(ErrorKind::Protocol(Reason::MalformedPacket), e.kind()),
        _ => panic!("expected rejection"),
    }
}

#[test]
fn outbound_disconnect_stops() {
    let mut s = connected(5);
    let a = s.on_outbound(Packet::Disconnect(Disconnect { reason: Reason::Success, properties: Vec::new() }));
    assert!(matches!(a.outcome, Outcome::Stop));
    assert_eq!(vec![vec![0xe0, 0x02, 0x00, 0x00]], a.transmit);
    assert!(!s.connected());
    let b = s.on_outbound(Packet::PingRequest);
    assert_eq!(vec![vec![0xc0, 0x00]], b.transmit);
}

#[test]
fn waiting_queue_is_bounded() {
    let mut s = connected(1);
    s.on_outbound(publish(None, b"0"));
    for i in 0..100u8 {
        let a = s.on_outbound(publish(None, &[i]));
        assert!(matches!(a.outcome, Outcome::Continue));
    }
    let a = s.on_outbound(publish(None, b"over"));
    match a.outcome {
        Outcome::Fail(e) => assert_eq!(ErrorKind::Protocol(Reason::ReceiveMaxExceeded), e.kind()),
        _ => panic!("expected failure"),
    }
    assert_eq!(102, s.pending_len());
}

#[test]
fn connect_packet_fields() {
    let s = Session::new(Some("me".to_string()), true, 10, true);
    let c = s.connect_packet(true, 60, Some(("u".to_string(), "p".to_string())));
    assert_eq!("me", c.client_id);
    assert!(c.clean_start);
    assert_eq!(Some("u".to_string()), c.username);
    assert_eq!(Some(b"p".to_vec()), c.password);
    assert_eq!(vec![Property::new(PropertyType::SessionExpiryInterval, PropertyValue::FourByte(60))], c.properties);
}

#[test]
fn user_property_map() {
    let mut m = UserPropertyMap::new();
    assert!(!m.contains_key("a"));
    m.add_property("a", "1");
    m.add_property("b", "2");
    m.add_property("a", "3");
    assert!(m.contains_key("a"));
    assert_eq!(2, m.map().len());
    assert_eq!(vec!["1".to_string(), "3".to_string()], m.map()[0].1);
    // three properties: 1 + (2 + 1) + (2 + 1) bytes each
    assert_eq!(21, m.size());
    let mut out = Vec::new();
    m.encode(&mut out).unwrap();
    assert_eq!(21, out.len());
    assert_eq!(&[0x26, 0x00, 0x01, b'a', 0x00, 0x01, b'1'][..], &out[0..7]);
}

#[test]
fn errors_carry_kind_and_message() {
    let e = MqttError::new("boom", ErrorKind::Timeout);
    assert_eq!(ErrorKind::Timeout, e.kind());
    assert_eq!("boom", e.message());
    assert_eq!(ErrorKind::Codec, ErrorKind::default());
    assert_eq!(0x30, PacketType::Publish.code());
}
