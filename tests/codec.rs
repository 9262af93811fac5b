use bytes::{BufMut, BytesMut};
use vaux::{
    check_property, decode, decode_fixed_header, decode_packet, decode_variable_len_integer,
    encode, encode_packet, encode_variable_len_integer, variable_byte_int_size, ConnAck, Connect,
    Disconnect, Packet, PacketType, Property, PropertyType, PropertyValue, PubResp, Publish,
    QoSLevel, Reason, Size, Subscribe, Subscription,
};

#[test]
fn test_packet_type_display() {
    let p = PacketType::UnsubAck;
    assert_eq!("UNSUBACK", p.to_string());
    let p = PacketType::PingReq;
    assert_eq!("PINGREQ", p.to_string());
}

#[test]
fn test_control_packet_type_from() {
    let cases: [(u8, PacketType); 14] = [
        (0x12, PacketType::Connect),
        (0x2f, PacketType::ConnAck),
        (0x35, PacketType::Publish),
        (0x47, PacketType::PubAck),
        (0x5f, PacketType::PubRec),
        (0x6f, PacketType::PubRel),
        (0x7f, PacketType::PubComp),
        (0x8f, PacketType::Subscribe),
        (0x9f, PacketType::SubAck),
        (0xaf, PacketType::Unsubscribe),
        (0xbf, PacketType::UnsubAck),
        (0xcf, PacketType::PingReq),
        (0xdf, PacketType::PingResp),
        (0xff, PacketType::Auth),
    ];
    for (val, expected) in cases {
        assert_eq!(expected, PacketType::from(val), "expected {:?}", expected);
    }
}

#[test]
fn test_encode_var_int() {
    let test = 128_u32;
    let mut encoded: BytesMut = BytesMut::with_capacity(6);
    encode_variable_len_integer(test, &mut encoded).unwrap();
    assert_eq!(0x80, encoded[0]);
    assert_eq!(0x01, encoded[1]);
    let test = 777;
    let mut encoded: BytesMut = BytesMut::with_capacity(6);
    encode_variable_len_integer(test, &mut encoded).unwrap();
    assert_eq!(0x89, encoded[0]);
    assert_eq!(0x06, encoded[1]);
}

#[test]
fn test_decode_var_int() {
    let mut encoded: BytesMut = BytesMut::with_capacity(6);
    encoded.put_u8(0x80);
    encoded.put_u8(0x01);
    let val = decode_variable_len_integer(&mut encoded);
    assert_eq!(128, val);
    encoded.clear();
    encoded.put_u8(0x89);
    encoded.put_u8(0x06);
    let val = decode_variable_len_integer(&mut encoded);
    assert_eq!(777, val);
}

#[test]
fn var_int_bounds() {
    for (v, len) in [(0u32, 1u32), (127, 1), (128, 2), (16383, 2), (16384, 3), (2097151, 3), (2097152, 4), (268435455, 4)] {
        let mut b = BytesMut::new();
        encode_variable_len_integer(v, &mut b).unwrap();
        assert_eq!(len as usize, b.len());
        assert_eq!(len, variable_byte_int_size(v));
        assert_eq!(v, decode_variable_len_integer(&mut b));
        assert_eq!(0, b.len());
    }
    let mut b = BytesMut::new();
    encode_variable_len_integer(268435455, &mut b).unwrap();
    assert_eq!(&[0xff, 0xff, 0xff, 0x7f][..], &b[..]);
    let mut b = BytesMut::new();
    assert!(encode_variable_len_integer(268435456, &mut b).is_err());
    assert_eq!(0, b.len());
}

#[test]
fn reason_codes() {
    assert_eq!(0x00, Reason::Success.code());
    assert_eq!(0x04, Reason::DisconnectWillMsg.code());
    assert_eq!(0x18, Reason::ContinueAuth.code());
    assert_eq!(0xa2, Reason::WildcardSubUnsupported.code());
    assert_eq!(Reason::NoSubscriptionExisted, Reason::try_from(0x11).unwrap());
    assert_eq!(Reason::Banned, Reason::try_from(0x8a).unwrap());
    assert!(Reason::try_from(0x03).is_err());
    assert!(Reason::try_from(0x12).is_err());
    assert!(Reason::try_from(0xa3).is_err());
    assert_eq!(Reason::Success, Reason::NormalDisconnect);
    assert_eq!(QoSLevel::ExactlyOnce, QoSLevel::try_from(2).unwrap());
    assert!(QoSLevel::try_from(3).is_err());
}

fn props() -> Vec<Property> {
    vec![
        Property::new(PropertyType::SessionExpiryInterval, PropertyValue::FourByte(3600)),
        Property::new(PropertyType::ContentType, PropertyValue::Utf8("text/plain".to_string())),
        Property::new(PropertyType::UserProperty, PropertyValue::Pair("k".to_string(), "v1".to_string())),
        Property::new(PropertyType::UserProperty, PropertyValue::Pair("k".to_string(), "v2".to_string())),
        Property::new(PropertyType::SubscriptionIdentifier, PropertyValue::VarInt(200000)),
        Property::new(PropertyType::CorrelationData, PropertyValue::Binary(vec![1, 2, 3])),
        Property::new(PropertyType::RecvMax, PropertyValue::TwoByte(10)),
        Property::new(PropertyType::MaxQoS, PropertyValue::Byte(1)),
    ]
}

fn round_trip(p: Packet) {
    let bytes = encode_packet(&p).unwrap();
    let mut tail = bytes.clone();
    tail.extend_from_slice(&[0xc0, 0x00]);
    match decode_packet(&tail).unwrap() {
        Some((q, n)) => {
            assert_eq!(p, q);
            assert_eq!(bytes.len(), n);
        }
        None => panic!("frame not complete"),
    }
    let mut buf = BytesMut::new();
    encode(p.clone(), &mut buf).unwrap();
    assert_eq!(&bytes[..], &buf[..]);
    assert_eq!(Some(p), decode(&mut buf).unwrap());
    assert_eq!(0, buf.len());
}

fn publish(qos: QoSLevel, id: Option<u16>, payload: Vec<u8>) -> Publish {
    Publish {
        dup: false,
        qos,
        retain: false,
        topic_name: "a/b".to_string(),
        packet_id: id,
        properties: Vec::new(),
        payload,
    }
}

#[test]
fn round_trip_every_kind() {
    round_trip(Packet::PingRequest);
    round_trip(Packet::PingResponse);
    round_trip(Packet::Connect(Connect {
        client_id: "client-1".to_string(),
        clean_start: true,
        keep_alive: 30,
        properties: props(),
        username: Some("user".to_string()),
        password: Some(vec![0, 1, 2]),
    }));
    round_trip(Packet::Connect(Connect {
        client_id: String::new(),
        clean_start: false,
        keep_alive: 0,
        properties: Vec::new(),
        username: None,
        password: None,
    }));
    round_trip(Packet::ConnAck(ConnAck { session_present: true, reason: Reason::Success, properties: props() }));
    round_trip(Packet::Publish(publish(QoSLevel::AtMostOnce, None, Vec::new())));
    let mut p = publish(QoSLevel::AtLeastOnce, Some(7), vec![9; 300]);
    p.dup = true;
    p.retain = true;
    p.properties = props();
    round_trip(Packet::Publish(p));
    round_trip(Packet::Publish(publish(QoSLevel::ExactlyOnce, Some(65535), vec![1])));
    round_trip(Packet::PubAck(PubResp { packet_id: 3, reason: Reason::NoSubscribers, properties: Vec::new() }));
    round_trip(Packet::Disconnect(Disconnect { reason: Reason::ServerShutdown, properties: props() }));
    round_trip(Packet::Subscribe(Subscribe {
        packet_id: 11,
        properties: Vec::new(),
        subscriptions: vec![
            Subscription { filter: "a/#".to_string(), qos: QoSLevel::AtLeastOnce, no_local: true, retain_as: false, retain_handling: 2 },
            Subscription { filter: "b/+".to_string(), qos: QoSLevel::AtMostOnce, no_local: false, retain_as: true, retain_handling: 0 },
        ],
    }));
}

#[test]
fn round_trip_longest_string() {
    let mut p = publish(QoSLevel::AtMostOnce, None, Vec::new());
    p.topic_name = "t".repeat(65535);
    round_trip(Packet::Publish(p));
    let mut p = publish(QoSLevel::AtMostOnce, None, Vec::new());
    p.topic_name = "t".repeat(65536);
    assert!(encode_packet(&Packet::Publish(p)).is_err());
}

#[test]
fn short_forms_decode() {
    // PUBACK with only a packet identifier: success, no properties.
    let (p, n) = decode_packet(&[0x40, 0x02, 0x00, 0x05]).unwrap().unwrap();
    assert_eq!(Packet::PubAck(PubResp { packet_id: 5, reason: Reason::Success, properties: Vec::new() }), p);
    assert_eq!(4, n);
    // DISCONNECT with no body: normal disconnection.
    let (p, _) = decode_packet(&[0xe0, 0x00]).unwrap().unwrap();
    assert_eq!(Packet::Disconnect(Disconnect { reason: Reason::NormalDisconnect, properties: Vec::new() }), p);
}

#[test]
fn encode_rejects_bad_packets() {
    assert!(encode_packet(&Packet::Publish(publish(QoSLevel::AtLeastOnce, None, Vec::new()))).is_err());
    assert!(encode_packet(&Packet::Publish(publish(QoSLevel::AtMostOnce, Some(1), Vec::new()))).is_err());
    let dup = vec![
        Property::new(PropertyType::ContentType, PropertyValue::Utf8("a".to_string())),
        Property::new(PropertyType::ContentType, PropertyValue::Utf8("b".to_string())),
    ];
    assert!(encode_packet(&Packet::Disconnect(Disconnect { reason: Reason::Success, properties: dup })).is_err());
    let wrong_kind = vec![Property::new(PropertyType::ContentType, PropertyValue::Byte(1))];
    assert!(encode_packet(&Packet::Disconnect(Disconnect { reason: Reason::Success, properties: wrong_kind })).is_err());
    let mut buf = BytesMut::new();
    assert!(encode(Packet::Publish(publish(QoSLevel::AtLeastOnce, None, Vec::new())), &mut buf).is_err());
    assert_eq!(0, buf.len());
}

#[test]
fn reserved_flags_rejected() {
    // CONNECT, SUBSCRIBE and PINGREQ frames with a flag bit set.
    let connect = encode_packet(&Packet::Connect(Connect {
        client_id: "c".to_string(),
        clean_start: true,
        keep_alive: 0,
        properties: Vec::new(),
        username: None,
        password: None,
    }))
    .unwrap();
    let mut bad = connect.clone();
    bad[0] |= 0x01;
    assert!(decode_packet(&bad).is_err());
    let mut buf = BytesMut::new();
    buf.extend_from_slice(&bad);
    assert!(decode_fixed_header(&mut buf).is_err());
    assert_eq!(bad.len(), buf.len());
    assert!(decode_packet(&[0x82, 0x00]).is_err());
    assert!(decode_packet(&[0xc1, 0x00]).is_err());
    assert!(decode_packet(&[0xc0, 0x00]).unwrap().is_some());
}

#[test]
fn publish_flags_accepted() {
    for flags in 0u8..16 {
        let mut buf = BytesMut::new();
        buf.extend_from_slice(&[0x30 | flags, 0x00]);
        let h = decode_fixed_header(&mut buf).unwrap().unwrap();
        assert_eq!(PacketType::Publish, h.packet_type);
        assert_eq!(flags, h.flags);
        assert_eq!(0, h.remaining);
        assert_eq!(0, buf.len());
    }
    // QoS 1 with dup and retain.
    let frame = [0x3b, 0x07, 0x00, 0x01, b't', 0x00, 0x09, 0x00, 0xaa];
    let (p, n) = decode_packet(&frame).unwrap().unwrap();
    assert_eq!(9, n);
    match p {
        Packet::Publish(x) => {
            assert!(x.dup && x.retain);
            assert_eq!(QoSLevel::AtLeastOnce, x.qos);
            assert_eq!(Some(9), x.packet_id);
            assert_eq!(vec![0xaa], x.payload);
        }
        _ => panic!("expected a publish"),
    }
}

#[test]
fn partial_frames_need_more() {
    let mut p = publish(QoSLevel::AtLeastOnce, Some(42), vec![5; 200]);
    p.properties = props();
    let bytes = encode_packet(&Packet::Publish(p.clone())).unwrap();
    let mut buf = BytesMut::new();
    for (i, b) in bytes.iter().enumerate() {
        if i + 1 < bytes.len() {
            buf.put_u8(*b);
            assert!(decode(&mut buf).unwrap().is_none());
            assert_eq!(i + 1, buf.len());
        } else {
            buf.put_u8(*b);
            assert_eq!(Some(Packet::Publish(p.clone())), decode(&mut buf).unwrap());
        }
    }
    assert_eq!(0, buf.len());
}

#[test]
fn malformed_frames_rejected() {
    // Five-byte remaining length.
    assert!(decode_packet(&[0x30, 0xff, 0xff, 0xff, 0xff, 0x01]).is_err());
    // Invalid UTF-8 in a topic name.
    assert!(decode_packet(&[0x30, 0x04, 0x00, 0x02, 0xff, 0xfe]).is_err());
    // QoS 3.
    assert!(decode_packet(&[0x36, 0x05, 0x00, 0x01, b't', 0x00, 0x01]).is_err());
    // Repeated single-valued property in a DISCONNECT.
    assert!(decode_packet(&[0xe0, 0x0c, 0x00, 0x0a, 0x11, 0, 0, 0, 1, 0x11, 0, 0, 0, 2]).is_err());
    // Unsupported packet type.
    assert!(decode_packet(&[0xf0, 0x00]).is_err());
    assert!(decode_packet(&[]).unwrap().is_none());
}

#[test]
fn utf8_decoded_by_characters() {
    let mut p = publish(QoSLevel::AtMostOnce, None, Vec::new());
    p.topic_name = "é/ü".to_string();
    let bytes = encode_packet(&Packet::Publish(p.clone())).unwrap();
    assert_eq!(0x00, bytes[2]);
    assert_eq!(5, bytes[3]);
    round_trip(Packet::Publish(p));
}

#[test]
fn check_property_rejects_repeat() {
    let mut seen = Vec::new();
    assert!(check_property(PropertyType::ContentType, &mut seen).is_ok());
    assert!(check_property(PropertyType::RecvMax, &mut seen).is_ok());
    assert!(check_property(PropertyType::ContentType, &mut seen).is_err());
    assert_eq!(vec![PropertyType::ContentType, PropertyType::RecvMax], seen);
}

#[test]
fn packet_sizes() {
    let p = Packet::PingRequest;
    assert_eq!(2, p.size());
    assert_eq!(0, p.property_size());
    assert_eq!(0, p.payload_size());
    let mut x = publish(QoSLevel::AtLeastOnce, Some(1), vec![1, 2, 3]);
    x.properties = vec![Property::new(PropertyType::SessionExpiryInterval, PropertyValue::FourByte(1))];
    let pk = Packet::Publish(x);
    // topic 2 + 3, identifier 2, property block 1 + 5, payload 3; header 2
    assert_eq!(18, pk.size());
    assert_eq!(5, pk.property_size());
    assert_eq!(3, pk.payload_size());
    assert_eq!(18, encode_packet(&pk).unwrap().len());
    let s = Packet::Subscribe(Subscribe {
        packet_id: 1,
        properties: Vec::new(),
        subscriptions: vec![Subscription { filter: "x".to_string(), qos: QoSLevel::AtMostOnce, no_local: false, retain_as: false, retain_handling: 0 }],
    });
    assert_eq!(4, s.payload_size());
}
