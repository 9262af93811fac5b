//! What decoding a frame means: the readers of each packet body, the frame
//! reader that tells an incomplete frame from an invalid one, and the laws
//! that tie them to the layouts of `packet`.

use crate::codec::{
    lemma_reason_code_injective, lemma_var_int_len, lemma_var_int_round_trip, packet_type_of,
    qos_code, reason_code, spec_read_var_int, var_int_bytes, var_int_len, PacketType, QoSLevel,
    Reason, VarIntRead,
};
use crate::packet::{
    body_bytes, bool_byte, connack_body, connect_body, connect_flags, connect_preamble,
    disconnect_body, fields_wf, first_byte, opt_binary_bytes, opt_utf8_bytes, packet_wf,
    puback_body, publish_body, subs_bytes, subscribe_body, subscription_bytes,
    subscription_options, subscription_wf, ConnAckModel, ConnectModel, DisconnectModel,
    PacketModel, PubRespModel, PublishModel, SubscribeModel, SubscriptionModel,
};
use crate::property::{
    lemma_properties_round_trip, props_block, props_wf, spec_take_properties, PropertyModel,
};
use crate::wire::{
    binary_field, lemma_binary_round_trip, lemma_u16_round_trip, lemma_u8_round_trip,
    lemma_utf8_round_trip, rest_of, spec_take_binary, spec_take_u16, spec_take_u8,
    spec_take_utf8, u16_bytes, utf8_field,
};
use vstd::prelude::*;

verus! {

/// The reason whose code is `b`, if any.
pub open spec fn spec_reason_of(b: u8) -> Option<Reason> {
    if exists|r: Reason| reason_code(r) == b {
        Some(choose|r: Reason| reason_code(r) == b)
    } else {
        None
    }
}

pub open spec fn spec_qos_of(n: u8) -> QoSLevel {
    if n == 0 {
        QoSLevel::AtMostOnce
    } else if n == 1 {
        QoSLevel::AtLeastOnce
    } else {
        QoSLevel::ExactlyOnce
    }
}

pub proof fn lemma_reason_of_code(r: Reason)
    ensures
        spec_reason_of(reason_code(r)) == Some(r),
{
    let b = reason_code(r);
    assert(exists|x: Reason| reason_code(x) == b);
    let c = choose|x: Reason| reason_code(x) == b;
    lemma_reason_code_injective(c, r);
}

pub open spec fn spec_opt_utf8(flag: bool, s: Seq<u8>) -> Option<(Option<Seq<char>>, Seq<u8>)> {
    if !flag {
        Some((None, s))
    } else {
        match spec_take_utf8(s) {
            Some((c, r)) => Some((Some(c), r)),
            None => None,
        }
    }
}

pub open spec fn spec_opt_binary(flag: bool, s: Seq<u8>) -> Option<(Option<Seq<u8>>, Seq<u8>)> {
    if !flag {
        Some((None, s))
    } else {
        match spec_take_binary(s) {
            Some((b, r)) => Some((Some(b), r)),
            None => None,
        }
    }
}

/// Connect flags: bit 0 is reserved and the will bits (2 to 5) are not supported.
pub open spec fn connect_flags_ok(f: u8) -> bool {
    f % 2 == 0 && (f / 4) % 16 == 0
}

pub open spec fn has_preamble(s: Seq<u8>) -> bool {
    s.len() >= 7 && s[0] == 0 && s[1] == 4 && s[2] == 77 && s[3] == 81 && s[4] == 84 && s[5] == 84
        && s[6] == 5
}

pub open spec fn spec_connect_body(s: Seq<u8>) -> Option<ConnectModel> {
    if !has_preamble(s) {
        None
    } else {
        match spec_take_u8(rest_of(s, 7)) {
            Some((f, r1)) => if !connect_flags_ok(f) {
                None
            } else {
                match spec_take_u16(r1) {
                    Some((ka, r2)) => match spec_take_properties(r2) {
                        Some((ps, r3)) => match spec_take_utf8(r3) {
                            Some((id, r4)) => match spec_opt_utf8(f >= 128, r4) {
                                Some((u, r5)) => match spec_opt_binary((f / 64) % 2 == 1, r5) {
                                    Some((pw, r6)) => if r6.len() == 0 {
                                        Some(
                                            ConnectModel {
                                                client_id: id,
                                                clean_start: (f / 2) % 2 == 1,
                                                keep_alive: ka,
                                                properties: ps,
                                                username: u,
                                                password: pw,
                                            },
                                        )
                                    } else {
                                        None
                                    },
                                    None => None,
                                },
                                None => None,
                            },
                            None => None,
                        },
                        None => None,
                    },
                    None => None,
                }
            },
            None => None,
        }
    }
}

pub open spec fn spec_connack_body(s: Seq<u8>) -> Option<ConnAckModel> {
    match spec_take_u8(s) {
        Some((sp, r1)) => if sp > 1 {
            None
        } else {
            match spec_take_u8(r1) {
                Some((rc, r2)) => match spec_reason_of(rc) {
                    Some(reason) => match spec_take_properties(r2) {
                        Some((ps, r3)) => if r3.len() == 0 {
                            Some(ConnAckModel { session_present: sp == 1, reason, properties: ps })
                        } else {
                            None
                        },
                        None => None,
                    },
                    None => None,
                },
                None => None,
            }
        },
        None => None,
    }
}

pub open spec fn spec_publish_body(flags: u8, s: Seq<u8>) -> Option<PublishModel> {
    let q = (flags / 2) % 4;
    if q > 2 {
        None
    } else {
        match spec_take_utf8(s) {
            Some((topic, r1)) => {
                let id_part: Option<(Option<u16>, Seq<u8>)> = if q == 0 {
                    Some((None, r1))
                } else {
                    match spec_take_u16(r1) {
                        Some((id, r)) => Some((Some(id), r)),
                        None => None,
                    }
                };
                match id_part {
                    Some((id, r2)) => match spec_take_properties(r2) {
                        Some((ps, r3)) => Some(
                            PublishModel {
                                dup: (flags / 8) % 2 == 1,
                                qos: spec_qos_of(q),
                                retain: flags % 2 == 1,
                                topic_name: topic,
                                packet_id: id,
                                properties: ps,
                                payload: r3,
                            },
                        ),
                        None => None,
                    },
                    None => None,
                }
            },
            None => None,
        }
    }
}

/// The reason and properties that end an acknowledgement or a disconnect: both
/// may be left out, meaning success and no properties.
pub open spec fn spec_reason_tail(s: Seq<u8>) -> Option<(Reason, Seq<PropertyModel>)> {
    if s.len() == 0 {
        Some((Reason::Success, Seq::empty()))
    } else {
        match spec_reason_of(s[0]) {
            Some(reason) => if s.len() == 1 {
                Some((reason, Seq::empty()))
            } else {
                match spec_take_properties(rest_of(s, 1)) {
                    Some((ps, r)) => if r.len() == 0 {
                        Some((reason, ps))
                    } else {
                        None
                    },
                    None => None,
                }
            },
            None => None,
        }
    }
}

pub open spec fn spec_puback_body(s: Seq<u8>) -> Option<PubRespModel> {
    match spec_take_u16(s) {
        Some((id, r)) => match spec_reason_tail(r) {
            Some((reason, ps)) => Some(PubRespModel { packet_id: id, reason, properties: ps }),
            None => None,
        },
        None => None,
    }
}

pub open spec fn spec_disconnect_body(s: Seq<u8>) -> Option<DisconnectModel> {
    match spec_reason_tail(s) {
        Some((reason, ps)) => Some(DisconnectModel { reason, properties: ps }),
        None => None,
    }
}

/// Subscription options: QoS in bits 0-1, no-local bit 2, retain-as-published
/// bit 3, retain handling in bits 4-5; bits 6-7 are reserved.
pub open spec fn options_ok(o: u8) -> bool {
    o < 64 && o % 4 <= 2 && o / 16 <= 2
}

pub open spec fn spec_take_subscription(s: Seq<u8>) -> Option<(SubscriptionModel, Seq<u8>)> {
    match spec_take_utf8(s) {
        Some((f, r)) => match spec_take_u8(r) {
            Some((o, r2)) => if options_ok(o) {
                Some(
                    (
                        SubscriptionModel {
                            filter: f,
                            qos: spec_qos_of(o % 4),
                            no_local: (o / 4) % 2 == 1,
                            retain_as: (o / 8) % 2 == 1,
                            retain_handling: o / 16,
                        },
                        r2,
                    ),
                )
            } else {
                None
            },
            None => None,
        },
        None => None,
    }
}

/// Reads subscriptions until the bytes are used up.
pub open spec fn spec_take_subs(s: Seq<u8>) -> Option<Seq<SubscriptionModel>>
    decreases s.len(),
{
    if s.len() == 0 {
        Some(Seq::empty())
    } else {
        match spec_take_subscription(s) {
            Some((x, r)) => if r.len() < s.len() {
                match spec_take_subs(r) {
                    Some(l) => Some(seq![x] + l),
                    None => None,
                }
            } else {
                None
            },
            None => None,
        }
    }
}

pub open spec fn spec_subscribe_body(s: Seq<u8>) -> Option<SubscribeModel> {
    match spec_take_u16(s) {
        Some((id, r1)) => match spec_take_properties(r1) {
            Some((ps, r2)) => match spec_take_subs(r2) {
                Some(subs) => Some(SubscribeModel { packet_id: id, properties: ps, subscriptions: subs }),
                None => None,
            },
            None => None,
        },
        None => None,
    }
}

/// Reads the body of a packet of type `t` whose first byte carried `flags`.
#[verifier::opaque]
pub open spec fn spec_decode_body(t: PacketType, flags: u8, s: Seq<u8>) -> Option<PacketModel> {
    match t {
        PacketType::PingReq => if s.len() == 0 {
            Some(PacketModel::PingRequest)
        } else {
            None
        },
        PacketType::PingResp => if s.len() == 0 {
            Some(PacketModel::PingResponse)
        } else {
            None
        },
        PacketType::Connect => match spec_connect_body(s) {
            Some(c) => Some(PacketModel::Connect(c)),
            None => None,
        },
        PacketType::ConnAck => match spec_connack_body(s) {
            Some(c) => Some(PacketModel::ConnAck(c)),
            None => None,
        },
        PacketType::Publish => match spec_publish_body(flags, s) {
            Some(p) => Some(PacketModel::Publish(p)),
            None => None,
        },
        PacketType::PubAck => match spec_puback_body(s) {
            Some(a) => Some(PacketModel::PubAck(a)),
            None => None,
        },
        PacketType::Disconnect => match spec_disconnect_body(s) {
            Some(d) => Some(PacketModel::Disconnect(d)),
            None => None,
        },
        PacketType::Subscribe => match spec_subscribe_body(s) {
            Some(x) => Some(PacketModel::Subscribe(x)),
            None => None,
        },
        _ => None,
    }
}

/// Publish carries meaning in its flags; every other type must leave them zero.
pub open spec fn flags_ok(t: PacketType, flags: u8) -> bool {
    t == PacketType::Publish || flags == 0
}

/// What decoding the bytes buffered so far gives.
pub enum Decoded {
    /// A packet and the number of bytes its frame took.
    Frame(PacketModel, nat),
    /// The bytes end before the frame does.
    NeedMore,
    /// The frame is malformed.
    Invalid,
}

/// Decodes the frame at the front of `s`.
pub open spec fn spec_decode(s: Seq<u8>) -> Decoded {
    if s.len() < 1 {
        Decoded::NeedMore
    } else {
        match spec_read_var_int(rest_of(s, 1)) {
            VarIntRead::Incomplete => Decoded::NeedMore,
            VarIntRead::Malformed => Decoded::Invalid,
            VarIntRead::Value(n, k) => {
                let total = 1 + k + n;
                if s.len() < total {
                    Decoded::NeedMore
                } else if !flags_ok(packet_type_of(s[0]), s[0] % 16) {
                    Decoded::Invalid
                } else {
                    match spec_decode_body(
                        packet_type_of(s[0]),
                        s[0] % 16,
                        s.subrange(1 + k as int, total as int),
                    ) {
                        Some(p) => Decoded::Frame(p, total as nat),
                        None => Decoded::Invalid,
                    }
                }
            },
        }
    }
}

/// The frame of a packet: first byte, length of the body, body.
pub open spec fn packet_bytes(p: PacketModel) -> Seq<u8> {
    seq![first_byte(p)] + var_int_bytes(body_bytes(p).len()) + body_bytes(p)
}

// ---------------------------------------------------------------------------
// Laws
// ---------------------------------------------------------------------------

proof fn lemma_connect_flags(c: ConnectModel)
    ensures
        connect_flags_ok(connect_flags(c)),
        (connect_flags(c) >= 128) == c.username is Some,
        ((connect_flags(c) / 64) % 2 == 1) == c.password is Some,
        ((connect_flags(c) / 2) % 2 == 1) == c.clean_start,
{
}

#[verifier::spinoff_prover]
#[verifier::rlimit(100)]
proof fn lemma_connect_round_trip(c: ConnectModel)
    requires
        fields_wf(PacketModel::Connect(c)),
    ensures
        spec_connect_body(connect_body(c)) == Some(c),
{
    let f = connect_flags(c);
    let tail6 = opt_binary_bytes(c.password);
    let tail5 = opt_utf8_bytes(c.username) + tail6;
    let tail4 = utf8_field(c.client_id) + tail5;
    let tail3 = props_block(c.properties) + tail4;
    let tail2 = u16_bytes(c.keep_alive) + tail3;
    let tail1 = seq![f] + tail2;
    let s = connect_body(c);
    assert(s =~= connect_preamble() + tail1);
    assert(has_preamble(s));
    assert(rest_of(s, 7) =~= tail1);
    lemma_u8_round_trip(f, tail2);
    lemma_connect_flags(c);
    assert(spec_take_u8(rest_of(s, 7)) == Some((f, tail2)));
    lemma_u16_round_trip(c.keep_alive, tail3);
    lemma_properties_round_trip(c.properties, tail4);
    lemma_utf8_round_trip(c.client_id, tail5);
    match c.username {
        Some(u) => lemma_utf8_round_trip(u, tail6),
        None => assert(tail5 =~= tail6),
    }
    assert(spec_opt_utf8(f >= 128, tail5) == Some((c.username, tail6)));
    match c.password {
        Some(p) => {
            assert(binary_field(p) + Seq::<u8>::empty() =~= binary_field(p));
            lemma_binary_round_trip(p, Seq::<u8>::empty());
        },
        None => {},
    }
    assert(spec_opt_binary((f / 64) % 2 == 1, tail6) == Some((c.password, Seq::<u8>::empty())));
}

proof fn lemma_props_tail(ps: Seq<PropertyModel>)
    requires
        props_wf(ps),
    ensures
        spec_take_properties(props_block(ps)) == Some((ps, Seq::<u8>::empty())),
{
    assert(props_block(ps) + Seq::<u8>::empty() =~= props_block(ps));
    lemma_properties_round_trip(ps, Seq::<u8>::empty());
}

proof fn lemma_connack_round_trip(c: ConnAckModel)
    requires
        fields_wf(PacketModel::ConnAck(c)),
    ensures
        spec_connack_body(connack_body(c)) == Some(c),
{
    let pb = props_block(c.properties);
    let s = connack_body(c);
    assert(s =~= seq![bool_byte(c.session_present)] + (seq![reason_code(c.reason)] + pb));
    lemma_u8_round_trip(bool_byte(c.session_present), seq![reason_code(c.reason)] + pb);
    lemma_u8_round_trip(reason_code(c.reason), pb);
    lemma_reason_of_code(c.reason);
    lemma_props_tail(c.properties);
}

proof fn lemma_publish_flags(x: PublishModel)
    ensures
        ({
            let flags = first_byte(PacketModel::Publish(x)) % 16;
            &&& (flags / 2) % 4 == qos_code(x.qos)
            &&& ((flags / 8) % 2 == 1) == x.dup
            &&& (flags % 2 == 1) == x.retain
            &&& packet_type_of(first_byte(PacketModel::Publish(x))) == PacketType::Publish
        }),
{
}

#[verifier::spinoff_prover]
#[verifier::rlimit(40)]
proof fn lemma_publish_round_trip(x: PublishModel)
    requires
        fields_wf(PacketModel::Publish(x)),
    ensures
        spec_publish_body(first_byte(PacketModel::Publish(x)) % 16, publish_body(x)) == Some(x),
{
    let flags = first_byte(PacketModel::Publish(x)) % 16;
    let q = (flags / 2) % 4;
    lemma_publish_flags(x);
    assert(spec_qos_of(q) == x.qos);
    let tail2 = props_block(x.properties) + x.payload;
    let idb: Seq<u8> = match x.packet_id {
        Some(id) => u16_bytes(id),
        None => Seq::empty(),
    };
    let tail1 = idb + tail2;
    assert(publish_body(x) =~= utf8_field(x.topic_name) + tail1);
    lemma_utf8_round_trip(x.topic_name, tail1);
    match x.packet_id {
        Some(id) => lemma_u16_round_trip(id, tail2),
        None => assert(tail1 =~= tail2),
    }
    lemma_properties_round_trip(x.properties, x.payload);
}

proof fn lemma_reason_tail_round_trip(reason: Reason, ps: Seq<PropertyModel>)
    requires
        props_wf(ps),
    ensures
        spec_reason_tail(seq![reason_code(reason)] + props_block(ps)) == Some((reason, ps)),
{
    let s = seq![reason_code(reason)] + props_block(ps);
    lemma_reason_of_code(reason);
    lemma_var_int_len(crate::property::props_bytes(ps).len());
    assert(rest_of(s, 1) =~= props_block(ps));
    lemma_props_tail(ps);
}

proof fn lemma_puback_round_trip(a: PubRespModel)
    requires
        fields_wf(PacketModel::PubAck(a)),
    ensures
        spec_puback_body(puback_body(a)) == Some(a),
{
    let t = seq![reason_code(a.reason)] + props_block(a.properties);
    assert(puback_body(a) =~= u16_bytes(a.packet_id) + t);
    lemma_u16_round_trip(a.packet_id, t);
    lemma_reason_tail_round_trip(a.reason, a.properties);
}

proof fn lemma_disconnect_round_trip(d: DisconnectModel)
    requires
        fields_wf(PacketModel::Disconnect(d)),
    ensures
        spec_disconnect_body(disconnect_body(d)) == Some(d),
{
    lemma_reason_tail_round_trip(d.reason, d.properties);
}

proof fn lemma_subscription_round_trip(x: SubscriptionModel, rest: Seq<u8>)
    requires
        subscription_wf(x),
    ensures
        spec_take_subscription(subscription_bytes(x) + rest) == Some((x, rest)),
{
    let o = subscription_options(x);
    assert(subscription_bytes(x) + rest =~= utf8_field(x.filter) + (seq![o] + rest));
    lemma_utf8_round_trip(x.filter, seq![o] + rest);
    lemma_u8_round_trip(o, rest);
    assert(o % 4 == qos_code(x.qos));
    assert(spec_qos_of(o % 4) == x.qos);
}

proof fn lemma_subs_round_trip(ss: Seq<SubscriptionModel>)
    requires
        forall|i: int| 0 <= i < ss.len() ==> subscription_wf(#[trigger] ss[i]),
    ensures
        spec_take_subs(subs_bytes(ss)) == Some(ss),
    decreases ss.len(),
{
    if ss.len() > 0 {
        let tail = ss.subrange(1, ss.len() as int);
        assert(forall|i: int| 0 <= i < tail.len() ==> tail[i] == ss[i + 1]);
        lemma_subs_round_trip(tail);
        lemma_subscription_round_trip(ss[0], subs_bytes(tail));
        assert(seq![ss[0]] + tail =~= ss);
    } else {
        assert(subs_bytes(ss) =~= Seq::<u8>::empty());
    }
}

proof fn lemma_subscribe_round_trip(x: SubscribeModel)
    requires
        fields_wf(PacketModel::Subscribe(x)),
    ensures
        spec_subscribe_body(subscribe_body(x)) == Some(x),
{
    let t2 = subs_bytes(x.subscriptions);
    let t1 = props_block(x.properties) + t2;
    assert(subscribe_body(x) =~= u16_bytes(x.packet_id) + t1);
    lemma_u16_round_trip(x.packet_id, t1);
    lemma_properties_round_trip(x.properties, t2);
    lemma_subs_round_trip(x.subscriptions);
}

#[verifier::spinoff_prover]
#[verifier::rlimit(40)]
proof fn lemma_body_round_trip(p: PacketModel)
    requires
        fields_wf(p),
    ensures
        flags_ok(packet_type_of(first_byte(p)), first_byte(p) % 16),
        spec_decode_body(packet_type_of(first_byte(p)), first_byte(p) % 16, body_bytes(p)) == Some(
            p,
        ),
{
    reveal(spec_decode_body);
    reveal(body_bytes);
    match p {
        PacketModel::PingRequest => assert(packet_type_of(0xc0) == PacketType::PingReq),
        PacketModel::PingResponse => assert(packet_type_of(0xd0) == PacketType::PingResp),
        PacketModel::Connect(c) => {
            assert(packet_type_of(0x10) == PacketType::Connect);
            lemma_connect_round_trip(c);
        },
        PacketModel::ConnAck(c) => {
            assert(packet_type_of(0x20) == PacketType::ConnAck);
            lemma_connack_round_trip(c);
        },
        PacketModel::Publish(x) => {
            lemma_publish_flags(x);
            lemma_publish_round_trip(x);
        },
        PacketModel::Disconnect(d) => {
            assert(packet_type_of(0xe0) == PacketType::Disconnect);
            lemma_disconnect_round_trip(d);
        },
        PacketModel::Subscribe(s) => {
            assert(packet_type_of(0x80) == PacketType::Subscribe);
            lemma_subscribe_round_trip(s);
        },
        PacketModel::PubAck(a) => {
            assert(packet_type_of(0x40) == PacketType::PubAck);
            lemma_puback_round_trip(a);
        },
    }
}

/// Decoding the frame of a packet that `encode` accepts gives that packet back
/// and consumes exactly its frame, whatever bytes follow it.
#[verifier::spinoff_prover]
#[verifier::rlimit(40)]
pub proof fn lemma_round_trip(p: PacketModel, rest: Seq<u8>)
    requires
        packet_wf(p),
    ensures
        spec_decode(packet_bytes(p) + rest) == Decoded::Frame(p, packet_bytes(p).len()),
{
    let body = body_bytes(p);
    let n = body.len();
    let s = packet_bytes(p) + rest;
    lemma_var_int_round_trip(n, body + rest);
    lemma_var_int_len(n);
    assert(rest_of(s, 1) =~= var_int_bytes(n) + (body + rest));
    let k = var_int_len(n);
    assert(s.subrange(1 + k as int, (1 + k + n) as int) =~= body);
    assert(s[0] == first_byte(p));
    assert(spec_read_var_int(rest_of(s, 1)) == VarIntRead::Value(n as u32, k as usize));
    lemma_body_round_trip(p);
}

/// Reading a variable byte integer looks only at its own bytes: a prefix of
/// the bytes gives the same value if it holds all of them, else incomplete.
proof fn lemma_read_var_int_prefix(a: Seq<u8>, u: Seq<u8>, v: u32, m: usize)
    requires
        spec_read_var_int(a) == VarIntRead::Value(v, m),
        u.len() <= a.len(),
        forall|i: int| 0 <= i < u.len() ==> u[i] == a[i],
    ensures
        u.len() < m ==> spec_read_var_int(u) == VarIntRead::Incomplete,
        u.len() >= m ==> spec_read_var_int(u) == VarIntRead::Value(v, m),
{
}

/// A frame fed in pieces: every strict prefix of a complete frame reads as
/// incomplete, and any bytes that begin with the whole frame decode to the
/// same packet and length.
pub proof fn lemma_partial_frames(s: Seq<u8>, t: Seq<u8>)
    requires
        spec_decode(s) is Frame,
    ensures
        forall|k: int|
            0 <= k < spec_decode(s)->Frame_1 ==> #[trigger] spec_decode(s.subrange(0, k))
                is NeedMore,
        t.len() >= spec_decode(s)->Frame_1 && t.subrange(0, spec_decode(s)->Frame_1 as int)
            == s.subrange(0, spec_decode(s)->Frame_1 as int) ==> spec_decode(t) == spec_decode(s),
{
    let n = spec_decode(s)->Frame_1;
    let a = rest_of(s, 1);
    let (v, m) = match spec_read_var_int(a) {
        VarIntRead::Value(v, m) => (v, m),
        _ => (0u32, 0usize),
    };
    assert forall|k: int| 0 <= k < n implies #[trigger] spec_decode(s.subrange(0, k)) is NeedMore by {
        let p = s.subrange(0, k);
        if k >= 1 {
            let u = rest_of(p, 1);
            assert(forall|i: int| 0 <= i < u.len() ==> u[i] == a[i]);
            lemma_read_var_int_prefix(a, u, v, m);
        }
    }
    if t.len() >= n && t.subrange(0, n as int) == s.subrange(0, n as int) {
        assert(t[0] == t.subrange(0, n as int)[0]);
        assert(t[0] == s[0]);
        let b = rest_of(t, 1);
        let u = a.subrange(0, n - 1);
        assert(forall|i: int| 0 <= i < n - 1 ==> b[i] == t.subrange(0, n as int)[i + 1]);
        assert(forall|i: int| 0 <= i < u.len() ==> u[i] == a[i]);
        lemma_read_var_int_prefix(a, u, v, m);
        assert(forall|i: int| 0 <= i < u.len() ==> u[i] == b[i]);
        assert(spec_read_var_int(b) == VarIntRead::Value(v, m)) by {
            if spec_read_var_int(b) != VarIntRead::Value(v, m) {
                match spec_read_var_int(b) {
                    VarIntRead::Value(v2, m2) => {
                        lemma_read_var_int_prefix(b, u, v2, m2);
                    },
                    _ => {
                        assert(b.len() >= 4 || b.len() >= m);
                    },
                }
            }
        }
        assert(t.subrange(1 + m as int, n as int) =~= s.subrange(1 + m as int, n as int)) by {
            assert(forall|i: int|
                1 + m <= i < n ==> t[i] == t.subrange(0, n as int)[i] && s[i] == s.subrange(
                    0,
                    n as int,
                )[i]);
        }
    }
}

} // verus!
