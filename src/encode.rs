//! Writing packets: each body, then the frame around it.

use crate::buffer::buf_contents;
use crate::codec::{push_var_int, MQTTCodecError, QoSLevel, MAX_VAR_INT};
use crate::decode::packet_bytes;
use crate::packet::{
    body_bytes, connack_body, connect_body, disconnect_body, fields_wf, first_byte, packet_wf,
    puback_body, publish_body, subs_bytes, subscribe_body, subscription_bytes, subscription_wf, subs_view, ConnAck, Connect, Disconnect, Packet, PacketModel, PubResp,
    Publish, Subscribe, Subscription,
};
use crate::property::Property;
use crate::codec::{lemma_var_int_len, MAX_FIELD_LEN};
use crate::packet::{connect_payload, opt_fits, packet_properties, payload_bytes, SubscriptionModel};
use crate::property::{encode_properties, encode_property_list, props_bytes, props_view};
use crate::user_props::Size;
use crate::wire::fits_field;
use crate::wire::{encode_binary_data, encode_utf8_string, push_bytes, push_u16};
use bytes::BytesMut;
use vstd::prelude::*;

verus! {

fn encode_connect(c: &Connect, out: &mut Vec<u8>) -> (r: Result<(), MQTTCodecError>)
    ensures
        r is Ok <==> fields_wf(PacketModel::Connect(c@)),
        r is Ok ==> final(out)@ == old(out)@ + connect_body(c@),
{
    let ghost start = out@;
    out.push(0);
    out.push(4);
    out.push(77);
    out.push(81);
    out.push(84);
    out.push(84);
    out.push(5);
    let mut flags: u8 = 0;
    if c.username.is_some() {
        flags = flags + 128;
    }
    if c.password.is_some() {
        flags = flags + 64;
    }
    if c.clean_start {
        flags = flags + 2;
    }
    out.push(flags);
    push_u16(out, c.keep_alive);
    encode_properties(&c.properties, out)?;
    encode_connect_payload(c, out)?;
    assert(out@ =~= start + connect_body(c@));
    Ok(())
}

fn encode_connect_payload(c: &Connect, out: &mut Vec<u8>) -> (r: Result<(), MQTTCodecError>)
    ensures
        r is Ok <==> fits_field(c@.client_id) && opt_fits(c@.username) && match c@.password {
            Some(b) => b.len() <= MAX_FIELD_LEN,
            None => true,
        },
        r is Ok ==> final(out)@ == old(out)@ + connect_payload(c@),
{
    let ghost start = out@;
    encode_utf8_string(c.client_id.as_str(), out)?;
    match &c.username {
        Some(u) => {
            encode_utf8_string(u.as_str(), out)?;
        },
        None => {},
    }
    match &c.password {
        Some(p) => {
            encode_binary_data(p.as_slice(), out)?;
        },
        None => {},
    }
    assert(out@ =~= start + connect_payload(c@));
    Ok(())
}

fn encode_connack(c: &ConnAck, out: &mut Vec<u8>) -> (r: Result<(), MQTTCodecError>)
    ensures
        r is Ok <==> fields_wf(PacketModel::ConnAck(c@)),
        r is Ok ==> final(out)@ == old(out)@ + connack_body(c@),
{
    let ghost start = out@;
    out.push(if c.session_present { 1 } else { 0 });
    out.push(c.reason.code());
    encode_properties(&c.properties, out)?;
    assert(out@ =~= start + connack_body(c@));
    Ok(())
}

fn encode_publish(p: &Publish, out: &mut Vec<u8>) -> (r: Result<(), MQTTCodecError>)
    ensures
        r is Ok <==> fields_wf(PacketModel::Publish(p@)),
        r is Ok ==> final(out)@ == old(out)@ + publish_body(p@),
{
    let ghost start = out@;
    if p.packet_id.is_some() != (p.qos != QoSLevel::AtMostOnce) {
        return Err(MQTTCodecError::new("packet identifier does not match QoS level"));
    }
    encode_utf8_string(p.topic_name.as_str(), out)?;
    match p.packet_id {
        Some(id) => push_u16(out, id),
        None => {},
    }
    encode_properties(&p.properties, out)?;
    push_bytes(out, p.payload.as_slice());
    assert(out@ =~= start + publish_body(p@));
    Ok(())
}

fn encode_puback(a: &PubResp, out: &mut Vec<u8>) -> (r: Result<(), MQTTCodecError>)
    ensures
        r is Ok <==> fields_wf(PacketModel::PubAck(a@)),
        r is Ok ==> final(out)@ == old(out)@ + puback_body(a@),
{
    let ghost start = out@;
    push_u16(out, a.packet_id);
    out.push(a.reason.code());
    encode_properties(&a.properties, out)?;
    assert(out@ =~= start + puback_body(a@));
    Ok(())
}

fn encode_disconnect(d: &Disconnect, out: &mut Vec<u8>) -> (r: Result<(), MQTTCodecError>)
    ensures
        r is Ok <==> fields_wf(PacketModel::Disconnect(d@)),
        r is Ok ==> final(out)@ == old(out)@ + disconnect_body(d@),
{
    let ghost start = out@;
    out.push(d.reason.code());
    encode_properties(&d.properties, out)?;
    assert(out@ =~= start + disconnect_body(d@));
    Ok(())
}

fn encode_subscription(s: &Subscription, out: &mut Vec<u8>) -> (r: Result<(), MQTTCodecError>)
    ensures
        r is Ok <==> subscription_wf(s@),
        r is Ok ==> final(out)@ == old(out)@ + subscription_bytes(s@),
{
    let ghost start = out@;
    if s.retain_handling > 2 {
        return Err(MQTTCodecError::new("invalid retain handling"));
    }
    encode_utf8_string(s.filter.as_str(), out)?;
    let mut o: u8 = s.qos.code();
    if s.no_local {
        o = o + 4;
    }
    if s.retain_as {
        o = o + 8;
    }
    o = o + 16 * s.retain_handling;
    out.push(o);
    assert(out@ =~= start + subscription_bytes(s@));
    Ok(())
}

proof fn lemma_subs_bytes_push(ss: Seq<crate::packet::SubscriptionModel>, x: crate::packet::SubscriptionModel)
    ensures
        subs_bytes(ss.push(x)) == subs_bytes(ss) + subscription_bytes(x),
    decreases ss.len(),
{
    if ss.len() == 0 {
        let e = Seq::<crate::packet::SubscriptionModel>::empty();
        assert(ss.push(x).subrange(1, 1) =~= e);
        assert(subs_bytes(e) == Seq::<u8>::empty());
        assert(subs_bytes(ss) == Seq::<u8>::empty());
        assert(subs_bytes(ss.push(x)) == subscription_bytes(x) + subs_bytes(e));
        assert(subs_bytes(ss.push(x)) =~= subs_bytes(ss) + subscription_bytes(x));
    } else {
        let tail = ss.subrange(1, ss.len() as int);
        lemma_subs_bytes_push(tail, x);
        assert(ss.push(x).subrange(1, ss.len() as int + 1) =~= tail.push(x));
        assert(subs_bytes(ss.push(x)) =~= subs_bytes(ss) + subscription_bytes(x));
    }
}

fn encode_subscribe(s: &Subscribe, out: &mut Vec<u8>) -> (r: Result<(), MQTTCodecError>)
    ensures
        r is Ok <==> fields_wf(PacketModel::Subscribe(s@)),
        r is Ok ==> final(out)@ == old(out)@ + subscribe_body(s@),
{
    let ghost start = out@;
    push_u16(out, s.packet_id);
    encode_properties(&s.properties, out)?;
    let r = encode_subscriptions(&s.subscriptions, out);
    assert(s@.subscriptions == subs_view(s.subscriptions@));
    if r.is_err() {
        let ghost j = choose|j: int|
            0 <= j < s.subscriptions@.len() && !subscription_wf(
                #[trigger] subs_view(s.subscriptions@)[j],
            );
        assert(!subscription_wf(s@.subscriptions[j]));
        return Err(MQTTCodecError::new("invalid subscription"));
    }
    assert(out@ =~= start + subscribe_body(s@));
    Ok(())
}

fn encode_subscriptions(subs: &Vec<Subscription>, out: &mut Vec<u8>) -> (r: Result<(), MQTTCodecError>)
    ensures
        r is Ok <==> forall|j: int| 0 <= j < subs@.len() ==> subscription_wf(#[trigger] subs_view(subs@)[j]),
        r is Ok ==> final(out)@ == old(out)@ + subs_bytes(subs_view(subs@)),
{
    let ghost mid = out@;
    let ghost v = subs_view(subs@);
    let mut i: usize = 0;
    assert(v.subrange(0, 0) =~= Seq::<SubscriptionModel>::empty());
    assert(mid + subs_bytes(v.subrange(0, 0)) =~= mid);
    while i < subs.len()
        invariant
            i <= subs@.len(),
            v == subs_view(subs@),
            out@ == mid + subs_bytes(v.subrange(0, i as int)),
            forall|j: int| 0 <= j < i ==> subscription_wf(#[trigger] v[j]),
        decreases subs@.len() - i,
    {
        let r = encode_subscription(&subs[i], out);
        if r.is_err() {
            assert(subs@[i as int]@ == v[i as int]);
            assert(!subscription_wf(v[i as int]));
            return Err(MQTTCodecError::new("invalid subscription"));
        }
        proof {
            lemma_subs_bytes_push(v.subrange(0, i as int), v[i as int]);
            assert(v.subrange(0, i as int).push(v[i as int]) =~= v.subrange(0, i + 1));
            assert(out@ =~= mid + subs_bytes(v.subrange(0, i + 1)));
        }
        i = i + 1;
    }
    assert(v.subrange(0, i as int) =~= v);
    Ok(())
}

/// Appends the body of a packet.
fn encode_body(p: &Packet, out: &mut Vec<u8>) -> (r: Result<(), MQTTCodecError>)
    ensures
        r is Ok <==> fields_wf(p@),
        r is Ok ==> final(out)@ == old(out)@ + body_bytes(p@),
{
    reveal(body_bytes);
    match p {
        Packet::PingRequest => {
            assert(out@ =~= old(out)@ + body_bytes(p@));
            Ok(())
        },
        Packet::PingResponse => {
            assert(out@ =~= old(out)@ + body_bytes(p@));
            Ok(())
        },
        Packet::Connect(c) => encode_connect(c, out),
        Packet::ConnAck(c) => encode_connack(c, out),
        Packet::Publish(x) => encode_publish(x, out),
        Packet::Disconnect(d) => encode_disconnect(d, out),
        Packet::Subscribe(s) => encode_subscribe(s, out),
        Packet::PubAck(a) => encode_puback(a, out),
    }
}

fn first_byte_of(p: &Packet) -> (r: u8)
    ensures
        r == first_byte(p@),
{
    match p {
        Packet::PingRequest => 0xc0,
        Packet::PingResponse => 0xd0,
        Packet::Connect(_) => 0x10,
        Packet::ConnAck(_) => 0x20,
        Packet::Publish(x) => {
            let mut b: u8 = 0x30;
            if x.dup {
                b = b + 8;
            }
            b = b + 2 * x.qos.code();
            if x.retain {
                b = b + 1;
            }
            b
        },
        Packet::Disconnect(_) => 0xe0,
        Packet::Subscribe(_) => 0x80,
        Packet::PubAck(_) => 0x40,
    }
}

/// The frame of a packet: its first byte, the length of its body, its body.
/// A packet with a field too long for its encoding, a repeated single-valued
/// property, a publish whose packet identifier does not match its QoS level,
/// or a body too long for a frame cannot be encoded.
pub fn encode_packet(p: &Packet) -> (r: Result<Vec<u8>, MQTTCodecError>)
    ensures
        r is Ok <==> packet_wf(p@),
        r is Ok ==> r->Ok_0@ == packet_bytes(p@),
{
    let mut body: Vec<u8> = Vec::new();
    encode_body(p, &mut body)?;
    assert(body@ =~= body_bytes(p@));
    if body.len() > MAX_VAR_INT as usize {
        return Err(MQTTCodecError::new("packet too large"));
    }
    let mut out: Vec<u8> = Vec::new();
    out.push(first_byte_of(p));
    push_var_int(&mut out, body.len() as u32);
    push_bytes(&mut out, body.as_slice());
    assert(out@ =~= packet_bytes(p@));
    Ok(out)
}

/// Appends the frame of `packet` to `dest`; on an error `dest` is left as it was.
pub fn encode(packet: Packet, dest: &mut BytesMut) -> (r: Result<(), MQTTCodecError>)
    ensures
        r is Ok <==> packet_wf(packet@),
        r is Ok ==> buf_contents(*final(dest)) == buf_contents(*old(dest)) + packet_bytes(packet@),
        r is Err ==> buf_contents(*final(dest)) == buf_contents(*old(dest)),
{
    let bytes = encode_packet(&packet)?;
    dest.extend_from_slice(bytes.as_slice());
    Ok(())
}

proof fn lemma_part_len(p: PacketModel)
    requires
        packet_wf(p),
    ensures
        payload_bytes(p).len() <= MAX_VAR_INT,
        props_bytes(packet_properties(p)).len() <= MAX_VAR_INT,
        packet_bytes(p).len() <= u32::MAX,
{
    reveal(body_bytes);
    lemma_var_int_len(body_bytes(p).len());
    match p {
        PacketModel::Connect(c) => {
            assert(connect_body(c) =~= (crate::packet::connect_preamble() + seq![
                crate::packet::connect_flags(c),
            ] + crate::wire::u16_bytes(c.keep_alive) + crate::property::props_block(c.properties))
                + connect_payload(c));
        },
        PacketModel::Publish(x) => {
            let idb: Seq<u8> = match x.packet_id {
                Some(id) => crate::wire::u16_bytes(id),
                None => Seq::empty(),
            };
            assert(publish_body(x) =~= (crate::wire::utf8_field(x.topic_name) + idb
                + crate::property::props_block(x.properties)) + x.payload);
        },
        PacketModel::Subscribe(s) => {
            assert(subscribe_body(s) =~= (crate::wire::u16_bytes(s.packet_id)
                + crate::property::props_block(s.properties)) + subs_bytes(s.subscriptions));
        },
        _ => {},
    }
}

fn properties_of(p: &Packet) -> (r: Option<&Vec<Property>>)
    ensures
        match r {
            Some(ps) => props_view(ps@) == packet_properties(p@),
            None => packet_properties(p@) == Seq::<crate::property::PropertyModel>::empty(),
        },
{
    match p {
        Packet::Connect(c) => Some(&c.properties),
        Packet::ConnAck(c) => Some(&c.properties),
        Packet::Publish(x) => Some(&x.properties),
        Packet::Disconnect(d) => Some(&d.properties),
        Packet::Subscribe(s) => Some(&s.properties),
        Packet::PubAck(a) => Some(&a.properties),
        _ => None,
    }
}

impl Size for Packet {
    open spec fn encoded_len(&self) -> nat {
        packet_bytes(self@).len()
    }

    open spec fn size_ok(&self) -> bool {
        packet_wf(self@)
    }

    open spec fn properties_len(&self) -> nat {
        props_bytes(packet_properties(self@)).len()
    }

    open spec fn payload_len(&self) -> nat {
        payload_bytes(self@).len()
    }

    fn size(&self) -> (r: u32) {
        proof {
            lemma_part_len(self@);
        }
        match encode_packet(self) {
            Ok(bytes) => bytes.len() as u32,
            Err(_) => 0,
        }
    }

    fn property_size(&self) -> (r: u32) {
        proof {
            lemma_part_len(self@);
        }
        match properties_of(self) {
            Some(ps) => {
                let mut out: Vec<u8> = Vec::new();
                let _ = encode_property_list(ps, &mut out);
                assert(out@ =~= props_bytes(props_view(ps@)));
                out.len() as u32
            },
            None => 0,
        }
    }

    fn payload_size(&self) -> (r: u32) {
        proof {
            lemma_part_len(self@);
            reveal(body_bytes);
        }
        match self {
            Packet::Connect(c) => {
                let mut out: Vec<u8> = Vec::new();
                let _ = encode_connect_payload(c, &mut out);
                assert(out@ =~= connect_payload(c@));
                out.len() as u32
            },
            Packet::Publish(x) => x.payload.len() as u32,
            Packet::Subscribe(s) => {
                let mut out: Vec<u8> = Vec::new();
                let _ = encode_subscriptions(&s.subscriptions, &mut out);
                assert(out@ =~= subs_bytes(subs_view(s.subscriptions@)));
                out.len() as u32
            },
            _ => 0,
        }
    }
}

} // verus!
