//! Reading packets: each body, the frame around it, and the fixed header.

use crate::buffer::{buf_bytes, buf_contents};
use crate::codec::{
    packet_type_of, read_var_int, spec_read_var_int, MQTTCodecError, PacketType, QoSLevel,
    Reason, VarIntRead,
};
use crate::decode::{
    flags_ok, lemma_reason_of_code, spec_connack_body, spec_connect_body,
    spec_decode, spec_decode_body, spec_disconnect_body, spec_puback_body, spec_publish_body,
    spec_qos_of, spec_reason_of, spec_reason_tail, spec_subscribe_body, spec_take_subs,
    spec_take_subscription, Decoded,
};
use crate::packet::{
    subs_view, ConnAck, Connect, Disconnect, FixedHeader, Packet, PubResp, Publish, Subscribe,
    Subscription, SubscriptionModel,
};
use crate::property::{props_view, take_properties, Property};
use crate::wire::{bytes_to_vec, rest_of, take_binary, take_u16, take_u8, take_utf8};
use bytes::BytesMut;
use vstd::prelude::*;

verus! {

fn read_reason(b: u8) -> (r: Option<Reason>)
    ensures
        r == spec_reason_of(b),
{
    match Reason::try_from(b) {
        Ok(x) => {
            proof {
                lemma_reason_of_code(x);
            }
            Some(x)
        },
        Err(_) => None,
    }
}

fn qos_of(n: u8) -> (r: QoSLevel)
    ensures
        r == spec_qos_of(n),
{
    if n == 0 {
        QoSLevel::AtMostOnce
    } else if n == 1 {
        QoSLevel::AtLeastOnce
    } else {
        QoSLevel::ExactlyOnce
    }
}

fn read_connect(s: &[u8]) -> (r: Option<Connect>)
    ensures
        match r {
            Some(c) => spec_connect_body(s@) == Some(c@),
            None => spec_connect_body(s@) is None,
        },
{
    if !(s.len() >= 7 && s[0] == 0 && s[1] == 4 && s[2] == 77 && s[3] == 81 && s[4] == 84 && s[5]
        == 84 && s[6] == 5) {
        return None;
    }
    let (f, r1) = take_u8(&s[7..s.len()])?;
    if !(f % 2 == 0 && (f / 4) % 16 == 0) {
        return None;
    }
    let (keep_alive, r2) = take_u16(r1)?;
    let (properties, r3) = take_properties(r2)?;
    let (client_id, r4) = take_utf8(r3)?;
    let (username, r5) = if f >= 128 {
        let (u, r) = take_utf8(r4)?;
        (Some(u), r)
    } else {
        (None, r4)
    };
    let (password, r6) = if (f / 64) % 2 == 1 {
        let (b, r) = take_binary(r5)?;
        (Some(bytes_to_vec(b)), r)
    } else {
        (None, r5)
    };
    if r6.len() != 0 {
        return None;
    }
    Some(
        Connect {
            client_id,
            clean_start: (f / 2) % 2 == 1,
            keep_alive,
            properties,
            username,
            password,
        },
    )
}

fn read_connack(s: &[u8]) -> (r: Option<ConnAck>)
    ensures
        match r {
            Some(c) => spec_connack_body(s@) == Some(c@),
            None => spec_connack_body(s@) is None,
        },
{
    let (sp, r1) = take_u8(s)?;
    if sp > 1 {
        return None;
    }
    let (rc, r2) = take_u8(r1)?;
    let reason = read_reason(rc)?;
    let (properties, r3) = take_properties(r2)?;
    if r3.len() != 0 {
        return None;
    }
    Some(ConnAck { session_present: sp == 1, reason, properties })
}

fn read_publish(flags: u8, s: &[u8]) -> (r: Option<Publish>)
    ensures
        match r {
            Some(p) => spec_publish_body(flags, s@) == Some(p@),
            None => spec_publish_body(flags, s@) is None,
        },
{
    let q = (flags / 2) % 4;
    if q > 2 {
        return None;
    }
    let (topic_name, r1) = take_utf8(s)?;
    let (packet_id, r2) = if q == 0 {
        (None, r1)
    } else {
        let (id, r) = take_u16(r1)?;
        (Some(id), r)
    };
    let (properties, r3) = take_properties(r2)?;
    Some(
        Publish {
            dup: (flags / 8) % 2 == 1,
            qos: qos_of(q),
            retain: flags % 2 == 1,
            topic_name,
            packet_id,
            properties,
            payload: bytes_to_vec(r3),
        },
    )
}

fn read_reason_tail(s: &[u8]) -> (r: Option<(Reason, Vec<Property>)>)
    ensures
        match r {
            Some((reason, ps)) => spec_reason_tail(s@) == Some((reason, props_view(ps@))),
            None => spec_reason_tail(s@) is None,
        },
{
    if s.len() == 0 {
        let ps: Vec<Property> = Vec::new();
        assert(props_view(ps@) =~= Seq::empty());
        return Some((Reason::Success, ps));
    }
    let reason = read_reason(s[0])?;
    if s.len() == 1 {
        let ps: Vec<Property> = Vec::new();
        assert(props_view(ps@) =~= Seq::empty());
        return Some((reason, ps));
    }
    let (ps, r) = take_properties(&s[1..s.len()])?;
    if r.len() != 0 {
        return None;
    }
    Some((reason, ps))
}

fn read_puback(s: &[u8]) -> (r: Option<PubResp>)
    ensures
        match r {
            Some(a) => spec_puback_body(s@) == Some(a@),
            None => spec_puback_body(s@) is None,
        },
{
    let (packet_id, r1) = take_u16(s)?;
    let (reason, properties) = read_reason_tail(r1)?;
    Some(PubResp { packet_id, reason, properties })
}

fn read_disconnect(s: &[u8]) -> (r: Option<Disconnect>)
    ensures
        match r {
            Some(d) => spec_disconnect_body(s@) == Some(d@),
            None => spec_disconnect_body(s@) is None,
        },
{
    let (reason, properties) = read_reason_tail(s)?;
    Some(Disconnect { reason, properties })
}

fn read_subscription(s: &[u8]) -> (r: Option<(Subscription, &[u8])>)
    ensures
        match r {
            Some((x, rest)) => spec_take_subscription(s@) == Some((x@, rest@)),
            None => spec_take_subscription(s@) is None,
        },
{
    let (filter, r1) = take_utf8(s)?;
    let (o, r2) = take_u8(r1)?;
    if !(o < 64 && o % 4 <= 2 && o / 16 <= 2) {
        return None;
    }
    Some(
        (
            Subscription {
                filter,
                qos: qos_of(o % 4),
                no_local: (o / 4) % 2 == 1,
                retain_as: (o / 8) % 2 == 1,
                retain_handling: o / 16,
            },
            r2,
        ),
    )
}

pub open spec fn prepend_subs(
    acc: Seq<SubscriptionModel>,
    o: Option<Seq<SubscriptionModel>>,
) -> Option<Seq<SubscriptionModel>> {
    match o {
        Some(l) => Some(acc + l),
        None => None,
    }
}

fn read_subs(s: &[u8]) -> (r: Option<Vec<Subscription>>)
    ensures
        match r {
            Some(v) => spec_take_subs(s@) == Some(subs_view(v@)),
            None => spec_take_subs(s@) is None,
        },
{
    let mut acc: Vec<Subscription> = Vec::new();
    let mut cur: &[u8] = s;
    assert(prepend_subs(subs_view(acc@), spec_take_subs(cur@)) == spec_take_subs(s@)) by {
        match spec_take_subs(s@) {
            Some(l) => assert(subs_view(acc@) + l =~= l),
            None => {},
        }
    }
    while cur.len() > 0
        invariant
            spec_take_subs(s@) == prepend_subs(subs_view(acc@), spec_take_subs(cur@)),
        decreases cur@.len(),
    {
        match read_subscription(cur) {
            Some((x, r)) => {
                if r.len() >= cur.len() {
                    return None;
                }
                let ghost old_acc = subs_view(acc@);
                let ghost xv = x@;
                acc.push(x);
                assert(subs_view(acc@) =~= old_acc.push(xv));
                proof {
                    match spec_take_subs(r@) {
                        Some(l) => {
                            assert(old_acc + (seq![xv] + l) =~= old_acc.push(xv) + l);
                        },
                        None => {},
                    }
                }
                cur = r;
            },
            None => {
                return None;
            },
        }
    }
    assert(subs_view(acc@) + Seq::<SubscriptionModel>::empty() =~= subs_view(acc@));
    Some(acc)
}

fn read_subscribe(s: &[u8]) -> (r: Option<Subscribe>)
    ensures
        match r {
            Some(x) => spec_subscribe_body(s@) == Some(x@),
            None => spec_subscribe_body(s@) is None,
        },
{
    let (packet_id, r1) = take_u16(s)?;
    let (properties, r2) = take_properties(r1)?;
    let subscriptions = read_subs(r2)?;
    Some(Subscribe { packet_id, properties, subscriptions })
}

/// Reads the body of a packet of type `t` whose first byte carried `flags`.
#[verifier::spinoff_prover]
#[verifier::rlimit(80)]
fn decode_body(t: PacketType, flags: u8, s: &[u8]) -> (r: Option<Packet>)
    ensures
        match r {
            Some(p) => spec_decode_body(t, flags, s@) == Some(p@),
            None => spec_decode_body(t, flags, s@) is None,
        },
{
    reveal(spec_decode_body);
    match t {
        PacketType::PingReq => if s.len() == 0 {
            Some(Packet::PingRequest)
        } else {
            None
        },
        PacketType::PingResp => if s.len() == 0 {
            Some(Packet::PingResponse)
        } else {
            None
        },
        PacketType::Connect => match read_connect(s) {
            Some(c) => Some(Packet::Connect(c)),
            None => None,
        },
        PacketType::ConnAck => match read_connack(s) {
            Some(c) => Some(Packet::ConnAck(c)),
            None => None,
        },
        PacketType::Publish => match read_publish(flags, s) {
            Some(p) => Some(Packet::Publish(p)),
            None => None,
        },
        PacketType::PubAck => match read_puback(s) {
            Some(a) => Some(Packet::PubAck(a)),
            None => None,
        },
        PacketType::Disconnect => match read_disconnect(s) {
            Some(d) => Some(Packet::Disconnect(d)),
            None => None,
        },
        PacketType::Subscribe => match read_subscribe(s) {
            Some(x) => Some(Packet::Subscribe(x)),
            None => None,
        },
        _ => None,
    }
}

/// Decodes the frame at the front of `s`: the packet and the number of bytes
/// its frame took, `None` while the frame is not complete, or an error for a
/// malformed frame.
pub fn decode_packet(s: &[u8]) -> (r: Result<Option<(Packet, usize)>, MQTTCodecError>)
    ensures
        match r {
            Ok(Some((p, n))) => spec_decode(s@) == Decoded::Frame(p@, n as nat),
            Ok(None) => spec_decode(s@) is NeedMore,
            Err(_) => spec_decode(s@) is Invalid,
        },
{
    if s.len() < 1 {
        return Ok(None);
    }
    match read_var_int(&s[1..s.len()]) {
        VarIntRead::Incomplete => Ok(None),
        VarIntRead::Malformed => Err(MQTTCodecError::new("malformed remaining length")),
        VarIntRead::Value(n, k) => {
            let n = n as usize;
            if s.len() - 1 - k < n {
                return Ok(None);
            }
            let total = 1 + k + n;
            let first = s[0];
            let t = PacketType::from(first);
            let flags = first % 16;
            if !(t == PacketType::Publish || flags == 0) {
                return Err(MQTTCodecError::new("invalid flags"));
            }
            match decode_body(t, flags, &s[1 + k..total]) {
                Some(p) => Ok(Some((p, total))),
                None => Err(MQTTCodecError::new("malformed packet")),
            }
        },
    }
}

/// Takes the complete frame at the front of `src` and returns its packet.
/// While the frame is not complete the result is `None`; a malformed frame
/// is an error. Only a decoded frame is removed from `src`.
pub fn decode(src: &mut BytesMut) -> (r: Result<Option<Packet>, MQTTCodecError>)
    ensures
        match r {
            Ok(Some(p)) => {
                &&& spec_decode(buf_contents(*old(src))) is Frame
                &&& spec_decode(buf_contents(*old(src)))->Frame_0 == p@
                &&& buf_contents(*final(src)) == rest_of(
                    buf_contents(*old(src)),
                    spec_decode(buf_contents(*old(src)))->Frame_1 as int,
                )
            },
            Ok(None) => spec_decode(buf_contents(*old(src))) is NeedMore && buf_contents(
                *final(src),
            ) == buf_contents(*old(src)),
            Err(_) => spec_decode(buf_contents(*old(src))) is Invalid && buf_contents(*final(src))
                == buf_contents(*old(src)),
        },
{
    match decode_packet(buf_bytes(src)) {
        Ok(Some((p, n))) => {
            let _frame = src.split_to(n);
            Ok(Some(p))
        },
        Ok(None) => Ok(None),
        Err(e) => Err(e),
    }
}

/// What reading a fixed header gives.
pub enum HeaderRead {
    /// The header, and the number of bytes it took.
    Header(FixedHeader, nat),
    NeedMore,
    Invalid,
}

/// Reads the fixed header at the front of `s`, once the whole frame is there.
pub open spec fn spec_fixed_header(s: Seq<u8>) -> HeaderRead {
    if s.len() < 1 {
        HeaderRead::NeedMore
    } else {
        match spec_read_var_int(rest_of(s, 1)) {
            VarIntRead::Incomplete => HeaderRead::NeedMore,
            VarIntRead::Malformed => HeaderRead::Invalid,
            VarIntRead::Value(n, k) => if s.len() < 1 + k + n {
                HeaderRead::NeedMore
            } else if !flags_ok(packet_type_of(s[0]), s[0] % 16) {
                HeaderRead::Invalid
            } else {
                HeaderRead::Header(
                    FixedHeader { packet_type: packet_type_of(s[0]), flags: s[0] % 16, remaining: n },
                    1 + k as nat,
                )
            },
        }
    }
}

/// Takes the fixed header of the complete frame at the front of `src`,
/// leaving the body. Flags other than zero on a packet type other than
/// PUBLISH are an error, as is a malformed length; while the frame is not
/// complete the result is `None`.
pub fn decode_fixed_header(src: &mut BytesMut) -> (r: Result<Option<FixedHeader>, MQTTCodecError>)
    ensures
        match r {
            Ok(Some(h)) => {
                &&& spec_fixed_header(buf_contents(*old(src))) is Header
                &&& spec_fixed_header(buf_contents(*old(src)))->Header_0 == h
                &&& buf_contents(*final(src)) == rest_of(
                    buf_contents(*old(src)),
                    spec_fixed_header(buf_contents(*old(src)))->Header_1 as int,
                )
            },
            Ok(None) => spec_fixed_header(buf_contents(*old(src))) is NeedMore && buf_contents(
                *final(src),
            ) == buf_contents(*old(src)),
            Err(_) => spec_fixed_header(buf_contents(*old(src))) is Invalid && buf_contents(
                *final(src),
            ) == buf_contents(*old(src)),
        },
{
    let s = buf_bytes(src);
    if s.len() < 1 {
        return Ok(None);
    }
    match read_var_int(&s[1..s.len()]) {
        VarIntRead::Incomplete => Ok(None),
        VarIntRead::Malformed => Err(MQTTCodecError::new("malformed remaining length")),
        VarIntRead::Value(n, k) => {
            if s.len() - 1 - k < n as usize {
                return Ok(None);
            }
            let first = s[0];
            let packet_type = PacketType::from(first);
            let flags = first % 16;
            if !(packet_type == PacketType::Publish || flags == 0) {
                return Err(MQTTCodecError::new("invalid flags"));
            }
            let _header = src.split_to(1 + k);
            Ok(Some(FixedHeader { packet_type, flags, remaining: n }))
        },
    }
}

/// Reserved flags: once a frame is complete, a type other than PUBLISH with
/// any flag bit set is rejected, both by the header reader and by the frame
/// decoder, while a PUBLISH header is accepted whatever its flags.
pub proof fn lemma_reserved_flags(s: Seq<u8>)
    requires
        s.len() >= 1,
        spec_read_var_int(rest_of(s, 1)) is Value,
        s.len() >= 1 + spec_read_var_int(rest_of(s, 1))->Value_1 + spec_read_var_int(
            rest_of(s, 1),
        )->Value_0,
    ensures
        packet_type_of(s[0]) != PacketType::Publish && s[0] % 16 != 0 ==> spec_fixed_header(s)
            is Invalid && spec_decode(s) is Invalid,
        packet_type_of(s[0]) == PacketType::Publish ==> spec_fixed_header(s) is Header,
{
}

} // verus!
