//! The packets of the protocol, their mathematical models, and the layout of
//! each packet's body on the wire.

use crate::codec::{qos_code, reason_code, QoSLevel, Reason, MAX_FIELD_LEN};
use crate::property::{props_block, props_view, props_wf, Property, PropertyModel};
use crate::wire::{binary_field, fits_field, u16_bytes, utf8_field};
use vstd::prelude::*;

verus! {

/// The first byte's type and flags, and the length of what follows the header.
#[derive(Debug, PartialEq, Eq, Copy, Clone, Structural)]
pub struct FixedHeader {
    pub packet_type: crate::codec::PacketType,
    pub flags: u8,
    pub remaining: u32,
}

/// CONNECT: the client opens a session.
#[derive(Debug, Clone, PartialEq, Eq)]
pub struct Connect {
    pub client_id: String,
    pub clean_start: bool,
    pub keep_alive: u16,
    pub properties: Vec<Property>,
    pub username: Option<String>,
    pub password: Option<Vec<u8>>,
}

/// CONNACK: the broker's answer to CONNECT.
#[derive(Debug, Clone, PartialEq, Eq)]
pub struct ConnAck {
    pub session_present: bool,
    pub reason: Reason,
    pub properties: Vec<Property>,
}

/// PUBLISH: an application message.
#[derive(Debug, Clone, PartialEq, Eq)]
pub struct Publish {
    pub dup: bool,
    pub qos: QoSLevel,
    pub retain: bool,
    pub topic_name: String,
    pub packet_id: Option<u16>,
    pub properties: Vec<Property>,
    pub payload: Vec<u8>,
}

/// PUBACK: acknowledgement of an at-least-once publish.
#[derive(Debug, Clone, PartialEq, Eq)]
pub struct PubResp {
    pub packet_id: u16,
    pub reason: Reason,
    pub properties: Vec<Property>,
}

/// DISCONNECT: either side closes the session, with a reason.
#[derive(Debug, Clone, PartialEq, Eq)]
pub struct Disconnect {
    pub reason: Reason,
    pub properties: Vec<Property>,
}

/// One topic filter of a SUBSCRIBE, with its options.
#[derive(Debug, Clone, PartialEq, Eq)]
pub struct Subscription {
    pub filter: String,
    pub qos: QoSLevel,
    pub no_local: bool,
    pub retain_as: bool,
    pub retain_handling: u8,
}

/// SUBSCRIBE: the client asks for the messages of some topic filters.
#[derive(Debug, Clone, PartialEq, Eq)]
pub struct Subscribe {
    pub packet_id: u16,
    pub properties: Vec<Property>,
    pub subscriptions: Vec<Subscription>,
}

/// A packet of one of the supported kinds.
#[derive(Debug, Clone, PartialEq, Eq)]
pub enum Packet {
    PingRequest,
    PingResponse,
    Connect(Connect),
    ConnAck(ConnAck),
    Publish(Publish),
    Disconnect(Disconnect),
    Subscribe(Subscribe),
    PubAck(PubResp),
}

// ---------------------------------------------------------------------------
// Models
// ---------------------------------------------------------------------------

pub struct ConnectModel {
    pub client_id: Seq<char>,
    pub clean_start: bool,
    pub keep_alive: u16,
    pub properties: Seq<PropertyModel>,
    pub username: Option<Seq<char>>,
    pub password: Option<Seq<u8>>,
}

pub struct ConnAckModel {
    pub session_present: bool,
    pub reason: Reason,
    pub properties: Seq<PropertyModel>,
}

pub struct PublishModel {
    pub dup: bool,
    pub qos: QoSLevel,
    pub retain: bool,
    pub topic_name: Seq<char>,
    pub packet_id: Option<u16>,
    pub properties: Seq<PropertyModel>,
    pub payload: Seq<u8>,
}

pub struct PubRespModel {
    pub packet_id: u16,
    pub reason: Reason,
    pub properties: Seq<PropertyModel>,
}

pub struct DisconnectModel {
    pub reason: Reason,
    pub properties: Seq<PropertyModel>,
}

pub struct SubscriptionModel {
    pub filter: Seq<char>,
    pub qos: QoSLevel,
    pub no_local: bool,
    pub retain_as: bool,
    pub retain_handling: u8,
}

pub struct SubscribeModel {
    pub packet_id: u16,
    pub properties: Seq<PropertyModel>,
    pub subscriptions: Seq<SubscriptionModel>,
}

pub enum PacketModel {
    PingRequest,
    PingResponse,
    Connect(ConnectModel),
    ConnAck(ConnAckModel),
    Publish(PublishModel),
    Disconnect(DisconnectModel),
    Subscribe(SubscribeModel),
    PubAck(PubRespModel),
}

pub open spec fn opt_str_view(o: Option<String>) -> Option<Seq<char>> {
    match o {
        Some(s) => Some(s@),
        None => None,
    }
}

pub open spec fn opt_bytes_view(o: Option<Vec<u8>>) -> Option<Seq<u8>> {
    match o {
        Some(b) => Some(b@),
        None => None,
    }
}

impl View for Connect {
    type V = ConnectModel;

    open spec fn view(&self) -> ConnectModel {
        ConnectModel {
            client_id: self.client_id@,
            clean_start: self.clean_start,
            keep_alive: self.keep_alive,
            properties: props_view(self.properties@),
            username: opt_str_view(self.username),
            password: opt_bytes_view(self.password),
        }
    }
}

impl View for ConnAck {
    type V = ConnAckModel;

    open spec fn view(&self) -> ConnAckModel {
        ConnAckModel {
            session_present: self.session_present,
            reason: self.reason,
            properties: props_view(self.properties@),
        }
    }
}

impl View for Publish {
    type V = PublishModel;

    open spec fn view(&self) -> PublishModel {
        PublishModel {
            dup: self.dup,
            qos: self.qos,
            retain: self.retain,
            topic_name: self.topic_name@,
            packet_id: self.packet_id,
            properties: props_view(self.properties@),
            payload: self.payload@,
        }
    }
}

impl View for PubResp {
    type V = PubRespModel;

    open spec fn view(&self) -> PubRespModel {
        PubRespModel {
            packet_id: self.packet_id,
            reason: self.reason,
            properties: props_view(self.properties@),
        }
    }
}

impl View for Disconnect {
    type V = DisconnectModel;

    open spec fn view(&self) -> DisconnectModel {
        DisconnectModel { reason: self.reason, properties: props_view(self.properties@) }
    }
}

impl View for Subscription {
    type V = SubscriptionModel;

    open spec fn view(&self) -> SubscriptionModel {
        SubscriptionModel {
            filter: self.filter@,
            qos: self.qos,
            no_local: self.no_local,
            retain_as: self.retain_as,
            retain_handling: self.retain_handling,
        }
    }
}

pub open spec fn subs_view(v: Seq<Subscription>) -> Seq<SubscriptionModel> {
    Seq::new(v.len(), |i: int| v[i]@)
}

impl View for Subscribe {
    type V = SubscribeModel;

    open spec fn view(&self) -> SubscribeModel {
        SubscribeModel {
            packet_id: self.packet_id,
            properties: props_view(self.properties@),
            subscriptions: subs_view(self.subscriptions@),
        }
    }
}

impl View for Packet {
    type V = PacketModel;

    open spec fn view(&self) -> PacketModel {
        match self {
            Packet::PingRequest => PacketModel::PingRequest,
            Packet::PingResponse => PacketModel::PingResponse,
            Packet::Connect(c) => PacketModel::Connect(c@),
            Packet::ConnAck(c) => PacketModel::ConnAck(c@),
            Packet::Publish(p) => PacketModel::Publish(p@),
            Packet::Disconnect(d) => PacketModel::Disconnect(d@),
            Packet::Subscribe(s) => PacketModel::Subscribe(s@),
            Packet::PubAck(a) => PacketModel::PubAck(a@),
        }
    }
}

// ---------------------------------------------------------------------------
// Layout of each body
// ---------------------------------------------------------------------------

pub open spec fn bool_byte(b: bool) -> u8 {
    if b {
        1
    } else {
        0
    }
}

/// Protocol name "MQTT" as a string field, then protocol version 5.
pub open spec fn connect_preamble() -> Seq<u8> {
    seq![0u8, 4u8, 77u8, 81u8, 84u8, 84u8, 5u8]
}

pub open spec fn connect_flags(c: ConnectModel) -> u8 {
    ((if c.username is Some { 128u8 } else { 0u8 }) + (if c.password is Some { 64u8 } else { 0u8 })
        + (if c.clean_start { 2u8 } else { 0u8 })) as u8
}

pub open spec fn opt_utf8_bytes(o: Option<Seq<char>>) -> Seq<u8> {
    match o {
        Some(c) => utf8_field(c),
        None => Seq::empty(),
    }
}

pub open spec fn opt_binary_bytes(o: Option<Seq<u8>>) -> Seq<u8> {
    match o {
        Some(b) => binary_field(b),
        None => Seq::empty(),
    }
}

/// What follows the properties of a CONNECT: the client identifier and the
/// credentials.
pub open spec fn connect_payload(c: ConnectModel) -> Seq<u8> {
    utf8_field(c.client_id) + opt_utf8_bytes(c.username) + opt_binary_bytes(c.password)
}

pub open spec fn connect_body(c: ConnectModel) -> Seq<u8> {
    connect_preamble() + seq![connect_flags(c)] + u16_bytes(c.keep_alive) + props_block(c.properties)
        + utf8_field(c.client_id) + opt_utf8_bytes(c.username) + opt_binary_bytes(c.password)
}

pub open spec fn connack_body(c: ConnAckModel) -> Seq<u8> {
    seq![bool_byte(c.session_present), reason_code(c.reason)] + props_block(c.properties)
}

pub open spec fn publish_body(p: PublishModel) -> Seq<u8> {
    utf8_field(p.topic_name) + (match p.packet_id {
        Some(id) => u16_bytes(id),
        None => Seq::empty(),
    }) + props_block(p.properties) + p.payload
}

pub open spec fn puback_body(a: PubRespModel) -> Seq<u8> {
    u16_bytes(a.packet_id) + seq![reason_code(a.reason)] + props_block(a.properties)
}

pub open spec fn disconnect_body(d: DisconnectModel) -> Seq<u8> {
    seq![reason_code(d.reason)] + props_block(d.properties)
}

pub open spec fn subscription_options(s: SubscriptionModel) -> u8 {
    (qos_code(s.qos) + (if s.no_local { 4u8 } else { 0u8 }) + (if s.retain_as { 8u8 } else { 0u8 })
        + 16 * s.retain_handling) as u8
}

pub open spec fn subscription_bytes(s: SubscriptionModel) -> Seq<u8> {
    utf8_field(s.filter) + seq![subscription_options(s)]
}

pub open spec fn subs_bytes(ss: Seq<SubscriptionModel>) -> Seq<u8>
    decreases ss.len(),
{
    if ss.len() == 0 {
        Seq::empty()
    } else {
        subscription_bytes(ss[0]) + subs_bytes(ss.subrange(1, ss.len() as int))
    }
}

pub open spec fn subscribe_body(s: SubscribeModel) -> Seq<u8> {
    u16_bytes(s.packet_id) + props_block(s.properties) + subs_bytes(s.subscriptions)
}

/// The body of a packet: what follows the fixed header.
#[verifier::opaque]
pub open spec fn body_bytes(p: PacketModel) -> Seq<u8> {
    match p {
        PacketModel::PingRequest => Seq::empty(),
        PacketModel::PingResponse => Seq::empty(),
        PacketModel::Connect(c) => connect_body(c),
        PacketModel::ConnAck(c) => connack_body(c),
        PacketModel::Publish(x) => publish_body(x),
        PacketModel::Disconnect(d) => disconnect_body(d),
        PacketModel::Subscribe(s) => subscribe_body(s),
        PacketModel::PubAck(a) => puback_body(a),
    }
}

/// The first byte of a packet: its type number, then its flags.
pub open spec fn first_byte(p: PacketModel) -> u8 {
    match p {
        PacketModel::PingRequest => 0xc0,
        PacketModel::PingResponse => 0xd0,
        PacketModel::Connect(_) => 0x10,
        PacketModel::ConnAck(_) => 0x20,
        PacketModel::Publish(x) => (0x30 + (if x.dup { 8u8 } else { 0u8 }) + 2 * qos_code(x.qos) + (
        if x.retain { 1u8 } else { 0u8 })) as u8,
        PacketModel::Disconnect(_) => 0xe0,
        PacketModel::Subscribe(_) => 0x80,
        PacketModel::PubAck(_) => 0x40,
    }
}

/// The properties of a packet; PINGREQ and PINGRESP have none.
pub open spec fn packet_properties(p: PacketModel) -> Seq<PropertyModel> {
    match p {
        PacketModel::Connect(c) => c.properties,
        PacketModel::ConnAck(c) => c.properties,
        PacketModel::Publish(x) => x.properties,
        PacketModel::Disconnect(d) => d.properties,
        PacketModel::Subscribe(s) => s.properties,
        PacketModel::PubAck(a) => a.properties,
        _ => Seq::empty(),
    }
}

/// The payload of a packet: what a CONNECT, PUBLISH or SUBSCRIBE carries
/// after its properties; the other kinds have none.
pub open spec fn payload_bytes(p: PacketModel) -> Seq<u8> {
    match p {
        PacketModel::Connect(c) => connect_payload(c),
        PacketModel::Publish(x) => x.payload,
        PacketModel::Subscribe(s) => subs_bytes(s.subscriptions),
        _ => Seq::empty(),
    }
}

// ---------------------------------------------------------------------------
// Which packets can be written
// ---------------------------------------------------------------------------

pub open spec fn opt_fits(o: Option<Seq<char>>) -> bool {
    match o {
        Some(c) => fits_field(c),
        None => true,
    }
}

pub open spec fn subscription_wf(s: SubscriptionModel) -> bool {
    fits_field(s.filter) && s.retain_handling <= 2
}

/// The fields of a packet fit their encodings, and a publish carries a packet
/// identifier exactly when its QoS level asks for acknowledgement.
pub open spec fn fields_wf(p: PacketModel) -> bool {
    match p {
        PacketModel::PingRequest => true,
        PacketModel::PingResponse => true,
        PacketModel::Connect(c) => {
            &&& fits_field(c.client_id)
            &&& props_wf(c.properties)
            &&& opt_fits(c.username)
            &&& match c.password {
                Some(b) => b.len() <= MAX_FIELD_LEN,
                None => true,
            }
        },
        PacketModel::ConnAck(c) => props_wf(c.properties),
        PacketModel::Publish(x) => {
            &&& fits_field(x.topic_name)
            &&& (x.packet_id is Some <==> x.qos != QoSLevel::AtMostOnce)
            &&& props_wf(x.properties)
        },
        PacketModel::Disconnect(d) => props_wf(d.properties),
        PacketModel::Subscribe(s) => {
            &&& props_wf(s.properties)
            &&& forall|i: int|
                0 <= i < s.subscriptions.len() ==> subscription_wf(#[trigger] s.subscriptions[i])
        },
        PacketModel::PubAck(a) => props_wf(a.properties),
    }
}

/// A packet that `encode` accepts: well-formed fields, and a body whose length
/// a variable byte integer can carry.
pub open spec fn packet_wf(p: PacketModel) -> bool {
    fields_wf(p) && body_bytes(p).len() <= crate::codec::MAX_VAR_INT
}

} // verus!
