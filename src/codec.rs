//! Packet kinds, reason codes, QoS levels and the primitive field encodings:
//! variable byte integers, two-byte integers, UTF-8 strings and binary data.

use crate::buffer::{buf_bytes, buf_contents};
use bytes::BytesMut;
use vstd::prelude::*;
use vstd::utf8::*;

verus! {

/// Largest value a variable byte integer can carry (2^28 - 1).
pub const MAX_VAR_INT: u32 = 268435455;

/// Longest string or binary field: its length travels in two bytes.
pub const MAX_FIELD_LEN: usize = 65535;

/// MQTT control packet type, the upper four bits of a frame's first byte.
#[derive(Debug, PartialEq, Eq, Copy, Clone, Structural)]
pub enum PacketType {
    Connect,
    ConnAck,
    Publish,
    PubAck,
    PubRec,
    PubRel,
    PubComp,
    Subscribe,
    SubAck,
    Unsubscribe,
    UnsubAck,
    PingReq,
    PingResp,
    Disconnect,
    Auth,
}

/// The number that a packet type carries in the upper nibble of the first byte.
pub open spec fn packet_type_number(t: PacketType) -> u8 {
    match t {
        PacketType::Connect => 1,
        PacketType::ConnAck => 2,
        PacketType::Publish => 3,
        PacketType::PubAck => 4,
        PacketType::PubRec => 5,
        PacketType::PubRel => 6,
        PacketType::PubComp => 7,
        PacketType::Subscribe => 8,
        PacketType::SubAck => 9,
        PacketType::Unsubscribe => 10,
        PacketType::UnsubAck => 11,
        PacketType::PingReq => 12,
        PacketType::PingResp => 13,
        PacketType::Disconnect => 14,
        PacketType::Auth => 15,
    }
}

/// The packet type named by the upper nibble of `b`; 0 and 15 both read as `Auth`.
pub open spec fn packet_type_of(b: u8) -> PacketType {
    let n = b / 16;
    if n == 1 {
        PacketType::Connect
    } else if n == 2 {
        PacketType::ConnAck
    } else if n == 3 {
        PacketType::Publish
    } else if n == 4 {
        PacketType::PubAck
    } else if n == 5 {
        PacketType::PubRec
    } else if n == 6 {
        PacketType::PubRel
    } else if n == 7 {
        PacketType::PubComp
    } else if n == 8 {
        PacketType::Subscribe
    } else if n == 9 {
        PacketType::SubAck
    } else if n == 10 {
        PacketType::Unsubscribe
    } else if n == 11 {
        PacketType::UnsubAck
    } else if n == 12 {
        PacketType::PingReq
    } else if n == 13 {
        PacketType::PingResp
    } else if n == 14 {
        PacketType::Disconnect
    } else {
        PacketType::Auth
    }
}

/// The upper-case name of a packet type.
pub open spec fn packet_type_name(t: PacketType) -> Seq<char> {
    match t {
        PacketType::Connect => "CONNECT"@,
        PacketType::ConnAck => "CONNACK"@,
        PacketType::Publish => "PUBLISH"@,
        PacketType::PubAck => "PUBACK"@,
        PacketType::PubRec => "PUBREC"@,
        PacketType::PubRel => "PUBREL"@,
        PacketType::PubComp => "PUBCOMP"@,
        PacketType::Subscribe => "SUBSCRIBE"@,
        PacketType::SubAck => "SUBACK"@,
        PacketType::Unsubscribe => "UNSUBSCRIBE"@,
        PacketType::UnsubAck => "UNSUBACK"@,
        PacketType::PingReq => "PINGREQ"@,
        PacketType::PingResp => "PINGRESP"@,
        PacketType::Disconnect => "DISCONNECT"@,
        PacketType::Auth => "AUTH"@,
    }
}

impl PacketType {
    /// The first-byte value of this packet type with all flag bits clear.
    pub fn code(self) -> (r: u8)
        ensures
            r == packet_type_number(self) * 16,
    {
        match self {
            PacketType::Connect => 0x10,
            PacketType::ConnAck => 0x20,
            PacketType::Publish => 0x30,
            PacketType::PubAck => 0x40,
            PacketType::PubRec => 0x50,
            PacketType::PubRel => 0x60,
            PacketType::PubComp => 0x70,
            PacketType::Subscribe => 0x80,
            PacketType::SubAck => 0x90,
            PacketType::Unsubscribe => 0xa0,
            PacketType::UnsubAck => 0xb0,
            PacketType::PingReq => 0xc0,
            PacketType::PingResp => 0xd0,
            PacketType::Disconnect => 0xe0,
            PacketType::Auth => 0xf0,
        }
    }

    /// The upper-case name, as used in logs.
    pub fn to_string(&self) -> (r: String)
        ensures
            r@ == packet_type_name(*self),
    {
        let s: &str = match self {
            PacketType::Connect => "CONNECT",
            PacketType::ConnAck => "CONNACK",
            PacketType::Publish => "PUBLISH",
            PacketType::PubAck => "PUBACK",
            PacketType::PubRec => "PUBREC",
            PacketType::PubRel => "PUBREL",
            PacketType::PubComp => "PUBCOMP",
            PacketType::Subscribe => "SUBSCRIBE",
            PacketType::SubAck => "SUBACK",
            PacketType::Unsubscribe => "UNSUBSCRIBE",
            PacketType::UnsubAck => "UNSUBACK",
            PacketType::PingReq => "PINGREQ",
            PacketType::PingResp => "PINGRESP",
            PacketType::Disconnect => "DISCONNECT",
            PacketType::Auth => "AUTH",
        };
        s.to_owned()
    }
}

impl From<u8> for PacketType {
    fn from(val: u8) -> (r: PacketType) {
        let n: u8 = val / 16;
        if n == 1 {
            PacketType::Connect
        } else if n == 2 {
            PacketType::ConnAck
        } else if n == 3 {
            PacketType::Publish
        } else if n == 4 {
            PacketType::PubAck
        } else if n == 5 {
            PacketType::PubRec
        } else if n == 6 {
            PacketType::PubRel
        } else if n == 7 {
            PacketType::PubComp
        } else if n == 8 {
            PacketType::Subscribe
        } else if n == 9 {
            PacketType::SubAck
        } else if n == 10 {
            PacketType::Unsubscribe
        } else if n == 11 {
            PacketType::UnsubAck
        } else if n == 12 {
            PacketType::PingReq
        } else if n == 13 {
            PacketType::PingResp
        } else if n == 14 {
            PacketType::Disconnect
        } else {
            PacketType::Auth
        }
    }
}

impl vstd::std_specs::convert::FromSpecImpl<u8> for PacketType {
    open spec fn obeys_from_spec() -> bool {
        true
    }

    open spec fn from_spec(v: u8) -> PacketType {
        packet_type_of(v)
    }
}

/// An error of the wire codec: the frame is malformed or cannot be encoded.
#[derive(Debug)]
pub struct MQTTCodecError {
    pub reason: String,
}

impl MQTTCodecError {
    pub fn new(reason: &str) -> (r: MQTTCodecError)
        ensures
            r.reason@ == reason@,
    {
        MQTTCodecError { reason: reason.to_owned() }
    }
}

/// Reason code: a one-byte result of a request. The numbers are sparse, so the
/// meaning of each is given by an explicit table.
#[derive(Debug, PartialEq, Eq, Copy, Clone, Structural)]
pub enum Reason {
    Success,
    GrantedQoS1,
    GrantedQoS2,
    DisconnectWillMsg,
    NoSubscribers,
    NoSubscriptionExisted,
    ContinueAuth,
    Reauthenticate,
    UnspecifiedErr,
    MalformedPacket,
    ProtocolErr,
    ImplementationErr,
    UnsupportedProtocolVersion,
    InvalidClientId,
    AuthenticationErr,
    Unauthorized,
    ServerUnavailable,
    ServerBusy,
    Banned,
    ServerShutdown,
    AuthMethodErr,
    KeepAliveTimeout,
    SessionTakeOver,
    InvalidTopicFilter,
    InvalidTopicName,
    PacketIdInUse,
    PacketIdNotFound,
    ReceiveMaxExceeded,
    InvalidTopicAlias,
    PacketTooLarge,
    MessageRate,
    QuotaExceeded,
    AdminAction,
    PayloadFormatErr,
    RetainUnsupported,
    QoSUnsupported,
    UseDiffServer,
    ServerMoved,
    SharedSubUnsupported,
    ConnRateExceeded,
    MaxConnectTime,
    SubIdUnsupported,
    WildcardSubUnsupported,
}

/// The byte that stands for a reason code on the wire.
pub open spec fn reason_code(r: Reason) -> u8 {
    match r {
        Reason::Success => 0x00,
        Reason::GrantedQoS1 => 0x01,
        Reason::GrantedQoS2 => 0x02,
        Reason::DisconnectWillMsg => 0x04,
        Reason::NoSubscribers => 0x10,
        Reason::NoSubscriptionExisted => 0x11,
        Reason::ContinueAuth => 0x18,
        Reason::Reauthenticate => 0x19,
        Reason::UnspecifiedErr => 0x80,
        Reason::MalformedPacket => 0x81,
        Reason::ProtocolErr => 0x82,
        Reason::ImplementationErr => 0x83,
        Reason::UnsupportedProtocolVersion => 0x84,
        Reason::InvalidClientId => 0x85,
        Reason::AuthenticationErr => 0x86,
        Reason::Unauthorized => 0x87,
        Reason::ServerUnavailable => 0x88,
        Reason::ServerBusy => 0x89,
        Reason::Banned => 0x8a,
        Reason::ServerShutdown => 0x8b,
        Reason::AuthMethodErr => 0x8c,
        Reason::KeepAliveTimeout => 0x8d,
        Reason::SessionTakeOver => 0x8e,
        Reason::InvalidTopicFilter => 0x8f,
        Reason::InvalidTopicName => 0x90,
        Reason::PacketIdInUse => 0x91,
        Reason::PacketIdNotFound => 0x92,
        Reason::ReceiveMaxExceeded => 0x93,
        Reason::InvalidTopicAlias => 0x94,
        Reason::PacketTooLarge => 0x95,
        Reason::MessageRate => 0x96,
        Reason::QuotaExceeded => 0x97,
        Reason::AdminAction => 0x98,
        Reason::PayloadFormatErr => 0x99,
        Reason::RetainUnsupported => 0x9a,
        Reason::QoSUnsupported => 0x9b,
        Reason::UseDiffServer => 0x9c,
        Reason::ServerMoved => 0x9d,
        Reason::SharedSubUnsupported => 0x9e,
        Reason::ConnRateExceeded => 0x9f,
        Reason::MaxConnectTime => 0xa0,
        Reason::SubIdUnsupported => 0xa1,
        Reason::WildcardSubUnsupported => 0xa2,
    }
}

/// Distinct reasons have distinct codes.
pub proof fn lemma_reason_code_injective(a: Reason, b: Reason)
    requires
        reason_code(a) == reason_code(b),
    ensures
        a == b,
{
    match a {
        Reason::Success => {},
        Reason::GrantedQoS1 => {},
        Reason::GrantedQoS2 => {},
        Reason::DisconnectWillMsg => {},
        Reason::NoSubscribers => {},
        Reason::NoSubscriptionExisted => {},
        Reason::ContinueAuth => {},
        Reason::Reauthenticate => {},
        Reason::UnspecifiedErr => {},
        Reason::MalformedPacket => {},
        Reason::ProtocolErr => {},
        Reason::ImplementationErr => {},
        Reason::UnsupportedProtocolVersion => {},
        Reason::InvalidClientId => {},
        Reason::AuthenticationErr => {},
        Reason::Unauthorized => {},
        Reason::ServerUnavailable => {},
        Reason::ServerBusy => {},
        Reason::Banned => {},
        Reason::ServerShutdown => {},
        Reason::AuthMethodErr => {},
        Reason::KeepAliveTimeout => {},
        Reason::SessionTakeOver => {},
        Reason::InvalidTopicFilter => {},
        Reason::InvalidTopicName => {},
        Reason::PacketIdInUse => {},
        Reason::PacketIdNotFound => {},
        Reason::ReceiveMaxExceeded => {},
        Reason::InvalidTopicAlias => {},
        Reason::PacketTooLarge => {},
        Reason::MessageRate => {},
        Reason::QuotaExceeded => {},
        Reason::AdminAction => {},
        Reason::PayloadFormatErr => {},
        Reason::RetainUnsupported => {},
        Reason::QoSUnsupported => {},
        Reason::UseDiffServer => {},
        Reason::ServerMoved => {},
        Reason::SharedSubUnsupported => {},
        Reason::ConnRateExceeded => {},
        Reason::MaxConnectTime => {},
        Reason::SubIdUnsupported => {},
        Reason::WildcardSubUnsupported => {},
    }
}

#[allow(non_upper_case_globals)]
impl Reason {
    pub const NormalDisconnect: Reason = Reason::Success;
    pub const GrantedQoS0: Reason = Reason::Success;

    /// The byte that stands for this reason on the wire.
    pub fn code(self) -> (r: u8)
        ensures
            r == reason_code(self),
    {
        match self {
            Reason::Success => 0x00,
            Reason::GrantedQoS1 => 0x01,
            Reason::GrantedQoS2 => 0x02,
            Reason::DisconnectWillMsg => 0x04,
            Reason::NoSubscribers => 0x10,
            Reason::NoSubscriptionExisted => 0x11,
            Reason::ContinueAuth => 0x18,
            Reason::Reauthenticate => 0x19,
            Reason::UnspecifiedErr => 0x80,
            Reason::MalformedPacket => 0x81,
            Reason::ProtocolErr => 0x82,
            Reason::ImplementationErr => 0x83,
            Reason::UnsupportedProtocolVersion => 0x84,
            Reason::InvalidClientId => 0x85,
            Reason::AuthenticationErr => 0x86,
            Reason::Unauthorized => 0x87,
            Reason::ServerUnavailable => 0x88,
            Reason::ServerBusy => 0x89,
            Reason::Banned => 0x8a,
            Reason::ServerShutdown => 0x8b,
            Reason::AuthMethodErr => 0x8c,
            Reason::KeepAliveTimeout => 0x8d,
            Reason::SessionTakeOver => 0x8e,
            Reason::InvalidTopicFilter => 0x8f,
            Reason::InvalidTopicName => 0x90,
            Reason::PacketIdInUse => 0x91,
            Reason::PacketIdNotFound => 0x92,
            Reason::ReceiveMaxExceeded => 0x93,
            Reason::InvalidTopicAlias => 0x94,
            Reason::PacketTooLarge => 0x95,
            Reason::MessageRate => 0x96,
            Reason::QuotaExceeded => 0x97,
            Reason::AdminAction => 0x98,
            Reason::PayloadFormatErr => 0x99,
            Reason::RetainUnsupported => 0x9a,
            Reason::QoSUnsupported => 0x9b,
            Reason::UseDiffServer => 0x9c,
            Reason::ServerMoved => 0x9d,
            Reason::SharedSubUnsupported => 0x9e,
            Reason::ConnRateExceeded => 0x9f,
            Reason::MaxConnectTime => 0xa0,
            Reason::SubIdUnsupported => 0xa1,
            Reason::WildcardSubUnsupported => 0xa2,
        }
    }

    /// The reason whose code is `value`, or an error where the table has none.
    pub fn try_from(value: u8) -> (r: Result<Reason, MQTTCodecError>)
        ensures
            match r {
                Ok(x) => reason_code(x) == value,
                Err(_) => forall|x: Reason| reason_code(x) != value,
            },
    {
        match value {
            0x00 => Ok(Reason::Success),
            0x01 => Ok(Reason::GrantedQoS1),
            0x02 => Ok(Reason::GrantedQoS2),
            0x04 => Ok(Reason::DisconnectWillMsg),
            0x10 => Ok(Reason::NoSubscribers),
            0x11 => Ok(Reason::NoSubscriptionExisted),
            0x18 => Ok(Reason::ContinueAuth),
            0x19 => Ok(Reason::Reauthenticate),
            0x80 => Ok(Reason::UnspecifiedErr),
            0x81 => Ok(Reason::MalformedPacket),
            0x82 => Ok(Reason::ProtocolErr),
            0x83 => Ok(Reason::ImplementationErr),
            0x84 => Ok(Reason::UnsupportedProtocolVersion),
            0x85 => Ok(Reason::InvalidClientId),
            0x86 => Ok(Reason::AuthenticationErr),
            0x87 => Ok(Reason::Unauthorized),
            0x88 => Ok(Reason::ServerUnavailable),
            0x89 => Ok(Reason::ServerBusy),
            0x8a => Ok(Reason::Banned),
            0x8b => Ok(Reason::ServerShutdown),
            0x8c => Ok(Reason::AuthMethodErr),
            0x8d => Ok(Reason::KeepAliveTimeout),
            0x8e => Ok(Reason::SessionTakeOver),
            0x8f => Ok(Reason::InvalidTopicFilter),
            0x90 => Ok(Reason::InvalidTopicName),
            0x91 => Ok(Reason::PacketIdInUse),
            0x92 => Ok(Reason::PacketIdNotFound),
            0x93 => Ok(Reason::ReceiveMaxExceeded),
            0x94 => Ok(Reason::InvalidTopicAlias),
            0x95 => Ok(Reason::PacketTooLarge),
            0x96 => Ok(Reason::MessageRate),
            0x97 => Ok(Reason::QuotaExceeded),
            0x98 => Ok(Reason::AdminAction),
            0x99 => Ok(Reason::PayloadFormatErr),
            0x9a => Ok(Reason::RetainUnsupported),
            0x9b => Ok(Reason::QoSUnsupported),
            0x9c => Ok(Reason::UseDiffServer),
            0x9d => Ok(Reason::ServerMoved),
            0x9e => Ok(Reason::SharedSubUnsupported),
            0x9f => Ok(Reason::ConnRateExceeded),
            0xa0 => Ok(Reason::MaxConnectTime),
            0xa1 => Ok(Reason::SubIdUnsupported),
            0xa2 => Ok(Reason::WildcardSubUnsupported),
            _ => {
                assert(forall|x: Reason| reason_code(x) != value);
                Err(MQTTCodecError::new("invalid reason code"))
            },
        }
    }
}

impl Default for Reason {
    fn default() -> (r: Reason)
        ensures
            r == Reason::Success,
    {
        Reason::Success
    }
}

/// Quality of service of a publish: at most once, at least once, exactly once.
#[derive(Debug, PartialEq, Eq, Copy, Clone, Structural)]
pub enum QoSLevel {
    AtMostOnce,
    AtLeastOnce,
    ExactlyOnce,
}

/// The number of a QoS level on the wire.
pub open spec fn qos_code(q: QoSLevel) -> u8 {
    match q {
        QoSLevel::AtMostOnce => 0,
        QoSLevel::AtLeastOnce => 1,
        QoSLevel::ExactlyOnce => 2,
    }
}

impl QoSLevel {
    pub fn code(self) -> (r: u8)
        ensures
            r == qos_code(self),
    {
        match self {
            QoSLevel::AtMostOnce => 0,
            QoSLevel::AtLeastOnce => 1,
            QoSLevel::ExactlyOnce => 2,
        }
    }

    /// The level numbered `value`; only 0, 1 and 2 are levels.
    pub fn try_from(value: u8) -> (r: Result<QoSLevel, MQTTCodecError>)
        ensures
            r is Ok <==> value <= 2,
            r is Ok ==> qos_code(r->Ok_0) == value,
    {
        match value {
            0 => Ok(QoSLevel::AtMostOnce),
            1 => Ok(QoSLevel::AtLeastOnce),
            2 => Ok(QoSLevel::ExactlyOnce),
            _ => Err(MQTTCodecError::new("invalid QoS level")),
        }
    }
}

impl Default for QoSLevel {
    fn default() -> (r: QoSLevel)
        ensures
            r == QoSLevel::AtMostOnce,
    {
        QoSLevel::AtMostOnce
    }
}

// ---------------------------------------------------------------------------
// Variable byte integers
// ---------------------------------------------------------------------------

/// The encoding of `v`: seven bits per byte, least significant first, the high
/// bit set on every byte but the last.
pub open spec fn var_int_bytes(v: nat) -> Seq<u8>
    decreases v,
{
    if v < 128 {
        seq![v as u8]
    } else {
        seq![((v % 128) + 128) as u8] + var_int_bytes(v / 128)
    }
}

/// What reading a variable byte integer at the front of some bytes gives.
#[derive(Debug, PartialEq, Eq, Copy, Clone, Structural)]
pub enum VarIntRead {
    /// The value and the number of bytes it took.
    Value(u32, usize),
    /// The bytes end before the last byte of the integer.
    Incomplete,
    /// A fifth byte would be needed.
    Malformed,
}

/// Reads the variable byte integer at the front of `s`.
pub open spec fn spec_read_var_int(s: Seq<u8>) -> VarIntRead {
    if s.len() < 1 {
        VarIntRead::Incomplete
    } else if s[0] < 128 {
        VarIntRead::Value(s[0] as u32, 1)
    } else if s.len() < 2 {
        VarIntRead::Incomplete
    } else if s[1] < 128 {
        VarIntRead::Value((s[0] - 128 + 128 * s[1]) as u32, 2)
    } else if s.len() < 3 {
        VarIntRead::Incomplete
    } else if s[2] < 128 {
        VarIntRead::Value((s[0] - 128 + 128 * (s[1] - 128) + 16384 * s[2]) as u32, 3)
    } else if s.len() < 4 {
        VarIntRead::Incomplete
    } else if s[3] < 128 {
        VarIntRead::Value(
            (s[0] - 128 + 128 * (s[1] - 128) + 16384 * (s[2] - 128) + 2097152 * s[3]) as u32,
            4,
        )
    } else {
        VarIntRead::Malformed
    }
}

/// The number of bytes that the encoding of `v` takes.
pub open spec fn var_int_len(v: nat) -> nat {
    if v < 128 {
        1
    } else if v < 16384 {
        2
    } else if v < 2097152 {
        3
    } else {
        4
    }
}

pub proof fn lemma_var_int_len(v: nat)
    requires
        v <= MAX_VAR_INT,
    ensures
        var_int_bytes(v).len() == var_int_len(v),
{
    reveal_with_fuel(var_int_bytes, 5);
}

/// Reading back the encoding of an in-range value gives the value and the
/// encoding's length, whatever follows it; a strict prefix of the encoding
/// reads as incomplete.
pub proof fn lemma_var_int_round_trip(v: nat, rest: Seq<u8>)
    requires
        v <= MAX_VAR_INT,
    ensures
        spec_read_var_int(var_int_bytes(v) + rest) == VarIntRead::Value(
            v as u32,
            var_int_len(v) as usize,
        ),
        forall|k: int|
            0 <= k < var_int_len(v) ==> spec_read_var_int(#[trigger] var_int_bytes(v).subrange(0, k))
                == VarIntRead::Incomplete,
{
    reveal_with_fuel(var_int_bytes, 5);
    let s = var_int_bytes(v) + rest;
    let e = var_int_bytes(v);
    if v < 128 {
        assert(s[0] == v);
    } else if v < 16384 {
        assert(e[0] == v % 128 + 128);
        assert(e[1] == v / 128);
        assert(s[0] == e[0] && s[1] == e[1]);
    } else if v < 2097152 {
        assert(e[0] == v % 128 + 128);
        assert(e[1] == (v / 128) % 128 + 128);
        assert(e[2] == v / 16384) by {
            assert(v / 128 / 128 == v / 16384);
        }
        assert(s[0] == e[0] && s[1] == e[1] && s[2] == e[2]);
    } else {
        assert(e[0] == v % 128 + 128);
        assert(e[1] == (v / 128) % 128 + 128);
        assert(e[2] == (v / 16384) % 128 + 128) by {
            assert(v / 128 / 128 == v / 16384);
        }
        assert(e[3] == v / 2097152) by {
            assert(v / 128 / 128 == v / 16384);
            assert(v / 16384 / 128 == v / 2097152);
        }
        assert(s[0] == e[0] && s[1] == e[1] && s[2] == e[2] && s[3] == e[3]);
    }
    assert forall|k: int| 0 <= k < var_int_len(v) implies spec_read_var_int(
        #[trigger] e.subrange(0, k),
    ) == VarIntRead::Incomplete by {
        let p = e.subrange(0, k);
        assert(forall|i: int| 0 <= i < k ==> p[i] == e[i]);
    }
}

/// Returns the length of an encoded MQTT variable length unsigned int.
pub fn variable_byte_int_size(value: u32) -> (r: u32)
    ensures
        r == var_int_len(value as nat),
{
    if value < 128 {
        1
    } else if value < 16384 {
        2
    } else if value < 2097152 {
        3
    } else {
        4
    }
}

/// Reads the variable byte integer at the front of `s`.
pub fn read_var_int(s: &[u8]) -> (r: VarIntRead)
    ensures
        r == spec_read_var_int(s@),
{
    if s.len() < 1 {
        return VarIntRead::Incomplete;
    }
    let b0 = s[0];
    if b0 < 128 {
        return VarIntRead::Value(b0 as u32, 1);
    }
    if s.len() < 2 {
        return VarIntRead::Incomplete;
    }
    let b1 = s[1];
    let v1: u32 = (b0 - 128) as u32;
    if b1 < 128 {
        return VarIntRead::Value(v1 + 128 * (b1 as u32), 2);
    }
    if s.len() < 3 {
        return VarIntRead::Incomplete;
    }
    let b2 = s[2];
    let v2: u32 = v1 + 128 * ((b1 - 128) as u32);
    if b2 < 128 {
        return VarIntRead::Value(v2 + 16384 * (b2 as u32), 3);
    }
    if s.len() < 4 {
        return VarIntRead::Incomplete;
    }
    let b3 = s[3];
    let v3: u32 = v2 + 16384 * ((b2 - 128) as u32);
    if b3 < 128 {
        return VarIntRead::Value(v3 + 2097152 * (b3 as u32), 4);
    }
    VarIntRead::Malformed
}

/// Appends the encoding of `v` to `out`.
pub fn push_var_int(out: &mut Vec<u8>, v: u32)
    requires
        v <= MAX_VAR_INT,
    ensures
        final(out)@ == old(out)@ + var_int_bytes(v as nat),
{
    let ghost start = out@;
    let mut x: u32 = v;
    while x >= 128
        invariant
            out@ + var_int_bytes(x as nat) == start + var_int_bytes(v as nat),
        decreases x,
    {
        let b: u8 = ((x % 128) + 128) as u8;
        let ghost before = out@;
        out.push(b);
        assert(before + var_int_bytes(x as nat) =~= out@ + var_int_bytes((x / 128) as nat));
        x = x / 128;
    }
    let ghost before = out@;
    out.push(x as u8);
    assert(before + var_int_bytes(x as nat) =~= out@);
}

/// Appends the encoding of `val` to `dest`; values above 268,435,455 cannot be
/// encoded and leave `dest` as it was.
pub fn encode_variable_len_integer(val: u32, dest: &mut BytesMut) -> (r: Result<(), MQTTCodecError>)
    ensures
        r is Ok <==> val <= MAX_VAR_INT,
        r is Ok ==> buf_contents(*final(dest)) == buf_contents(*old(dest)) + var_int_bytes(
            val as nat,
        ),
        r is Err ==> buf_contents(*final(dest)) == buf_contents(*old(dest)),
{
    if val > MAX_VAR_INT {
        return Err(MQTTCodecError::new("variable byte integer out of range"));
    }
    let mut out: Vec<u8> = Vec::new();
    push_var_int(&mut out, val);
    assert(out@ =~= var_int_bytes(val as nat));
    dest.extend_from_slice(out.as_slice());
    Ok(())
}

/// Takes the complete variable byte integer at the front of `src` and returns
/// its value.
pub fn decode_variable_len_integer(src: &mut BytesMut) -> (r: u32)
    requires
        spec_read_var_int(buf_contents(*old(src))) is Value,
    ensures
        spec_read_var_int(buf_contents(*old(src))) == VarIntRead::Value(
            r,
            (buf_contents(*old(src)).len() - buf_contents(*final(src)).len()) as usize,
        ),
        buf_contents(*final(src)) == buf_contents(*old(src)).subrange(
            buf_contents(*old(src)).len() - buf_contents(*final(src)).len(),
            buf_contents(*old(src)).len() as int,
        ),
{
    let read = read_var_int(buf_bytes(src));
    match read {
        VarIntRead::Value(v, n) => {
            let _head = src.split_to(n);
            v
        },
        _ => 0,
    }
}

} // verus!
