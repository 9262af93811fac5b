//! Properties: typed optional fields of a packet, each named by a one-byte
//! identifier. A property block is a variable byte integer length followed by
//! the properties; a type other than user property and subscription identifier
//! may appear at most once in a block.

use crate::codec::{var_int_bytes, MQTTCodecError, MAX_FIELD_LEN, MAX_VAR_INT};
use crate::wire::{
    binary_field, bytes_to_vec, encode_binary_data, encode_utf8_string, fits_field, lemma_binary_round_trip,
    lemma_u16_round_trip, lemma_u32_round_trip, lemma_u8_round_trip, lemma_utf8_round_trip,
    lemma_var_int_take, push_bytes, push_u16, push_u32, rest_of, spec_take_binary,
    spec_take_u16, spec_take_u32, spec_take_u8, spec_take_utf8, spec_take_var_int, take_binary,
    take_u16, take_u32, take_u8, take_utf8, take_var_int, u16_bytes, u32_bytes, utf8_field,
};
use crate::codec::push_var_int;
use vstd::prelude::*;

verus! {

/// The identifier of a property.
#[derive(Debug, PartialEq, Eq, Copy, Clone, Structural)]
pub enum PropertyType {
    PayloadFormat,
    MessageExpiry,
    ContentType,
    ResponseTopic,
    CorrelationData,
    SubscriptionIdentifier,
    SessionExpiryInterval,
    AssignedClientId,
    KeepAlive,
    AuthMethod,
    AuthData,
    ReqProblemInfo,
    WillDelay,
    ReqRespInfo,
    RespInfo,
    ServerRef,
    Reason,
    RecvMax,
    TopicAliasMax,
    TopicAlias,
    MaxQoS,
    RetainAvail,
    UserProperty,
    MaxPacketSize,
    WildcardSubAvail,
    SubIdAvail,
    ShardSubAvail,
}

/// How the value of a property is written.
#[derive(Debug, PartialEq, Eq, Copy, Clone, Structural)]
pub enum ValueKind {
    Byte,
    TwoByte,
    FourByte,
    VarInt,
    Utf8,
    Binary,
    Pair,
}

/// The identifier byte of a property type.
pub open spec fn property_code(t: PropertyType) -> u8 {
    match t {
        PropertyType::PayloadFormat => 0x01,
        PropertyType::MessageExpiry => 0x02,
        PropertyType::ContentType => 0x03,
        PropertyType::ResponseTopic => 0x08,
        PropertyType::CorrelationData => 0x09,
        PropertyType::SubscriptionIdentifier => 0x0b,
        PropertyType::SessionExpiryInterval => 0x11,
        PropertyType::AssignedClientId => 0x12,
        PropertyType::KeepAlive => 0x13,
        PropertyType::AuthMethod => 0x15,
        PropertyType::AuthData => 0x16,
        PropertyType::ReqProblemInfo => 0x17,
        PropertyType::WillDelay => 0x18,
        PropertyType::ReqRespInfo => 0x19,
        PropertyType::RespInfo => 0x1a,
        PropertyType::ServerRef => 0x1c,
        PropertyType::Reason => 0x1f,
        PropertyType::RecvMax => 0x21,
        PropertyType::TopicAliasMax => 0x22,
        PropertyType::TopicAlias => 0x23,
        PropertyType::MaxQoS => 0x24,
        PropertyType::RetainAvail => 0x25,
        PropertyType::UserProperty => 0x26,
        PropertyType::MaxPacketSize => 0x27,
        PropertyType::WildcardSubAvail => 0x28,
        PropertyType::SubIdAvail => 0x29,
        PropertyType::ShardSubAvail => 0x2a,
    }
}

/// The property type whose identifier is `b`, if any.
pub open spec fn property_type_of(b: u8) -> Option<PropertyType> {
    if b == 0x01 {
        Some(PropertyType::PayloadFormat)
    } else if b == 0x02 {
        Some(PropertyType::MessageExpiry)
    } else if b == 0x03 {
        Some(PropertyType::ContentType)
    } else if b == 0x08 {
        Some(PropertyType::ResponseTopic)
    } else if b == 0x09 {
        Some(PropertyType::CorrelationData)
    } else if b == 0x0b {
        Some(PropertyType::SubscriptionIdentifier)
    } else if b == 0x11 {
        Some(PropertyType::SessionExpiryInterval)
    } else if b == 0x12 {
        Some(PropertyType::AssignedClientId)
    } else if b == 0x13 {
        Some(PropertyType::KeepAlive)
    } else if b == 0x15 {
        Some(PropertyType::AuthMethod)
    } else if b == 0x16 {
        Some(PropertyType::AuthData)
    } else if b == 0x17 {
        Some(PropertyType::ReqProblemInfo)
    } else if b == 0x18 {
        Some(PropertyType::WillDelay)
    } else if b == 0x19 {
        Some(PropertyType::ReqRespInfo)
    } else if b == 0x1a {
        Some(PropertyType::RespInfo)
    } else if b == 0x1c {
        Some(PropertyType::ServerRef)
    } else if b == 0x1f {
        Some(PropertyType::Reason)
    } else if b == 0x21 {
        Some(PropertyType::RecvMax)
    } else if b == 0x22 {
        Some(PropertyType::TopicAliasMax)
    } else if b == 0x23 {
        Some(PropertyType::TopicAlias)
    } else if b == 0x24 {
        Some(PropertyType::MaxQoS)
    } else if b == 0x25 {
        Some(PropertyType::RetainAvail)
    } else if b == 0x26 {
        Some(PropertyType::UserProperty)
    } else if b == 0x27 {
        Some(PropertyType::MaxPacketSize)
    } else if b == 0x28 {
        Some(PropertyType::WildcardSubAvail)
    } else if b == 0x29 {
        Some(PropertyType::SubIdAvail)
    } else if b == 0x2a {
        Some(PropertyType::ShardSubAvail)
    } else {
        None
    }
}

/// How the value of each property type is written.
pub open spec fn value_kind(t: PropertyType) -> ValueKind {
    match t {
        PropertyType::PayloadFormat => ValueKind::Byte,
        PropertyType::MessageExpiry => ValueKind::FourByte,
        PropertyType::ContentType => ValueKind::Utf8,
        PropertyType::ResponseTopic => ValueKind::Utf8,
        PropertyType::CorrelationData => ValueKind::Binary,
        PropertyType::SubscriptionIdentifier => ValueKind::VarInt,
        PropertyType::SessionExpiryInterval => ValueKind::FourByte,
        PropertyType::AssignedClientId => ValueKind::Utf8,
        PropertyType::KeepAlive => ValueKind::TwoByte,
        PropertyType::AuthMethod => ValueKind::Utf8,
        PropertyType::AuthData => ValueKind::Binary,
        PropertyType::ReqProblemInfo => ValueKind::Byte,
        PropertyType::WillDelay => ValueKind::FourByte,
        PropertyType::ReqRespInfo => ValueKind::Byte,
        PropertyType::RespInfo => ValueKind::Utf8,
        PropertyType::ServerRef => ValueKind::Utf8,
        PropertyType::Reason => ValueKind::Utf8,
        PropertyType::RecvMax => ValueKind::TwoByte,
        PropertyType::TopicAliasMax => ValueKind::TwoByte,
        PropertyType::TopicAlias => ValueKind::TwoByte,
        PropertyType::MaxQoS => ValueKind::Byte,
        PropertyType::RetainAvail => ValueKind::Byte,
        PropertyType::UserProperty => ValueKind::Pair,
        PropertyType::MaxPacketSize => ValueKind::FourByte,
        PropertyType::WildcardSubAvail => ValueKind::Byte,
        PropertyType::SubIdAvail => ValueKind::Byte,
        PropertyType::ShardSubAvail => ValueKind::Byte,
    }
}

/// Types that may appear more than once in a property block.
pub open spec fn repeatable(t: PropertyType) -> bool {
    t == PropertyType::UserProperty || t == PropertyType::SubscriptionIdentifier
}

pub proof fn lemma_property_code_round_trip(t: PropertyType)
    ensures
        property_type_of(property_code(t)) == Some(t),
{
}

impl PropertyType {
    /// The identifier byte of this property type.
    pub fn code(self) -> (r: u8)
        ensures
            r == property_code(self),
    {
        match self {
            PropertyType::PayloadFormat => 0x01,
            PropertyType::MessageExpiry => 0x02,
            PropertyType::ContentType => 0x03,
            PropertyType::ResponseTopic => 0x08,
            PropertyType::CorrelationData => 0x09,
            PropertyType::SubscriptionIdentifier => 0x0b,
            PropertyType::SessionExpiryInterval => 0x11,
            PropertyType::AssignedClientId => 0x12,
            PropertyType::KeepAlive => 0x13,
            PropertyType::AuthMethod => 0x15,
            PropertyType::AuthData => 0x16,
            PropertyType::ReqProblemInfo => 0x17,
            PropertyType::WillDelay => 0x18,
            PropertyType::ReqRespInfo => 0x19,
            PropertyType::RespInfo => 0x1a,
            PropertyType::ServerRef => 0x1c,
            PropertyType::Reason => 0x1f,
            PropertyType::RecvMax => 0x21,
            PropertyType::TopicAliasMax => 0x22,
            PropertyType::TopicAlias => 0x23,
            PropertyType::MaxQoS => 0x24,
            PropertyType::RetainAvail => 0x25,
            PropertyType::UserProperty => 0x26,
            PropertyType::MaxPacketSize => 0x27,
            PropertyType::WildcardSubAvail => 0x28,
            PropertyType::SubIdAvail => 0x29,
            PropertyType::ShardSubAvail => 0x2a,
        }
    }

    /// The property type whose identifier is `b`.
    pub fn from_code(b: u8) -> (r: Option<PropertyType>)
        ensures
            r == property_type_of(b),
    {
        if b == 0x01 {
            Some(PropertyType::PayloadFormat)
        } else if b == 0x02 {
            Some(PropertyType::MessageExpiry)
        } else if b == 0x03 {
            Some(PropertyType::ContentType)
        } else if b == 0x08 {
            Some(PropertyType::ResponseTopic)
        } else if b == 0x09 {
            Some(PropertyType::CorrelationData)
        } else if b == 0x0b {
            Some(PropertyType::SubscriptionIdentifier)
        } else if b == 0x11 {
            Some(PropertyType::SessionExpiryInterval)
        } else if b == 0x12 {
            Some(PropertyType::AssignedClientId)
        } else if b == 0x13 {
            Some(PropertyType::KeepAlive)
        } else if b == 0x15 {
            Some(PropertyType::AuthMethod)
        } else if b == 0x16 {
            Some(PropertyType::AuthData)
        } else if b == 0x17 {
            Some(PropertyType::ReqProblemInfo)
        } else if b == 0x18 {
            Some(PropertyType::WillDelay)
        } else if b == 0x19 {
            Some(PropertyType::ReqRespInfo)
        } else if b == 0x1a {
            Some(PropertyType::RespInfo)
        } else if b == 0x1c {
            Some(PropertyType::ServerRef)
        } else if b == 0x1f {
            Some(PropertyType::Reason)
        } else if b == 0x21 {
            Some(PropertyType::RecvMax)
        } else if b == 0x22 {
            Some(PropertyType::TopicAliasMax)
        } else if b == 0x23 {
            Some(PropertyType::TopicAlias)
        } else if b == 0x24 {
            Some(PropertyType::MaxQoS)
        } else if b == 0x25 {
            Some(PropertyType::RetainAvail)
        } else if b == 0x26 {
            Some(PropertyType::UserProperty)
        } else if b == 0x27 {
            Some(PropertyType::MaxPacketSize)
        } else if b == 0x28 {
            Some(PropertyType::WildcardSubAvail)
        } else if b == 0x29 {
            Some(PropertyType::SubIdAvail)
        } else if b == 0x2a {
            Some(PropertyType::ShardSubAvail)
        } else {
            None
        }
    }

    /// How a value of this type is written.
    pub fn kind(self) -> (r: ValueKind)
        ensures
            r == value_kind(self),
    {
        match self {
            PropertyType::PayloadFormat => ValueKind::Byte,
            PropertyType::MessageExpiry => ValueKind::FourByte,
            PropertyType::ContentType => ValueKind::Utf8,
            PropertyType::ResponseTopic => ValueKind::Utf8,
            PropertyType::CorrelationData => ValueKind::Binary,
            PropertyType::SubscriptionIdentifier => ValueKind::VarInt,
            PropertyType::SessionExpiryInterval => ValueKind::FourByte,
            PropertyType::AssignedClientId => ValueKind::Utf8,
            PropertyType::KeepAlive => ValueKind::TwoByte,
            PropertyType::AuthMethod => ValueKind::Utf8,
            PropertyType::AuthData => ValueKind::Binary,
            PropertyType::ReqProblemInfo => ValueKind::Byte,
            PropertyType::WillDelay => ValueKind::FourByte,
            PropertyType::ReqRespInfo => ValueKind::Byte,
            PropertyType::RespInfo => ValueKind::Utf8,
            PropertyType::ServerRef => ValueKind::Utf8,
            PropertyType::Reason => ValueKind::Utf8,
            PropertyType::RecvMax => ValueKind::TwoByte,
            PropertyType::TopicAliasMax => ValueKind::TwoByte,
            PropertyType::TopicAlias => ValueKind::TwoByte,
            PropertyType::MaxQoS => ValueKind::Byte,
            PropertyType::RetainAvail => ValueKind::Byte,
            PropertyType::UserProperty => ValueKind::Pair,
            PropertyType::MaxPacketSize => ValueKind::FourByte,
            PropertyType::WildcardSubAvail => ValueKind::Byte,
            PropertyType::SubIdAvail => ValueKind::Byte,
            PropertyType::ShardSubAvail => ValueKind::Byte,
        }
    }

    /// Whether this type may appear more than once in a block.
    pub fn is_repeatable(self) -> (r: bool)
        ensures
            r == repeatable(self),
    {
        match self {
            PropertyType::UserProperty => true,
            PropertyType::SubscriptionIdentifier => true,
            _ => false,
        }
    }
}

/// The value of a property.
#[derive(Debug, Clone, PartialEq, Eq)]
pub enum PropertyValue {
    Byte(u8),
    TwoByte(u16),
    FourByte(u32),
    VarInt(u32),
    Utf8(String),
    Binary(Vec<u8>),
    Pair(String, String),
}

/// The mathematical value of a property: strings as characters.
pub enum ValueModel {
    Byte(u8),
    TwoByte(u16),
    FourByte(u32),
    VarInt(u32),
    Utf8(Seq<char>),
    Binary(Seq<u8>),
    Pair(Seq<char>, Seq<char>),
}

impl View for PropertyValue {
    type V = ValueModel;

    open spec fn view(&self) -> ValueModel {
        match self {
            PropertyValue::Byte(b) => ValueModel::Byte(*b),
            PropertyValue::TwoByte(v) => ValueModel::TwoByte(*v),
            PropertyValue::FourByte(v) => ValueModel::FourByte(*v),
            PropertyValue::VarInt(v) => ValueModel::VarInt(*v),
            PropertyValue::Utf8(s) => ValueModel::Utf8(s@),
            PropertyValue::Binary(b) => ValueModel::Binary(b@),
            PropertyValue::Pair(k, v) => ValueModel::Pair(k@, v@),
        }
    }
}

/// A property: its type and its value.
#[derive(Debug, Clone, PartialEq, Eq)]
pub struct Property {
    pub ptype: PropertyType,
    pub value: PropertyValue,
}

pub struct PropertyModel {
    pub ptype: PropertyType,
    pub value: ValueModel,
}

impl View for Property {
    type V = PropertyModel;

    open spec fn view(&self) -> PropertyModel {
        PropertyModel { ptype: self.ptype, value: self.value@ }
    }
}

impl Property {
    pub fn new(ptype: PropertyType, value: PropertyValue) -> (r: Property)
        ensures
            r.ptype == ptype,
            r.value == value,
    {
        Property { ptype, value }
    }
}

/// The models of a list of properties.
pub open spec fn props_view(v: Seq<Property>) -> Seq<PropertyModel> {
    Seq::new(v.len(), |i: int| v[i]@)
}

/// Whether a value is written the way `k` says.
pub open spec fn value_has_kind(v: ValueModel, k: ValueKind) -> bool {
    match v {
        ValueModel::Byte(_) => k == ValueKind::Byte,
        ValueModel::TwoByte(_) => k == ValueKind::TwoByte,
        ValueModel::FourByte(_) => k == ValueKind::FourByte,
        ValueModel::VarInt(_) => k == ValueKind::VarInt,
        ValueModel::Utf8(_) => k == ValueKind::Utf8,
        ValueModel::Binary(_) => k == ValueKind::Binary,
        ValueModel::Pair(_, _) => k == ValueKind::Pair,
    }
}

/// Whether a value fits its encoding.
pub open spec fn value_fits(v: ValueModel) -> bool {
    match v {
        ValueModel::VarInt(x) => x <= MAX_VAR_INT,
        ValueModel::Utf8(c) => fits_field(c),
        ValueModel::Binary(b) => b.len() <= MAX_FIELD_LEN,
        ValueModel::Pair(k, x) => fits_field(k) && fits_field(x),
        _ => true,
    }
}

/// A property that can be written: its value has its type's kind and fits.
pub open spec fn property_wf(p: PropertyModel) -> bool {
    value_has_kind(p.value, value_kind(p.ptype)) && value_fits(p.value)
}

pub open spec fn value_bytes(v: ValueModel) -> Seq<u8> {
    match v {
        ValueModel::Byte(b) => seq![b],
        ValueModel::TwoByte(x) => u16_bytes(x),
        ValueModel::FourByte(x) => u32_bytes(x),
        ValueModel::VarInt(x) => var_int_bytes(x as nat),
        ValueModel::Utf8(c) => utf8_field(c),
        ValueModel::Binary(b) => binary_field(b),
        ValueModel::Pair(k, x) => utf8_field(k) + utf8_field(x),
    }
}

/// A property on the wire: its identifier byte, then its value.
pub open spec fn property_bytes(p: PropertyModel) -> Seq<u8> {
    seq![property_code(p.ptype)] + value_bytes(p.value)
}

/// The properties of a list, one after the other.
pub open spec fn props_bytes(ps: Seq<PropertyModel>) -> Seq<u8>
    decreases ps.len(),
{
    if ps.len() == 0 {
        Seq::empty()
    } else {
        property_bytes(ps[0]) + props_bytes(ps.subrange(1, ps.len() as int))
    }
}

/// No type but a repeatable one appears twice.
pub open spec fn props_unique(ps: Seq<PropertyModel>) -> bool {
    forall|i: int, j: int|
        0 <= i < j < ps.len() && #[trigger] ps[i].ptype == #[trigger] ps[j].ptype ==> repeatable(
            ps[i].ptype,
        )
}

/// A list of properties that can be written as a block.
pub open spec fn props_wf(ps: Seq<PropertyModel>) -> bool {
    &&& forall|i: int| 0 <= i < ps.len() ==> property_wf(#[trigger] ps[i])
    &&& props_unique(ps)
    &&& props_bytes(ps).len() <= MAX_VAR_INT
}

/// A property block: the length of the properties, then the properties.
pub open spec fn props_block(ps: Seq<PropertyModel>) -> Seq<u8> {
    var_int_bytes(props_bytes(ps).len()) + props_bytes(ps)
}

pub open spec fn spec_take_value(k: ValueKind, s: Seq<u8>) -> Option<(ValueModel, Seq<u8>)> {
    match k {
        ValueKind::Byte => match spec_take_u8(s) {
            Some((b, r)) => Some((ValueModel::Byte(b), r)),
            None => None,
        },
        ValueKind::TwoByte => match spec_take_u16(s) {
            Some((x, r)) => Some((ValueModel::TwoByte(x), r)),
            None => None,
        },
        ValueKind::FourByte => match spec_take_u32(s) {
            Some((x, r)) => Some((ValueModel::FourByte(x), r)),
            None => None,
        },
        ValueKind::VarInt => match spec_take_var_int(s) {
            Some((x, r)) => Some((ValueModel::VarInt(x), r)),
            None => None,
        },
        ValueKind::Utf8 => match spec_take_utf8(s) {
            Some((c, r)) => Some((ValueModel::Utf8(c), r)),
            None => None,
        },
        ValueKind::Binary => match spec_take_binary(s) {
            Some((b, r)) => Some((ValueModel::Binary(b), r)),
            None => None,
        },
        ValueKind::Pair => match spec_take_utf8(s) {
            Some((key, r)) => match spec_take_utf8(r) {
                Some((v, r2)) => Some((ValueModel::Pair(key, v), r2)),
                None => None,
            },
            None => None,
        },
    }
}

pub open spec fn spec_take_property(s: Seq<u8>) -> Option<(PropertyModel, Seq<u8>)> {
    match spec_take_u8(s) {
        Some((id, r)) => match property_type_of(id) {
            Some(t) => match spec_take_value(value_kind(t), r) {
                Some((v, r2)) => Some((PropertyModel { ptype: t, value: v }, r2)),
                None => None,
            },
            None => None,
        },
        None => None,
    }
}

/// Reads properties until the bytes are used up.
pub open spec fn spec_take_list(s: Seq<u8>) -> Option<Seq<PropertyModel>>
    decreases s.len(),
{
    if s.len() == 0 {
        Some(Seq::empty())
    } else {
        match spec_take_property(s) {
            Some((p, r)) => if r.len() < s.len() {
                match spec_take_list(r) {
                    Some(l) => Some(seq![p] + l),
                    None => None,
                }
            } else {
                None
            },
            None => None,
        }
    }
}

/// Reads a property block; a repeated single-valued type is an error.
pub open spec fn spec_take_properties(s: Seq<u8>) -> Option<(Seq<PropertyModel>, Seq<u8>)> {
    match spec_take_var_int(s) {
        Some((n, r)) => if r.len() >= n {
            match spec_take_list(r.subrange(0, n as int)) {
                Some(ps) => if props_unique(ps) {
                    Some((ps, rest_of(r, n as int)))
                } else {
                    None
                },
                None => None,
            }
        } else {
            None
        },
        None => None,
    }
}

pub proof fn lemma_value_round_trip(v: ValueModel, k: ValueKind, rest: Seq<u8>)
    requires
        value_has_kind(v, k),
        value_fits(v),
    ensures
        spec_take_value(k, value_bytes(v) + rest) == Some((v, rest)),
{
    match v {
        ValueModel::Byte(b) => lemma_u8_round_trip(b, rest),
        ValueModel::TwoByte(x) => lemma_u16_round_trip(x, rest),
        ValueModel::FourByte(x) => lemma_u32_round_trip(x, rest),
        ValueModel::VarInt(x) => lemma_var_int_take(x, rest),
        ValueModel::Utf8(c) => lemma_utf8_round_trip(c, rest),
        ValueModel::Binary(b) => lemma_binary_round_trip(b, rest),
        ValueModel::Pair(key, x) => {
            assert(value_bytes(v) + rest =~= utf8_field(key) + (utf8_field(x) + rest));
            lemma_utf8_round_trip(key, utf8_field(x) + rest);
            lemma_utf8_round_trip(x, rest);
        },
    }
}

pub proof fn lemma_property_round_trip(p: PropertyModel, rest: Seq<u8>)
    requires
        property_wf(p),
    ensures
        spec_take_property(property_bytes(p) + rest) == Some((p, rest)),
{
    let s = property_bytes(p) + rest;
    assert(s =~= seq![property_code(p.ptype)] + (value_bytes(p.value) + rest));
    lemma_u8_round_trip(property_code(p.ptype), value_bytes(p.value) + rest);
    lemma_property_code_round_trip(p.ptype);
    lemma_value_round_trip(p.value, value_kind(p.ptype), rest);
}

pub proof fn lemma_list_round_trip(ps: Seq<PropertyModel>)
    requires
        forall|i: int| 0 <= i < ps.len() ==> property_wf(#[trigger] ps[i]),
    ensures
        spec_take_list(props_bytes(ps)) == Some(ps),
    decreases ps.len(),
{
    if ps.len() > 0 {
        let tail = ps.subrange(1, ps.len() as int);
        assert(forall|i: int| 0 <= i < tail.len() ==> tail[i] == ps[i + 1]);
        lemma_list_round_trip(tail);
        lemma_property_round_trip(ps[0], props_bytes(tail));
        assert(seq![ps[0]] + tail =~= ps);
    } else {
        assert(props_bytes(ps) =~= Seq::<u8>::empty());
    }
}

pub proof fn lemma_properties_round_trip(ps: Seq<PropertyModel>, rest: Seq<u8>)
    requires
        props_wf(ps),
    ensures
        spec_take_properties(props_block(ps) + rest) == Some((ps, rest)),
{
    let b = props_bytes(ps);
    assert(props_block(ps) + rest =~= var_int_bytes(b.len()) + (b + rest));
    lemma_var_int_take(b.len() as u32, b + rest);
    assert((b + rest).subrange(0, b.len() as int) =~= b);
    assert(rest_of(b + rest, b.len() as int) =~= rest);
    lemma_list_round_trip(ps);
}

proof fn lemma_props_bytes_push(ps: Seq<PropertyModel>, p: PropertyModel)
    ensures
        props_bytes(ps.push(p)) == props_bytes(ps) + property_bytes(p),
    decreases ps.len(),
{
    if ps.len() == 0 {
        let e = Seq::<PropertyModel>::empty();
        assert(ps.push(p).subrange(1, 1) =~= e);
        assert(props_bytes(e) == Seq::<u8>::empty());
        assert(props_bytes(ps) == Seq::<u8>::empty());
        assert(props_bytes(ps.push(p)) == property_bytes(p) + props_bytes(e));
        assert(props_bytes(ps.push(p)) =~= props_bytes(ps) + property_bytes(p));
    } else {
        let tail = ps.subrange(1, ps.len() as int);
        lemma_props_bytes_push(tail, p);
        assert(ps.push(p).subrange(1, ps.len() as int + 1) =~= tail.push(p));
        assert(props_bytes(ps.push(p)) =~= props_bytes(ps) + property_bytes(p));
    }
}

// ---------------------------------------------------------------------------
// Writing
// ---------------------------------------------------------------------------

fn encode_value(v: &PropertyValue, out: &mut Vec<u8>) -> (r: Result<(), MQTTCodecError>)
    ensures
        r is Ok <==> value_fits(v@),
        r is Ok ==> final(out)@ == old(out)@ + value_bytes(v@),
{
    match v {
        PropertyValue::Byte(b) => {
            out.push(*b);
            Ok(())
        },
        PropertyValue::TwoByte(x) => {
            push_u16(out, *x);
            Ok(())
        },
        PropertyValue::FourByte(x) => {
            push_u32(out, *x);
            Ok(())
        },
        PropertyValue::VarInt(x) => {
            if *x > MAX_VAR_INT {
                return Err(MQTTCodecError::new("variable byte integer out of range"));
            }
            push_var_int(out, *x);
            Ok(())
        },
        PropertyValue::Utf8(s) => encode_utf8_string(s.as_str(), out),
        PropertyValue::Binary(b) => encode_binary_data(b.as_slice(), out),
        PropertyValue::Pair(k, x) => {
            encode_utf8_string(k.as_str(), out)?;
            let r = encode_utf8_string(x.as_str(), out);
            assert(r is Ok ==> out@ =~= old(out)@ + value_bytes(v@));
            r
        },
    }
}

/// Appends one property; a value of the wrong kind or too large is an error.
pub fn encode_property(p: &Property, out: &mut Vec<u8>) -> (r: Result<(), MQTTCodecError>)
    ensures
        r is Ok <==> property_wf(p@),
        r is Ok ==> final(out)@ == old(out)@ + property_bytes(p@),
{
    if p.ptype.kind() != value_kind_of(&p.value) {
        return Err(MQTTCodecError::new("property value of the wrong kind"));
    }
    out.push(p.ptype.code());
    let r = encode_value(&p.value, out);
    assert(r is Ok ==> out@ =~= old(out)@ + property_bytes(p@));
    r
}

fn value_kind_of(v: &PropertyValue) -> (r: ValueKind)
    ensures
        value_has_kind(v@, r),
{
    match v {
        PropertyValue::Byte(_) => ValueKind::Byte,
        PropertyValue::TwoByte(_) => ValueKind::TwoByte,
        PropertyValue::FourByte(_) => ValueKind::FourByte,
        PropertyValue::VarInt(_) => ValueKind::VarInt,
        PropertyValue::Utf8(_) => ValueKind::Utf8,
        PropertyValue::Binary(_) => ValueKind::Binary,
        PropertyValue::Pair(_, _) => ValueKind::Pair,
    }
}

/// Records `property` among the single-valued types seen so far; seeing it a
/// second time is an error.
pub fn check_property(property: PropertyType, properties: &mut Vec<PropertyType>) -> (r: Result<
    (),
    MQTTCodecError,
>)
    ensures
        r is Ok <==> !old(properties)@.contains(property),
        r is Ok ==> final(properties)@ == old(properties)@.push(property),
        r is Err ==> final(properties)@ == old(properties)@,
{
    let mut i: usize = 0;
    while i < properties.len()
        invariant
            i <= properties@.len(),
            forall|j: int| 0 <= j < i ==> properties@[j] != property,
        decreases properties@.len() - i,
    {
        if properties[i] == property {
            return Err(MQTTCodecError::new("property already set"));
        }
        i = i + 1;
    }
    properties.push(property);
    Ok(())
}

/// Checks that no single-valued type appears twice.
pub fn check_unique(ps: &Vec<Property>) -> (r: Result<(), MQTTCodecError>)
    ensures
        r is Ok <==> props_unique(props_view(ps@)),
{
    let ghost v = props_view(ps@);
    let mut seen: Vec<PropertyType> = Vec::new();
    let mut i: usize = 0;
    while i < ps.len()
        invariant
            i <= ps@.len(),
            v == props_view(ps@),
            forall|t: PropertyType|
                #[trigger] seen@.contains(t) ==> !repeatable(t) && exists|j: int|
                    0 <= j < i && v[j].ptype == t,
            forall|j: int|
                0 <= j < i && !repeatable(#[trigger] v[j].ptype) ==> seen@.contains(v[j].ptype),
            forall|a: int, b: int|
                0 <= a < b < i && #[trigger] v[a].ptype == #[trigger] v[b].ptype ==> repeatable(
                    v[a].ptype,
                ),
        decreases ps@.len() - i,
    {
        let t = ps[i].ptype;
        assert(v[i as int].ptype == t);
        let ghost old_seen = seen@;
        if !t.is_repeatable() {
            let r = check_property(t, &mut seen);
            if r.is_err() {
                let ghost j = choose|j: int| 0 <= j < i && v[j].ptype == t;
                assert(v[j].ptype == v[i as int].ptype);
                return Err(MQTTCodecError::new("property already set"));
            }
            proof {
                assert forall|x: PropertyType| #[trigger] seen@.contains(x) implies old_seen.contains(
                    x,
                ) || x == t by {
                    let k = choose|k: int| 0 <= k < seen@.len() && seen@[k] == x;
                    if k < old_seen.len() {
                        assert(old_seen[k] == x);
                    }
                }
                assert(seen@[old_seen.len() as int] == t);
                assert forall|x: PropertyType| old_seen.contains(x) implies #[trigger] seen@.contains(
                    x,
                ) by {
                    let k = choose|k: int| 0 <= k < old_seen.len() && old_seen[k] == x;
                    assert(seen@[k] == x);
                }
            }
        }
        i = i + 1;
    }
    Ok(())
}

/// Appends the properties of a list, one after the other, without the
/// length that opens a block; an ill-formed property is an error.
pub fn encode_property_list(ps: &Vec<Property>, out: &mut Vec<u8>) -> (r: Result<(), MQTTCodecError>)
    ensures
        r is Ok <==> forall|j: int| 0 <= j < ps@.len() ==> property_wf(#[trigger] props_view(ps@)[j]),
        r is Ok ==> final(out)@ == old(out)@ + props_bytes(props_view(ps@)),
{
    let ghost v = props_view(ps@);
    let ghost start = out@;
    let mut i: usize = 0;
    assert(v.subrange(0, 0) =~= Seq::<PropertyModel>::empty());
    assert(start + props_bytes(v.subrange(0, 0)) =~= start);
    while i < ps.len()
        invariant
            i <= ps@.len(),
            v == props_view(ps@),
            out@ == start + props_bytes(v.subrange(0, i as int)),
            forall|j: int| 0 <= j < i ==> property_wf(#[trigger] v[j]),
        decreases ps@.len() - i,
    {
        let ghost before = out@;
        let r = encode_property(&ps[i], out);
        if r.is_err() {
            assert(!property_wf(v[i as int]));
            return Err(MQTTCodecError::new("invalid property"));
        }
        proof {
            lemma_props_bytes_push(v.subrange(0, i as int), v[i as int]);
            assert(v.subrange(0, i as int).push(v[i as int]) =~= v.subrange(0, i + 1));
            assert(out@ =~= start + props_bytes(v.subrange(0, i + 1)));
        }
        i = i + 1;
    }
    assert(v.subrange(0, i as int) =~= v);
    Ok(())
}

/// Appends a property block; an ill-formed property, a repeated single-valued
/// type or a block too long to measure is an error.
pub fn encode_properties(ps: &Vec<Property>, out: &mut Vec<u8>) -> (r: Result<(), MQTTCodecError>)
    ensures
        r is Ok <==> props_wf(props_view(ps@)),
        r is Ok ==> final(out)@ == old(out)@ + props_block(props_view(ps@)),
{
    let ghost v = props_view(ps@);
    check_unique(ps)?;
    let mut body: Vec<u8> = Vec::new();
    encode_property_list(ps, &mut body)?;
    assert(body@ =~= props_bytes(v));
    if body.len() > MAX_VAR_INT as usize {
        return Err(MQTTCodecError::new("properties too long"));
    }
    push_var_int(out, body.len() as u32);
    push_bytes(out, body.as_slice());
    assert(out@ =~= old(out)@ + props_block(v));
    Ok(())
}

// ---------------------------------------------------------------------------
// Reading
// ---------------------------------------------------------------------------

fn take_value(k: ValueKind, s: &[u8]) -> (r: Option<(PropertyValue, &[u8])>)
    ensures
        match r {
            Some((v, rest)) => spec_take_value(k, s@) == Some((v@, rest@)),
            None => spec_take_value(k, s@) is None,
        },
{
    match k {
        ValueKind::Byte => match take_u8(s) {
            Some((b, r)) => Some((PropertyValue::Byte(b), r)),
            None => None,
        },
        ValueKind::TwoByte => match take_u16(s) {
            Some((x, r)) => Some((PropertyValue::TwoByte(x), r)),
            None => None,
        },
        ValueKind::FourByte => match take_u32(s) {
            Some((x, r)) => Some((PropertyValue::FourByte(x), r)),
            None => None,
        },
        ValueKind::VarInt => match take_var_int(s) {
            Some((x, r)) => Some((PropertyValue::VarInt(x), r)),
            None => None,
        },
        ValueKind::Utf8 => match take_utf8(s) {
            Some((c, r)) => Some((PropertyValue::Utf8(c), r)),
            None => None,
        },
        ValueKind::Binary => match take_binary(s) {
            Some((b, r)) => Some((PropertyValue::Binary(bytes_to_vec(b)), r)),
            None => None,
        },
        ValueKind::Pair => match take_utf8(s) {
            Some((key, r)) => match take_utf8(r) {
                Some((x, r2)) => Some((PropertyValue::Pair(key, x), r2)),
                None => None,
            },
            None => None,
        },
    }
}

pub fn take_property(s: &[u8]) -> (r: Option<(Property, &[u8])>)
    ensures
        match r {
            Some((p, rest)) => spec_take_property(s@) == Some((p@, rest@)),
            None => spec_take_property(s@) is None,
        },
{
    match take_u8(s) {
        Some((id, r)) => match PropertyType::from_code(id) {
            Some(t) => match take_value(t.kind(), r) {
                Some((v, r2)) => Some((Property { ptype: t, value: v }, r2)),
                None => None,
            },
            None => None,
        },
        None => None,
    }
}

pub open spec fn prepend_list(
    acc: Seq<PropertyModel>,
    o: Option<Seq<PropertyModel>>,
) -> Option<Seq<PropertyModel>> {
    match o {
        Some(l) => Some(acc + l),
        None => None,
    }
}

fn take_list(s: &[u8]) -> (r: Option<Vec<Property>>)
    ensures
        match r {
            Some(ps) => spec_take_list(s@) == Some(props_view(ps@)),
            None => spec_take_list(s@) is None,
        },
{
    let mut acc: Vec<Property> = Vec::new();
    let mut cur: &[u8] = s;
    assert(props_view(acc@) + Seq::<PropertyModel>::empty() =~= Seq::<PropertyModel>::empty());
    assert(prepend_list(props_view(acc@), spec_take_list(cur@)) == spec_take_list(s@)) by {
        match spec_take_list(s@) {
            Some(l) => assert(props_view(acc@) + l =~= l),
            None => {},
        }
    }
    while cur.len() > 0
        invariant
            spec_take_list(s@) == prepend_list(props_view(acc@), spec_take_list(cur@)),
        decreases cur@.len(),
    {
        match take_property(cur) {
            Some((p, r)) => {
                if r.len() >= cur.len() {
                    return None;
                }
                let ghost old_acc = props_view(acc@);
                let ghost pv = p@;
                acc.push(p);
                assert(props_view(acc@) =~= old_acc.push(pv));
                proof {
                    match spec_take_list(r@) {
                        Some(l) => {
                            assert(old_acc + (seq![pv] + l) =~= old_acc.push(pv) + l);
                        },
                        None => {},
                    }
                }
                cur = r;
            },
            None => {
                return None;
            },
        }
    }
    assert(props_view(acc@) + Seq::<PropertyModel>::empty() =~= props_view(acc@));
    Some(acc)
}

/// Reads a property block at the front of `s`.
pub fn take_properties(s: &[u8]) -> (r: Option<(Vec<Property>, &[u8])>)
    ensures
        match r {
            Some((ps, rest)) => spec_take_properties(s@) == Some((props_view(ps@), rest@)),
            None => spec_take_properties(s@) is None,
        },
{
    match take_var_int(s) {
        Some((n, r)) => {
            let n = n as usize;
            if r.len() < n {
                return None;
            }
            match take_list(&r[0..n]) {
                Some(ps) => {
                    if check_unique(&ps).is_err() {
                        return None;
                    }
                    Some((ps, &r[n..r.len()]))
                },
                None => None,
            }
        },
        None => None,
    }
}

} // verus!
