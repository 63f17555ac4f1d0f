//! The typed property store of MQTT 5 packets.
//!
//! A property list is an ordered sequence of (identifier, typed value)
//! pairs. Order is preserved and wire-significant. Identifiers may repeat
//! only for user properties. Each packet type admits a fixed set of
//! identifiers; [`PropertyList::add`] enforces that set and the
//! no-duplicate rule, and the codec at the bottom of this file carries the
//! list to and from its wire shape: a variable-length total byte count
//! followed by the encoded pairs.

#![allow(non_camel_case_types)]

use vstd::prelude::*;
use crate::wire::utf8_ok;

use crate::types::{ClientError, PacketKind};
use crate::varint::{varint_encode, varint_parse, SpecParse, VARINT_MAX};
use crate::varint::{decode_varint, encode_varint, lemma_varint_parse_bounds, VarintResult};
use crate::wire::{enc_bin, enc_u16, enc_u32, take_bin, take_str, take_u16, take_u32, take_u8};
use crate::wire::{read_bin, read_str, read_u16, read_u32, read_u8, utf8_check, write_bin,
    write_u16, write_u32};

verus! {

/// MQTT 5 property identifier.
#[derive(Debug, Clone, Copy, PartialEq, Eq, Structural)]
pub enum mqtt5_property {
    PayloadFormatIndicator,
    MessageExpiryInterval,
    ContentType,
    ResponseTopic,
    CorrelationData,
    SubscriptionIdentifier,
    SessionExpiryInterval,
    AssignedClientIdentifier,
    ServerKeepAlive,
    AuthenticationMethod,
    AuthenticationData,
    RequestProblemInformation,
    WillDelayInterval,
    RequestResponseInformation,
    ResponseInformation,
    ServerReference,
    ReasonString,
    ReceiveMaximum,
    TopicAliasMaximum,
    TopicAlias,
    MaximumQos,
    RetainAvailable,
    UserProperty,
    MaximumPacketSize,
    WildcardSubAvailable,
    SubscriptionIdAvailable,
    SharedSubAvailable,
}

/// The wire type a property value can carry.
#[derive(Debug, Clone, Copy, PartialEq, Eq, Structural)]
pub enum mqtt5_property_type {
    Byte,
    Int16,
    Int32,
    Varint,
    Binary,
    Utf8String,
    StringPair,
}

impl mqtt5_property {
    /// The identifier's wire value; every identifier fits one byte.
    pub open spec fn spec_byte(self) -> u8 {
        match self {
            mqtt5_property::PayloadFormatIndicator => 1,
            mqtt5_property::MessageExpiryInterval => 2,
            mqtt5_property::ContentType => 3,
            mqtt5_property::ResponseTopic => 8,
            mqtt5_property::CorrelationData => 9,
            mqtt5_property::SubscriptionIdentifier => 11,
            mqtt5_property::SessionExpiryInterval => 17,
            mqtt5_property::AssignedClientIdentifier => 18,
            mqtt5_property::ServerKeepAlive => 19,
            mqtt5_property::AuthenticationMethod => 21,
            mqtt5_property::AuthenticationData => 22,
            mqtt5_property::RequestProblemInformation => 23,
            mqtt5_property::WillDelayInterval => 24,
            mqtt5_property::RequestResponseInformation => 25,
            mqtt5_property::ResponseInformation => 26,
            mqtt5_property::ServerReference => 28,
            mqtt5_property::ReasonString => 31,
            mqtt5_property::ReceiveMaximum => 33,
            mqtt5_property::TopicAliasMaximum => 34,
            mqtt5_property::TopicAlias => 35,
            mqtt5_property::MaximumQos => 36,
            mqtt5_property::RetainAvailable => 37,
            mqtt5_property::UserProperty => 38,
            mqtt5_property::MaximumPacketSize => 39,
            mqtt5_property::WildcardSubAvailable => 40,
            mqtt5_property::SubscriptionIdAvailable => 41,
            mqtt5_property::SharedSubAvailable => 42,
        }
    }

    /// Executable form of [`mqtt5_property::spec_byte`].
    pub fn to_byte(self) -> (r: u8)
        ensures
            r == self.spec_byte(),
    {
        match self {
            mqtt5_property::PayloadFormatIndicator => 1,
            mqtt5_property::MessageExpiryInterval => 2,
            mqtt5_property::ContentType => 3,
            mqtt5_property::ResponseTopic => 8,
            mqtt5_property::CorrelationData => 9,
            mqtt5_property::SubscriptionIdentifier => 11,
            mqtt5_property::SessionExpiryInterval => 17,
            mqtt5_property::AssignedClientIdentifier => 18,
            mqtt5_property::ServerKeepAlive => 19,
            mqtt5_property::AuthenticationMethod => 21,
            mqtt5_property::AuthenticationData => 22,
            mqtt5_property::RequestProblemInformation => 23,
            mqtt5_property::WillDelayInterval => 24,
            mqtt5_property::RequestResponseInformation => 25,
            mqtt5_property::ResponseInformation => 26,
            mqtt5_property::ServerReference => 28,
            mqtt5_property::ReasonString => 31,
            mqtt5_property::ReceiveMaximum => 33,
            mqtt5_property::TopicAliasMaximum => 34,
            mqtt5_property::TopicAlias => 35,
            mqtt5_property::MaximumQos => 36,
            mqtt5_property::RetainAvailable => 37,
            mqtt5_property::UserProperty => 38,
            mqtt5_property::MaximumPacketSize => 39,
            mqtt5_property::WildcardSubAvailable => 40,
            mqtt5_property::SubscriptionIdAvailable => 41,
            mqtt5_property::SharedSubAvailable => 42,
        }
    }

    /// The identifier a wire byte names, if any.
    pub open spec fn spec_from_byte(b: u8) -> Option<mqtt5_property> {
        match b {
            1u8 => Some(mqtt5_property::PayloadFormatIndicator),
            2u8 => Some(mqtt5_property::MessageExpiryInterval),
            3u8 => Some(mqtt5_property::ContentType),
            8u8 => Some(mqtt5_property::ResponseTopic),
            9u8 => Some(mqtt5_property::CorrelationData),
            11u8 => Some(mqtt5_property::SubscriptionIdentifier),
            17u8 => Some(mqtt5_property::SessionExpiryInterval),
            18u8 => Some(mqtt5_property::AssignedClientIdentifier),
            19u8 => Some(mqtt5_property::ServerKeepAlive),
            21u8 => Some(mqtt5_property::AuthenticationMethod),
            22u8 => Some(mqtt5_property::AuthenticationData),
            23u8 => Some(mqtt5_property::RequestProblemInformation),
            24u8 => Some(mqtt5_property::WillDelayInterval),
            25u8 => Some(mqtt5_property::RequestResponseInformation),
            26u8 => Some(mqtt5_property::ResponseInformation),
            28u8 => Some(mqtt5_property::ServerReference),
            31u8 => Some(mqtt5_property::ReasonString),
            33u8 => Some(mqtt5_property::ReceiveMaximum),
            34u8 => Some(mqtt5_property::TopicAliasMaximum),
            35u8 => Some(mqtt5_property::TopicAlias),
            36u8 => Some(mqtt5_property::MaximumQos),
            37u8 => Some(mqtt5_property::RetainAvailable),
            38u8 => Some(mqtt5_property::UserProperty),
            39u8 => Some(mqtt5_property::MaximumPacketSize),
            40u8 => Some(mqtt5_property::WildcardSubAvailable),
            41u8 => Some(mqtt5_property::SubscriptionIdAvailable),
            42u8 => Some(mqtt5_property::SharedSubAvailable),
            _ => None,
        }
    }

    /// Executable form of [`mqtt5_property::spec_from_byte`].
    pub fn from_byte(b: u8) -> (r: Option<mqtt5_property>)
        ensures
            r == mqtt5_property::spec_from_byte(b),
    {
        match b {
            1 => Some(mqtt5_property::PayloadFormatIndicator),
            2 => Some(mqtt5_property::MessageExpiryInterval),
            3 => Some(mqtt5_property::ContentType),
            8 => Some(mqtt5_property::ResponseTopic),
            9 => Some(mqtt5_property::CorrelationData),
            11 => Some(mqtt5_property::SubscriptionIdentifier),
            17 => Some(mqtt5_property::SessionExpiryInterval),
            18 => Some(mqtt5_property::AssignedClientIdentifier),
            19 => Some(mqtt5_property::ServerKeepAlive),
            21 => Some(mqtt5_property::AuthenticationMethod),
            22 => Some(mqtt5_property::AuthenticationData),
            23 => Some(mqtt5_property::RequestProblemInformation),
            24 => Some(mqtt5_property::WillDelayInterval),
            25 => Some(mqtt5_property::RequestResponseInformation),
            26 => Some(mqtt5_property::ResponseInformation),
            28 => Some(mqtt5_property::ServerReference),
            31 => Some(mqtt5_property::ReasonString),
            33 => Some(mqtt5_property::ReceiveMaximum),
            34 => Some(mqtt5_property::TopicAliasMaximum),
            35 => Some(mqtt5_property::TopicAlias),
            36 => Some(mqtt5_property::MaximumQos),
            37 => Some(mqtt5_property::RetainAvailable),
            38 => Some(mqtt5_property::UserProperty),
            39 => Some(mqtt5_property::MaximumPacketSize),
            40 => Some(mqtt5_property::WildcardSubAvailable),
            41 => Some(mqtt5_property::SubscriptionIdAvailable),
            42 => Some(mqtt5_property::SharedSubAvailable),
            _ => None,
        }
    }

    /// The wire type of each identifier's value.
    pub open spec fn spec_type(self) -> mqtt5_property_type {
        match self {
            mqtt5_property::PayloadFormatIndicator => mqtt5_property_type::Byte,
            mqtt5_property::RequestProblemInformation => mqtt5_property_type::Byte,
            mqtt5_property::RequestResponseInformation => mqtt5_property_type::Byte,
            mqtt5_property::MaximumQos => mqtt5_property_type::Byte,
            mqtt5_property::RetainAvailable => mqtt5_property_type::Byte,
            mqtt5_property::WildcardSubAvailable => mqtt5_property_type::Byte,
            mqtt5_property::SubscriptionIdAvailable => mqtt5_property_type::Byte,
            mqtt5_property::SharedSubAvailable => mqtt5_property_type::Byte,
            mqtt5_property::ServerKeepAlive => mqtt5_property_type::Int16,
            mqtt5_property::ReceiveMaximum => mqtt5_property_type::Int16,
            mqtt5_property::TopicAliasMaximum => mqtt5_property_type::Int16,
            mqtt5_property::TopicAlias => mqtt5_property_type::Int16,
            mqtt5_property::MessageExpiryInterval => mqtt5_property_type::Int32,
            mqtt5_property::SessionExpiryInterval => mqtt5_property_type::Int32,
            mqtt5_property::WillDelayInterval => mqtt5_property_type::Int32,
            mqtt5_property::MaximumPacketSize => mqtt5_property_type::Int32,
            mqtt5_property::SubscriptionIdentifier => mqtt5_property_type::Varint,
            mqtt5_property::CorrelationData => mqtt5_property_type::Binary,
            mqtt5_property::AuthenticationData => mqtt5_property_type::Binary,
            mqtt5_property::ContentType => mqtt5_property_type::Utf8String,
            mqtt5_property::ResponseTopic => mqtt5_property_type::Utf8String,
            mqtt5_property::AssignedClientIdentifier => mqtt5_property_type::Utf8String,
            mqtt5_property::AuthenticationMethod => mqtt5_property_type::Utf8String,
            mqtt5_property::ResponseInformation => mqtt5_property_type::Utf8String,
            mqtt5_property::ServerReference => mqtt5_property_type::Utf8String,
            mqtt5_property::ReasonString => mqtt5_property_type::Utf8String,
            mqtt5_property::UserProperty => mqtt5_property_type::StringPair,
        }
    }

    /// Executable form of [`mqtt5_property::spec_type`].
    pub fn wire_type(self) -> (r: mqtt5_property_type)
        ensures
            r == self.spec_type(),
    {
        match self {
            mqtt5_property::PayloadFormatIndicator => mqtt5_property_type::Byte,
            mqtt5_property::RequestProblemInformation => mqtt5_property_type::Byte,
            mqtt5_property::RequestResponseInformation => mqtt5_property_type::Byte,
            mqtt5_property::MaximumQos => mqtt5_property_type::Byte,
            mqtt5_property::RetainAvailable => mqtt5_property_type::Byte,
            mqtt5_property::WildcardSubAvailable => mqtt5_property_type::Byte,
            mqtt5_property::SubscriptionIdAvailable => mqtt5_property_type::Byte,
            mqtt5_property::SharedSubAvailable => mqtt5_property_type::Byte,
            mqtt5_property::ServerKeepAlive => mqtt5_property_type::Int16,
            mqtt5_property::ReceiveMaximum => mqtt5_property_type::Int16,
            mqtt5_property::TopicAliasMaximum => mqtt5_property_type::Int16,
            mqtt5_property::TopicAlias => mqtt5_property_type::Int16,
            mqtt5_property::MessageExpiryInterval => mqtt5_property_type::Int32,
            mqtt5_property::SessionExpiryInterval => mqtt5_property_type::Int32,
            mqtt5_property::WillDelayInterval => mqtt5_property_type::Int32,
            mqtt5_property::MaximumPacketSize => mqtt5_property_type::Int32,
            mqtt5_property::SubscriptionIdentifier => mqtt5_property_type::Varint,
            mqtt5_property::CorrelationData => mqtt5_property_type::Binary,
            mqtt5_property::AuthenticationData => mqtt5_property_type::Binary,
            mqtt5_property::ContentType => mqtt5_property_type::Utf8String,
            mqtt5_property::ResponseTopic => mqtt5_property_type::Utf8String,
            mqtt5_property::AssignedClientIdentifier => mqtt5_property_type::Utf8String,
            mqtt5_property::AuthenticationMethod => mqtt5_property_type::Utf8String,
            mqtt5_property::ResponseInformation => mqtt5_property_type::Utf8String,
            mqtt5_property::ServerReference => mqtt5_property_type::Utf8String,
            mqtt5_property::ReasonString => mqtt5_property_type::Utf8String,
            mqtt5_property::UserProperty => mqtt5_property_type::StringPair,
        }
    }

    /// Whether the identifier may appear more than once in one list.
    pub open spec fn spec_repeatable(self) -> bool {
        self == mqtt5_property::UserProperty
    }

    /// Executable form of [`mqtt5_property::spec_repeatable`].
    pub fn repeatable(self) -> (r: bool)
        ensures
            r == self.spec_repeatable(),
    {
        match self {
            mqtt5_property::UserProperty => true,
            _ => false,
        }
    }

    /// Whether the identifier is allowed on packets of kind `kind`.
    pub open spec fn spec_allowed(self, kind: PacketKind) -> bool {
        match self {
            mqtt5_property::PayloadFormatIndicator => kind == PacketKind::Publish || kind
                == PacketKind::Will,
            mqtt5_property::MessageExpiryInterval => kind == PacketKind::Publish || kind
                == PacketKind::Will,
            mqtt5_property::ContentType => kind == PacketKind::Publish || kind == PacketKind::Will,
            mqtt5_property::ResponseTopic => kind == PacketKind::Publish || kind
                == PacketKind::Will,
            mqtt5_property::CorrelationData => kind == PacketKind::Publish || kind
                == PacketKind::Will,
            mqtt5_property::SubscriptionIdentifier => kind == PacketKind::Publish || kind
                == PacketKind::Subscribe,
            mqtt5_property::SessionExpiryInterval => kind == PacketKind::Connect || kind
                == PacketKind::Connack || kind == PacketKind::Disconnect,
            mqtt5_property::AssignedClientIdentifier => kind == PacketKind::Connack,
            mqtt5_property::ServerKeepAlive => kind == PacketKind::Connack,
            mqtt5_property::AuthenticationMethod => kind == PacketKind::Connect || kind
                == PacketKind::Connack || kind == PacketKind::Auth,
            mqtt5_property::AuthenticationData => kind == PacketKind::Connect || kind
                == PacketKind::Connack || kind == PacketKind::Auth,
            mqtt5_property::RequestProblemInformation => kind == PacketKind::Connect,
            mqtt5_property::WillDelayInterval => kind == PacketKind::Will,
            mqtt5_property::RequestResponseInformation => kind == PacketKind::Connect,
            mqtt5_property::ResponseInformation => kind == PacketKind::Connack,
            mqtt5_property::ServerReference => kind == PacketKind::Connack || kind
                == PacketKind::Disconnect,
            mqtt5_property::ReasonString => kind == PacketKind::Connack || kind
                == PacketKind::Puback || kind == PacketKind::Pubrec || kind == PacketKind::Pubrel
                || kind == PacketKind::Pubcomp || kind == PacketKind::Suback || kind
                == PacketKind::Unsuback || kind == PacketKind::Disconnect || kind
                == PacketKind::Auth,
            mqtt5_property::ReceiveMaximum => kind == PacketKind::Connect || kind
                == PacketKind::Connack,
            mqtt5_property::TopicAliasMaximum => kind == PacketKind::Connect || kind
                == PacketKind::Connack,
            mqtt5_property::TopicAlias => kind == PacketKind::Publish,
            mqtt5_property::MaximumQos => kind == PacketKind::Connack,
            mqtt5_property::RetainAvailable => kind == PacketKind::Connack,
            mqtt5_property::UserProperty => kind != PacketKind::Pingreq && kind
                != PacketKind::Pingresp,
            mqtt5_property::MaximumPacketSize => kind == PacketKind::Connect || kind
                == PacketKind::Connack,
            mqtt5_property::WildcardSubAvailable => kind == PacketKind::Connack,
            mqtt5_property::SubscriptionIdAvailable => kind == PacketKind::Connack,
            mqtt5_property::SharedSubAvailable => kind == PacketKind::Connack,
        }
    }

    /// Executable form of [`mqtt5_property::spec_allowed`].
    pub fn allowed(self, kind: PacketKind) -> (r: bool)
        ensures
            r == self.spec_allowed(kind),
    {
        match self {
            mqtt5_property::PayloadFormatIndicator => kind == PacketKind::Publish || kind
                == PacketKind::Will,
            mqtt5_property::MessageExpiryInterval => kind == PacketKind::Publish || kind
                == PacketKind::Will,
            mqtt5_property::ContentType => kind == PacketKind::Publish || kind == PacketKind::Will,
            mqtt5_property::ResponseTopic => kind == PacketKind::Publish || kind
                == PacketKind::Will,
            mqtt5_property::CorrelationData => kind == PacketKind::Publish || kind
                == PacketKind::Will,
            mqtt5_property::SubscriptionIdentifier => kind == PacketKind::Publish || kind
                == PacketKind::Subscribe,
            mqtt5_property::SessionExpiryInterval => kind == PacketKind::Connect || kind
                == PacketKind::Connack || kind == PacketKind::Disconnect,
            mqtt5_property::AssignedClientIdentifier => kind == PacketKind::Connack,
            mqtt5_property::ServerKeepAlive => kind == PacketKind::Connack,
            mqtt5_property::AuthenticationMethod => kind == PacketKind::Connect || kind
                == PacketKind::Connack || kind == PacketKind::Auth,
            mqtt5_property::AuthenticationData => kind == PacketKind::Connect || kind
                == PacketKind::Connack || kind == PacketKind::Auth,
            mqtt5_property::RequestProblemInformation => kind == PacketKind::Connect,
            mqtt5_property::WillDelayInterval => kind == PacketKind::Will,
            mqtt5_property::RequestResponseInformation => kind == PacketKind::Connect,
            mqtt5_property::ResponseInformation => kind == PacketKind::Connack,
            mqtt5_property::ServerReference => kind == PacketKind::Connack || kind
                == PacketKind::Disconnect,
            mqtt5_property::ReasonString => kind == PacketKind::Connack || kind
                == PacketKind::Puback || kind == PacketKind::Pubrec || kind == PacketKind::Pubrel
                || kind == PacketKind::Pubcomp || kind == PacketKind::Suback || kind
                == PacketKind::Unsuback || kind == PacketKind::Disconnect || kind
                == PacketKind::Auth,
            mqtt5_property::ReceiveMaximum => kind == PacketKind::Connect || kind
                == PacketKind::Connack,
            mqtt5_property::TopicAliasMaximum => kind == PacketKind::Connect || kind
                == PacketKind::Connack,
            mqtt5_property::TopicAlias => kind == PacketKind::Publish,
            mqtt5_property::MaximumQos => kind == PacketKind::Connack,
            mqtt5_property::RetainAvailable => kind == PacketKind::Connack,
            mqtt5_property::UserProperty => kind != PacketKind::Pingreq && kind
                != PacketKind::Pingresp,
            mqtt5_property::MaximumPacketSize => kind == PacketKind::Connect || kind
                == PacketKind::Connack,
            mqtt5_property::WildcardSubAvailable => kind == PacketKind::Connack,
            mqtt5_property::SubscriptionIdAvailable => kind == PacketKind::Connack,
            mqtt5_property::SharedSubAvailable => kind == PacketKind::Connack,
        }
    }
}

/// Typed value of a property, as carried in a packet.
#[derive(Debug, Clone, PartialEq, Eq)]
pub enum PropertyValue {
    Byte(u8),
    U16(u16),
    U32(u32),
    VarInt(u32),
    Binary(Vec<u8>),
    Utf8(Vec<u8>),
    Pair(Vec<u8>, Vec<u8>),
}

/// Mathematical model of a [`PropertyValue`]: byte payloads as sequences.
pub enum PropertyValueV {
    Byte(u8),
    U16(u16),
    U32(u32),
    VarInt(u32),
    Binary(Seq<u8>),
    Utf8(Seq<u8>),
    Pair(Seq<u8>, Seq<u8>),
}

impl View for PropertyValue {
    type V = PropertyValueV;

    open spec fn view(&self) -> PropertyValueV {
        match self {
            PropertyValue::Byte(b) => PropertyValueV::Byte(*b),
            PropertyValue::U16(x) => PropertyValueV::U16(*x),
            PropertyValue::U32(x) => PropertyValueV::U32(*x),
            PropertyValue::VarInt(x) => PropertyValueV::VarInt(*x),
            PropertyValue::Binary(b) => PropertyValueV::Binary(b@),
            PropertyValue::Utf8(s) => PropertyValueV::Utf8(s@),
            PropertyValue::Pair(k, v) => PropertyValueV::Pair(k@, v@),
        }
    }
}

impl PropertyValueV {
    /// The wire type this value belongs to.
    pub open spec fn kind(self) -> mqtt5_property_type {
        match self {
            PropertyValueV::Byte(_) => mqtt5_property_type::Byte,
            PropertyValueV::U16(_) => mqtt5_property_type::Int16,
            PropertyValueV::U32(_) => mqtt5_property_type::Int32,
            PropertyValueV::VarInt(_) => mqtt5_property_type::Varint,
            PropertyValueV::Binary(_) => mqtt5_property_type::Binary,
            PropertyValueV::Utf8(_) => mqtt5_property_type::Utf8String,
            PropertyValueV::Pair(_, _) => mqtt5_property_type::StringPair,
        }
    }

    /// Whether the value fits its wire shape: length prefixes fit sixteen
    /// bits, strings are UTF-8, variable-length integers are in range.
    pub open spec fn wf(self) -> bool {
        match self {
            PropertyValueV::Byte(_) => true,
            PropertyValueV::U16(_) => true,
            PropertyValueV::U32(_) => true,
            PropertyValueV::VarInt(x) => x <= VARINT_MAX,
            PropertyValueV::Binary(b) => b.len() <= 65535,
            PropertyValueV::Utf8(s) => s.len() <= 65535 && utf8_ok(s),
            PropertyValueV::Pair(k, v) => k.len() <= 65535 && utf8_ok(k) && v.len() <= 65535
                && utf8_ok(v),
        }
    }
}

impl PropertyValue {
    /// Executable form of [`PropertyValueV::kind`].
    pub fn kind(&self) -> (r: mqtt5_property_type)
        ensures
            r == self@.kind(),
    {
        match self {
            PropertyValue::Byte(_) => mqtt5_property_type::Byte,
            PropertyValue::U16(_) => mqtt5_property_type::Int16,
            PropertyValue::U32(_) => mqtt5_property_type::Int32,
            PropertyValue::VarInt(_) => mqtt5_property_type::Varint,
            PropertyValue::Binary(_) => mqtt5_property_type::Binary,
            PropertyValue::Utf8(_) => mqtt5_property_type::Utf8String,
            PropertyValue::Pair(_, _) => mqtt5_property_type::StringPair,
        }
    }

    /// Executable form of [`PropertyValueV::wf`].
    pub fn check_wf(&self) -> (r: bool)
        ensures
            r == self@.wf(),
    {
        match self {
            PropertyValue::Byte(_) => true,
            PropertyValue::U16(_) => true,
            PropertyValue::U32(_) => true,
            PropertyValue::VarInt(x) => *x <= VARINT_MAX,
            PropertyValue::Binary(b) => b.len() <= 65535,
            PropertyValue::Utf8(s) => s.len() <= 65535 && utf8_check(s.as_slice()),
            PropertyValue::Pair(k, v) => k.len() <= 65535 && utf8_check(k.as_slice()) && v.len()
                <= 65535 && utf8_check(v.as_slice()),
        }
    }
}

/// One (identifier, value) entry of a property list.
#[derive(Debug, Clone, PartialEq, Eq)]
pub struct Property {
    pub id: mqtt5_property,
    pub value: PropertyValue,
}

/// Mathematical model of a [`Property`].
pub struct PropertyV {
    pub id: mqtt5_property,
    pub value: PropertyValueV,
}

impl View for Property {
    type V = PropertyV;

    open spec fn view(&self) -> PropertyV {
        PropertyV { id: self.id, value: self.value@ }
    }
}

impl PropertyV {
    /// A well-formed entry: the value is well formed and of the
    /// identifier's wire type.
    pub open spec fn wf(self) -> bool {
        self.value.wf() && self.value.kind() == self.id.spec_type()
    }
}

/// The views of a sequence of entries.
pub open spec fn prop_views(entries: Seq<Property>) -> Seq<PropertyV> {
    entries.map_values(|p: Property| p@)
}

/// Every entry is well formed.
pub open spec fn props_wf(ps: Seq<PropertyV>) -> bool {
    forall|i: int| 0 <= i < ps.len() ==> (#[trigger] ps[i]).wf()
}

/// Every entry's identifier is allowed on packets of kind `kind`.
pub open spec fn props_allowed(ps: Seq<PropertyV>, kind: PacketKind) -> bool {
    forall|i: int| 0 <= i < ps.len() ==> (#[trigger] ps[i]).id.spec_allowed(kind)
}

/// Whether some entry carries the identifier `id`.
pub open spec fn has_prop(ps: Seq<PropertyV>, id: mqtt5_property) -> bool {
    exists|i: int| 0 <= i < ps.len() && (#[trigger] ps[i]).id == id
}

/// The first entry carrying `id`, scanning left to right.
pub open spec fn find_prop(ps: Seq<PropertyV>, id: mqtt5_property) -> Option<PropertyV>
    decreases ps.len(),
{
    if ps.len() == 0 {
        None
    } else if ps[0].id == id {
        Some(ps[0])
    } else {
        find_prop(ps.skip(1), id)
    }
}

/// No identifier repeats unless it is repeatable.
pub open spec fn props_no_dup(ps: Seq<PropertyV>) -> bool {
    forall|i: int, j: int|
        0 <= i < j < ps.len() && (#[trigger] ps[i]).id == (#[trigger] ps[j]).id
            ==> ps[i].id.spec_repeatable()
}

/// Wire bytes of one value, by its type.
pub open spec fn enc_value(v: PropertyValueV) -> Seq<u8> {
    match v {
        PropertyValueV::Byte(b) => seq![b],
        PropertyValueV::U16(x) => enc_u16(x),
        PropertyValueV::U32(x) => enc_u32(x),
        PropertyValueV::VarInt(x) => varint_encode(x as nat),
        PropertyValueV::Binary(b) => enc_bin(b),
        PropertyValueV::Utf8(s) => enc_bin(s),
        PropertyValueV::Pair(k, v) => enc_bin(k) + enc_bin(v),
    }
}

/// Parses one value of wire type `t`.
pub open spec fn take_value(s: Seq<u8>, t: mqtt5_property_type) -> Option<(PropertyValueV, int)> {
    match t {
        mqtt5_property_type::Byte => match take_u8(s) {
            Some((b, n)) => Some((PropertyValueV::Byte(b), n)),
            None => None,
        },
        mqtt5_property_type::Int16 => match take_u16(s) {
            Some((x, n)) => Some((PropertyValueV::U16(x), n)),
            None => None,
        },
        mqtt5_property_type::Int32 => match take_u32(s) {
            Some((x, n)) => Some((PropertyValueV::U32(x), n)),
            None => None,
        },
        mqtt5_property_type::Varint => match varint_parse(s) {
            SpecParse::Found(v, n) => Some((PropertyValueV::VarInt(v as u32), n)),
            SpecParse::Incomplete => None,
            SpecParse::Malformed => None,
        },
        mqtt5_property_type::Binary => match take_bin(s) {
            Some((b, n)) => Some((PropertyValueV::Binary(b), n)),
            None => None,
        },
        mqtt5_property_type::Utf8String => match take_str(s) {
            Some((b, n)) => Some((PropertyValueV::Utf8(b), n)),
            None => None,
        },
        mqtt5_property_type::StringPair => match take_str(s) {
            Some((k, n)) => match take_str(s.skip(n)) {
                Some((v, m)) => Some((PropertyValueV::Pair(k, v), n + m)),
                None => None,
            },
            None => None,
        },
    }
}

proof fn lemma_value_round_trip_byte(b: u8, rest: Seq<u8>)
    ensures
        take_value(enc_value(PropertyValueV::Byte(b)) + rest, mqtt5_property_type::Byte) == Some(
            (PropertyValueV::Byte(b), enc_value(PropertyValueV::Byte(b)).len() as int),
        ),
{
    let s = enc_value(PropertyValueV::Byte(b)) + rest;
    assert(s[0] == b);
}

proof fn lemma_value_round_trip_u16(x: u16, rest: Seq<u8>)
    ensures
        take_value(enc_value(PropertyValueV::U16(x)) + rest, mqtt5_property_type::Int16) == Some(
            (PropertyValueV::U16(x), enc_value(PropertyValueV::U16(x)).len() as int),
        ),
{
    crate::wire::lemma_u16_round_trip(x, rest);
}

proof fn lemma_value_round_trip_u32(x: u32, rest: Seq<u8>)
    ensures
        take_value(enc_value(PropertyValueV::U32(x)) + rest, mqtt5_property_type::Int32) == Some(
            (PropertyValueV::U32(x), enc_value(PropertyValueV::U32(x)).len() as int),
        ),
{
    crate::wire::lemma_u32_round_trip(x, rest);
}

proof fn lemma_value_round_trip_varint(x: u32, rest: Seq<u8>)
    requires
        x <= VARINT_MAX,
    ensures
        take_value(enc_value(PropertyValueV::VarInt(x)) + rest, mqtt5_property_type::Varint)
            == Some((PropertyValueV::VarInt(x), enc_value(PropertyValueV::VarInt(x)).len() as int)),
{
    crate::varint::lemma_varint_round_trip(x as nat, rest);
}

proof fn lemma_value_round_trip_binary(b: Seq<u8>, rest: Seq<u8>)
    requires
        b.len() <= 65535,
    ensures
        take_value(enc_value(PropertyValueV::Binary(b)) + rest, mqtt5_property_type::Binary)
            == Some((PropertyValueV::Binary(b), enc_value(PropertyValueV::Binary(b)).len() as int)),
{
    crate::wire::lemma_bin_round_trip(b, rest);
}

#[verifier::rlimit(50)]
proof fn lemma_value_round_trip_utf8(b: Seq<u8>, rest: Seq<u8>)
    requires
        b.len() <= 65535,
        utf8_ok(b),
    ensures
        take_value(enc_value(PropertyValueV::Utf8(b)) + rest, mqtt5_property_type::Utf8String)
            == Some((PropertyValueV::Utf8(b), enc_value(PropertyValueV::Utf8(b)).len() as int)),
{
    let e = enc_value(PropertyValueV::Utf8(b));
    assert(e == enc_bin(b));
    crate::wire::lemma_str_round_trip(b, rest);
    assert(take_str(enc_bin(b) + rest) == Some((b, 2 + b.len() as int)));
    assert(e.len() == 2 + b.len());
    assert(take_value(e + rest, mqtt5_property_type::Utf8String) == Some(
        (PropertyValueV::Utf8(b), e.len() as int),
    ));
}

#[verifier::rlimit(50)]
proof fn lemma_value_round_trip_pair(k: Seq<u8>, v2: Seq<u8>, rest: Seq<u8>)
    requires
        k.len() <= 65535,
        utf8_ok(k),
        v2.len() <= 65535,
        utf8_ok(v2),
    ensures
        take_value(enc_value(PropertyValueV::Pair(k, v2)) + rest, mqtt5_property_type::StringPair)
            == Some(
            (PropertyValueV::Pair(k, v2), enc_value(PropertyValueV::Pair(k, v2)).len() as int),
        ),
{
    let e = enc_value(PropertyValueV::Pair(k, v2));
    assert(e == enc_bin(k) + enc_bin(v2));
    let s = e + rest;
    assert(s =~= enc_bin(k) + (enc_bin(v2) + rest));
    crate::wire::lemma_str_round_trip(k, enc_bin(v2) + rest);
    let n = 2 + k.len() as int;
    assert(take_str(s) == Some((k, n)));
    assert(s.skip(n) =~= enc_bin(v2) + rest);
    crate::wire::lemma_str_round_trip(v2, rest);
    let m = 2 + v2.len() as int;
    assert(take_str(s.skip(n)) == Some((v2, m)));
    assert(e.len() == n + m);
    assert(take_value(s, mqtt5_property_type::StringPair) == Some(
        (PropertyValueV::Pair(k, v2), e.len() as int),
    ));
}

/// Round trip for one value.
pub proof fn lemma_value_round_trip(v: PropertyValueV, rest: Seq<u8>)
    requires
        v.wf(),
    ensures
        take_value(enc_value(v) + rest, v.kind()) == Some((v, enc_value(v).len() as int)),
{
    match v {
        PropertyValueV::Byte(b) => lemma_value_round_trip_byte(b, rest),
        PropertyValueV::U16(x) => lemma_value_round_trip_u16(x, rest),
        PropertyValueV::U32(x) => lemma_value_round_trip_u32(x, rest),
        PropertyValueV::VarInt(x) => lemma_value_round_trip_varint(x, rest),
        PropertyValueV::Binary(b) => lemma_value_round_trip_binary(b, rest),
        PropertyValueV::Utf8(b) => lemma_value_round_trip_utf8(b, rest),
        PropertyValueV::Pair(k, v2) => lemma_value_round_trip_pair(k, v2, rest),
    }
}

/// Wire bytes of one entry: the identifier byte then the value.
pub open spec fn enc_prop(p: PropertyV) -> Seq<u8> {
    seq![p.id.spec_byte()] + enc_value(p.value)
}

/// Parses one entry, checking the identifier against `kind`.
pub open spec fn take_prop(s: Seq<u8>, kind: PacketKind) -> Option<(PropertyV, int)> {
    match take_u8(s) {
        Some((b, _)) => match mqtt5_property::spec_from_byte(b) {
            Some(id) => if id.spec_allowed(kind) {
                match take_value(s.skip(1), id.spec_type()) {
                    Some((v, n)) => Some((PropertyV { id, value: v }, 1 + n)),
                    None => None,
                }
            } else {
                None
            },
            None => None,
        },
        None => None,
    }
}

/// Encoding then decoding an identifier byte gives the identifier back.
pub proof fn lemma_prop_byte_inverse(id: mqtt5_property)
    ensures
        mqtt5_property::spec_from_byte(id.spec_byte()) == Some(id),
{
}

/// Round trip for one entry.
pub proof fn lemma_prop_round_trip(p: PropertyV, kind: PacketKind, rest: Seq<u8>)
    requires
        p.wf(),
        p.id.spec_allowed(kind),
    ensures
        take_prop(enc_prop(p) + rest, kind) == Some((p, enc_prop(p).len() as int)),
{
    let s = enc_prop(p) + rest;
    assert(s[0] == p.id.spec_byte());
    lemma_prop_byte_inverse(p.id);
    assert(s.skip(1) =~= enc_value(p.value) + rest);
    lemma_value_round_trip(p.value, rest);
}

/// Wire bytes of a sequence of entries, in order.
pub open spec fn enc_props(ps: Seq<PropertyV>) -> Seq<u8>
    decreases ps.len(),
{
    if ps.len() == 0 {
        Seq::empty()
    } else {
        enc_prop(ps[0]) + enc_props(ps.skip(1))
    }
}

/// Parses entries until the input is exhausted.
pub open spec fn take_props(s: Seq<u8>, kind: PacketKind) -> Option<Seq<PropertyV>>
    decreases s.len(),
{
    if s.len() == 0 {
        Some(Seq::empty())
    } else {
        match take_prop(s, kind) {
            Some((p, n)) => if 0 < n <= s.len() {
                match take_props(s.skip(n), kind) {
                    Some(ps) => Some(seq![p] + ps),
                    None => None,
                }
            } else {
                None
            },
            None => None,
        }
    }
}

/// Round trip for a sequence of entries.
pub proof fn lemma_props_round_trip(ps: Seq<PropertyV>, kind: PacketKind)
    requires
        props_wf(ps),
        props_allowed(ps, kind),
    ensures
        take_props(enc_props(ps), kind) == Some(ps),
    decreases ps.len(),
{
    if ps.len() == 0 {
        assert(enc_props(ps).len() == 0);
        assert(take_props(enc_props(ps), kind) == Some(Seq::<PropertyV>::empty()));
        assert(ps =~= Seq::<PropertyV>::empty());
    } else {
        let head = ps[0];
        let tail = ps.skip(1);
        let s = enc_props(ps);
        assert(s =~= enc_prop(head) + enc_props(tail));
        lemma_prop_round_trip(head, kind, enc_props(tail));
        let n = enc_prop(head).len() as int;
        assert(n >= 1);
        assert(s.skip(n) =~= enc_props(tail));
        assert(props_wf(tail) && props_allowed(tail, kind)) by {
            assert(forall|i: int| 0 <= i < tail.len() ==> tail[i] == ps[i + 1]);
        }
        lemma_props_round_trip(tail, kind);
        assert(seq![head] + tail =~= ps);
    }
}

/// Wire bytes of a whole property block: the total byte count of the
/// entries as a variable-length integer, then the entries.
pub open spec fn enc_prop_block(ps: Seq<PropertyV>) -> Seq<u8>
    recommends
        enc_props(ps).len() <= VARINT_MAX,
{
    varint_encode(enc_props(ps).len()) + enc_props(ps)
}

/// Parses a property block: a length, that many bytes of entries.
pub open spec fn take_prop_block(s: Seq<u8>, kind: PacketKind) -> Option<(Seq<PropertyV>, int)> {
    match varint_parse(s) {
        SpecParse::Found(len, n) => if n + len <= s.len() {
            match take_props(s.subrange(n, n + len), kind) {
                Some(ps) => Some((ps, n + len)),
                None => None,
            }
        } else {
            None
        },
        SpecParse::Incomplete => None,
        SpecParse::Malformed => None,
    }
}

/// Appending one entry appends its encoding.
pub proof fn lemma_enc_props_push(ps: Seq<PropertyV>, p: PropertyV)
    ensures
        enc_props(ps.push(p)) == enc_props(ps) + enc_prop(p),
    decreases ps.len(),
{
    if ps.len() == 0 {
        assert(ps.push(p)[0] == p);
        assert(ps.push(p).skip(1) =~= Seq::<PropertyV>::empty());
        assert(enc_props(Seq::<PropertyV>::empty()) =~= Seq::<u8>::empty());
        assert(enc_props(ps.push(p)) =~= enc_props(ps) + enc_prop(p));
    } else {
        assert(ps.push(p).skip(1) =~= ps.skip(1).push(p));
        lemma_enc_props_push(ps.skip(1), p);
        assert(enc_props(ps.push(p)) =~= enc_props(ps) + enc_prop(p));
    }
}

/// Round trip for a property block.
pub proof fn lemma_prop_block_round_trip(ps: Seq<PropertyV>, kind: PacketKind, rest: Seq<u8>)
    requires
        props_wf(ps),
        props_allowed(ps, kind),
        enc_props(ps).len() <= VARINT_MAX,
    ensures
        take_prop_block(enc_prop_block(ps) + rest, kind) == Some(
            (ps, enc_prop_block(ps).len() as int),
        ),
{
    let body = enc_props(ps);
    let s = enc_prop_block(ps) + rest;
    assert(s =~= varint_encode(body.len()) + (body + rest));
    crate::varint::lemma_varint_round_trip(body.len(), body + rest);
    let n = varint_encode(body.len()).len() as int;
    assert(s.subrange(n, n + body.len() as int) =~= body);
    lemma_props_round_trip(ps, kind);
}

/// An ordered, typed property list, the unit MQTT 5 packets carry.
#[derive(Debug, Clone, PartialEq, Eq)]
pub struct PropertyList {
    pub entries: Vec<Property>,
}

impl View for PropertyList {
    type V = Seq<PropertyV>;

    open spec fn view(&self) -> Seq<PropertyV> {
        prop_views(self.entries@)
    }
}

impl PropertyList {
    /// An empty list.
    pub fn new() -> (r: PropertyList)
        ensures
            r@ == Seq::<PropertyV>::empty(),
    {
        let r = PropertyList { entries: Vec::new() };
        proof {
            assert(r@ =~= Seq::<PropertyV>::empty());
        }
        r
    }

    /// How many entries the list holds.
    pub fn len(&self) -> (r: usize)
        ensures
            r == self@.len(),
    {
        self.entries.len()
    }

    /// Whether some entry carries `id`.
    pub fn contains_id(&self, id: mqtt5_property) -> (r: bool)
        ensures
            r == has_prop(self@, id),
    {
        let mut i: usize = 0;
        while i < self.entries.len()
            invariant
                i <= self.entries@.len(),
                forall|j: int| 0 <= j < i ==> (#[trigger] prop_views(self.entries@)[j]).id != id,
            decreases self.entries@.len() - i,
        {
            if self.entries[i].id == id {
                assert(prop_views(self.entries@)[i as int].id == id);
                return true;
            }
            assert(prop_views(self.entries@)[i as int].id != id);
            i = i + 1;
        }
        false
    }

    /// Adds `(id, value)` for a packet of kind `kind`, enforcing the
    /// allowed-identifier set, the no-duplicate rule for single-valued
    /// identifiers, and the value's type and wire bounds.
    pub fn add(&mut self, kind: PacketKind, id: mqtt5_property, value: PropertyValue) -> (r: Result<
        (),
        ClientError,
    >)
        ensures
            match r {
                Ok(()) => id.spec_allowed(kind) && (id.spec_repeatable() || !has_prop(
                    old(self)@,
                    id,
                )) && value@.kind() == id.spec_type() && value@.wf() && final(self)@ == old(
                    self,
                )@.push(PropertyV { id, value: value@ }),
                Err(e) => final(self)@ == old(self)@ && ((e == ClientError::PropertyNotAllowed
                    && !id.spec_allowed(kind)) || (e == ClientError::DuplicateProperty
                    && id.spec_allowed(kind) && !id.spec_repeatable() && has_prop(old(self)@, id))
                    || (e == ClientError::InvalidArgument && id.spec_allowed(kind) && (
                id.spec_repeatable() || !has_prop(old(self)@, id)) && !(value@.kind()
                    == id.spec_type() && value@.wf()))),
            },
    {
        if !id.allowed(kind) {
            return Err(ClientError::PropertyNotAllowed);
        }
        if !id.repeatable() && self.contains_id(id) {
            return Err(ClientError::DuplicateProperty);
        }
        if !(value.kind() == id.wire_type() && value.check_wf()) {
            return Err(ClientError::InvalidArgument);
        }
        let ghost pre = self.entries@;
        self.entries.push(Property { id, value });
        proof {
            assert(prop_views(self.entries@) =~= prop_views(pre).push(
                PropertyV { id, value: value@ },
            ));
        }
        Ok(())
    }

    /// The first entry carrying `id`, if any.
    pub fn read_first(&self, id: mqtt5_property) -> (r: Option<&Property>)
        ensures
            match r {
                Some(p) => find_prop(self@, id) == Some(p@),
                None => find_prop(self@, id) is None,
            },
    {
        let ghost all = self@;
        proof {
            assert(all.skip(0) =~= all);
        }
        let mut i: usize = 0;
        while i < self.entries.len()
            invariant
                i <= self.entries@.len(),
                all == self@,
                all.len() == self.entries@.len(),
                find_prop(all, id) == find_prop(all.skip(i as int), id),
            decreases self.entries@.len() - i,
        {
            proof {
                assert(all.skip(i as int)[0] == all[i as int]);
                assert(all[i as int] == self.entries@[i as int]@);
            }
            if self.entries[i].id == id {
                return Some(&self.entries[i]);
            }
            proof {
                assert(all.skip(i as int).skip(1) =~= all.skip(i + 1));
            }
            i = i + 1;
        }
        assert(all.skip(i as int).len() == 0);
        None
    }
}

/// Appends the wire bytes of one value to `out`.
pub fn write_value(value: &PropertyValue, out: &mut Vec<u8>)
    requires
        value@.wf(),
    ensures
        final(out)@ == old(out)@ + enc_value(value@),
{
    match value {
        PropertyValue::Byte(b) => {
            let ghost pre = out@;
            out.push(*b);
            assert(pre + enc_value(value@) =~= out@);
        },
        PropertyValue::U16(x) => {
            write_u16(*x, out);
        },
        PropertyValue::U32(x) => {
            write_u32(*x, out);
        },
        PropertyValue::VarInt(x) => {
            encode_varint(*x, out);
        },
        PropertyValue::Binary(b) => {
            write_bin(b.as_slice(), out);
        },
        PropertyValue::Utf8(s) => {
            write_bin(s.as_slice(), out);
        },
        PropertyValue::Pair(k, v) => {
            let ghost pre = out@;
            write_bin(k.as_slice(), out);
            write_bin(v.as_slice(), out);
            assert(pre + enc_value(value@) =~= out@);
        },
    }
}

/// Appends the wire bytes of one entry to `out`.
pub fn write_prop(p: &Property, out: &mut Vec<u8>)
    requires
        p@.wf(),
    ensures
        final(out)@ == old(out)@ + enc_prop(p@),
{
    let ghost pre = out@;
    out.push(p.id.to_byte());
    write_value(&p.value, out);
    assert(pre + enc_prop(p@) =~= out@);
}

/// Appends the wire bytes of a whole property block to `out`.
pub fn write_prop_block(list: &PropertyList, out: &mut Vec<u8>)
    requires
        props_wf(list@),
        enc_props(list@).len() <= VARINT_MAX,
    ensures
        final(out)@ == old(out)@ + enc_prop_block(list@),
{
    let mut body: Vec<u8> = Vec::new();
    let ghost views = list@;
    proof {
        assert(views.take(0) =~= Seq::<PropertyV>::empty());
        assert(body@ =~= enc_props(views.take(0)));
    }
    let mut i: usize = 0;
    while i < list.entries.len()
        invariant
            i <= list.entries@.len(),
            views == list@,
            views.len() == list.entries@.len(),
            props_wf(views),
            body@ == enc_props(views.take(i as int)),
        decreases list.entries@.len() - i,
    {
        proof {
            assert(views[i as int] == list.entries@[i as int]@);
            assert(views[i as int].wf());
        }
        write_prop(&list.entries[i], &mut body);
        proof {
            assert(views.take(i + 1) =~= views.take(i as int).push(views[i as int]));
            lemma_enc_props_push(views.take(i as int), views[i as int]);
        }
        i = i + 1;
    }
    proof {
        assert(views.take(views.len() as int) =~= views);
    }
    let ghost pre = out@;
    encode_varint(body.len() as u32, out);
    let mut body2 = body;
    out.append(&mut body2);
    assert(pre + enc_prop_block(list@) =~= out@);
}

/// Parses one value of wire type `t` at `pos`.
pub fn read_value(buf: &[u8], pos: usize, t: mqtt5_property_type) -> (r: Option<
    (PropertyValue, usize),
>)
    requires
        pos <= buf@.len(),
    ensures
        match r {
            Some((v, end)) => take_value(buf@.skip(pos as int), t) == Some((v@, end - pos)) && pos
                < end <= buf@.len() && v@.wf() && v@.kind() == t,
            None => take_value(buf@.skip(pos as int), t) is None,
        },
{
    match t {
        mqtt5_property_type::Byte => match read_u8(buf, pos) {
            Some((b, end)) => Some((PropertyValue::Byte(b), end)),
            None => None,
        },
        mqtt5_property_type::Int16 => match read_u16(buf, pos) {
            Some((x, end)) => Some((PropertyValue::U16(x), end)),
            None => None,
        },
        mqtt5_property_type::Int32 => match read_u32(buf, pos) {
            Some((x, end)) => Some((PropertyValue::U32(x), end)),
            None => None,
        },
        mqtt5_property_type::Varint => match decode_varint(buf, pos) {
            VarintResult::Found(x, end) => Some((PropertyValue::VarInt(x), end)),
            VarintResult::Incomplete => None,
            VarintResult::Malformed => None,
        },
        mqtt5_property_type::Binary => match read_bin(buf, pos) {
            Some((b, end)) => Some((PropertyValue::Binary(b), end)),
            None => None,
        },
        mqtt5_property_type::Utf8String => match read_str(buf, pos) {
            Some((s, end)) => Some((PropertyValue::Utf8(s), end)),
            None => None,
        },
        mqtt5_property_type::StringPair => match read_str(buf, pos) {
            Some((k, mid)) => match read_str(buf, mid) {
                Some((v, end)) => {
                    proof {
                        assert(buf@.skip(pos as int).skip(mid - pos) =~= buf@.skip(mid as int));
                    }
                    Some((PropertyValue::Pair(k, v), end))
                },
                None => {
                    proof {
                        assert(buf@.skip(pos as int).skip(mid - pos) =~= buf@.skip(mid as int));
                    }
                    None
                },
            },
            None => None,
        },
    }
}

/// Parses one entry at `pos` for a packet of kind `kind`.
pub fn read_prop(buf: &[u8], pos: usize, kind: PacketKind) -> (r: Option<(Property, usize)>)
    requires
        pos <= buf@.len(),
    ensures
        match r {
            Some((p, end)) => take_prop(buf@.skip(pos as int), kind) == Some((p@, end - pos)) && pos
                < end <= buf@.len() && p@.wf() && p@.id.spec_allowed(kind),
            None => take_prop(buf@.skip(pos as int), kind) is None,
        },
{
    match read_u8(buf, pos) {
        None => None,
        Some((b, mid)) => match mqtt5_property::from_byte(b) {
            None => None,
            Some(id) => {
                if !id.allowed(kind) {
                    return None;
                }
                proof {
                    assert(buf@.skip(pos as int).skip(1) =~= buf@.skip(pos as int + 1));
                }
                match read_value(buf, mid, id.wire_type()) {
                    None => None,
                    Some((v, end)) => Some((Property { id, value: v }, end)),
                }
            },
        },
    }
}

/// Parses a property block at `pos` for a packet of kind `kind`.
#[verifier::loop_isolation(false)]
#[verifier::rlimit(100)]
pub fn read_prop_block(buf: &[u8], pos: usize, kind: PacketKind) -> (r: Option<
    (PropertyList, usize),
>)
    requires
        pos <= buf@.len(),
    ensures
        match r {
            Some((l, end)) => take_prop_block(buf@.skip(pos as int), kind) == Some(
                (l@, end - pos),
            ) && pos < end <= buf@.len() && props_wf(l@) && props_allowed(l@, kind),
            None => take_prop_block(buf@.skip(pos as int), kind) is None,
        },
{
    let s0 = Ghost(buf@.skip(pos as int));
    match decode_varint(buf, pos) {
        VarintResult::Incomplete => None,
        VarintResult::Malformed => None,
        VarintResult::Found(len32, vend) => {
            let len = len32 as usize;
            if buf.len() - vend < len {
                return None;
            }
            let window = slice_subrange_u8(buf, vend, vend + len);
            proof {
                assert(window@ =~= s0@.subrange(vend - pos, vend - pos + len as int));
            }
            let mut acc: Vec<Property> = Vec::new();
            let mut cur: usize = 0;
            proof {
                assert(prop_views(acc@) =~= Seq::<PropertyV>::empty());
                assert(window@.skip(0) =~= window@);
            }
            while cur < window.len()
                invariant
                    cur <= window@.len(),
                    props_wf(prop_views(acc@)),
                    props_allowed(prop_views(acc@), kind),
                    ({
                        let full = take_props(window@, kind);
                        let tail = take_props(window@.skip(cur as int), kind);
                        match tail {
                            Some(t) => full == Some(prop_views(acc@) + t),
                            None => full is None,
                        }
                    }),
                decreases window@.len() - cur,
            {
                match read_prop(window, cur, kind) {
                    None => {
                        proof {
                            assert(window@.skip(cur as int).len() > 0);
                        }
                        return None;
                    },
                    Some((p, end)) => {
                        let ghost pre = acc@;
                        proof {
                            assert(window@.skip(cur as int).skip(end - cur) =~= window@.skip(
                                end as int,
                            ));
                        }
                        acc.push(p);
                        proof {
                            assert(prop_views(acc@) =~= prop_views(pre).push(p@));
                            assert(forall|t: Seq<PropertyV>|
                                (prop_views(pre) + (seq![p@] + t)) =~= (prop_views(pre).push(p@)
                                    + t));
                        }
                        cur = end;
                    },
                }
            }
            proof {
                assert(window@.skip(cur as int).len() == 0);
                assert(take_props(window@.skip(cur as int), kind) == Some(
                    Seq::<PropertyV>::empty(),
                ));
                assert(prop_views(acc@) + Seq::<PropertyV>::empty() =~= prop_views(acc@));
            }
            Some((PropertyList { entries: acc }, vend + len))
        },
    }
}

/// A subrange of a byte slice.
fn slice_subrange_u8(s: &[u8], i: usize, j: usize) -> (r: &[u8])
    requires
        0 <= i <= j <= s@.len(),
    ensures
        r@ == s@.subrange(i as int, j as int),
{
    vstd::slice::slice_subrange(s, i, j)
}

} // verus!
