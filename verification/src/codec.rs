//! MQTT control packet codec.
//!
//! A packet on the wire is a fixed header — a type-and-flags byte and a
//! variable-length remaining-length field — followed by that many body
//! bytes. [`encode_packet`] produces the bytes of a well-formed packet;
//! [`decode_packet`] consumes a prefix of a byte buffer and reports the
//! packet and the bytes consumed, or that the buffer does not yet hold a
//! whole packet (`Incomplete`, consuming nothing), or that no extension of
//! the buffer can parse (`Malformed`).
//!
//! Every packet shape has a mathematical model (`…V` types over byte
//! sequences), a specification-level encoder and parser over those models,
//! and round-trip lemmas: decoding an encoding yields the original packet,
//! and decoding any strict prefix of an encoding yields `Incomplete`.

use vstd::prelude::*;
use crate::wire::utf8_ok;

use crate::properties::{enc_prop, enc_prop_block, enc_props, take_prop, take_props, prop_views, props_allowed, props_wf,
    read_prop_block, take_prop_block, write_prop_block, PropertyList, PropertyV};
use crate::topic::{valid_filter_spec, valid_topic_spec};
use crate::types::{PacketKind, QoS, Version};
use crate::varint::{varint_encode, varint_parse, SpecParse, VARINT_MAX};
use crate::wire::{enc_bin, enc_u16, take_bin, take_str, take_u16, take_u8};

verus! {

/// A will message registered at connect time.
#[derive(Debug, Clone, PartialEq, Eq)]
pub struct Will {
    pub topic: Vec<u8>,
    pub payload: Vec<u8>,
    pub qos: QoS,
    pub retain: bool,
    pub properties: PropertyList,
}

/// Model of a [`Will`].
pub struct WillV {
    pub topic: Seq<u8>,
    pub payload: Seq<u8>,
    pub qos: QoS,
    pub retain: bool,
    pub properties: Seq<PropertyV>,
}

impl View for Will {
    type V = WillV;

    open spec fn view(&self) -> WillV {
        WillV {
            topic: self.topic@,
            payload: self.payload@,
            qos: self.qos,
            retain: self.retain,
            properties: self.properties@,
        }
    }
}

impl WillV {
    /// Topic and payload fit their length prefixes, the topic is a real
    /// topic name, and the properties belong to a will.
    pub open spec fn wf(self, v: Version) -> bool {
        &&& valid_topic_spec(self.topic)
        &&& utf8_ok(self.topic)
        &&& self.payload.len() <= 65535
        &&& props_wf(self.properties)
        &&& props_allowed(self.properties, PacketKind::Will)
        &&& enc_props(self.properties).len() <= VARINT_MAX
        &&& (v == Version::V311 ==> self.properties.len() == 0)
    }
}

/// CONNECT: opens the session.
#[derive(Debug, Clone, PartialEq, Eq)]
pub struct ConnectPacket {
    pub client_id: Vec<u8>,
    pub clean_session: bool,
    pub keepalive: u16,
    pub username: Option<Vec<u8>>,
    pub password: Option<Vec<u8>>,
    pub will: Option<Will>,
    pub properties: PropertyList,
}

/// Model of a [`ConnectPacket`].
pub struct ConnectV {
    pub client_id: Seq<u8>,
    pub clean_session: bool,
    pub keepalive: u16,
    pub username: Option<Seq<u8>>,
    pub password: Option<Seq<u8>>,
    pub will: Option<WillV>,
    pub properties: Seq<PropertyV>,
}

impl View for ConnectPacket {
    type V = ConnectV;

    open spec fn view(&self) -> ConnectV {
        ConnectV {
            client_id: self.client_id@,
            clean_session: self.clean_session,
            keepalive: self.keepalive,
            username: match &self.username {
                Some(u) => Some(u@),
                None => None,
            },
            password: match &self.password {
                Some(p) => Some(p@),
                None => None,
            },
            will: match &self.will {
                Some(w) => Some(w@),
                None => None,
            },
            properties: self.properties@,
        }
    }
}

impl ConnectV {
    /// Field bounds, an identifier only empty together with a clean
    /// session, a password only beside a username, and CONNECT properties.
    pub open spec fn wf(self, v: Version) -> bool {
        &&& self.client_id.len() <= 65535
        &&& utf8_ok(self.client_id)
        &&& (self.client_id.len() == 0 ==> self.clean_session)
        &&& match self.username {
            Some(u) => u.len() <= 65535 && utf8_ok(u),
            None => true,
        }
        &&& match self.password {
            Some(p) => p.len() <= 65535,
            None => true,
        }
        &&& (self.password is Some ==> self.username is Some)
        &&& match self.will {
            Some(w) => w.wf(v),
            None => true,
        }
        &&& props_wf(self.properties)
        &&& props_allowed(self.properties, PacketKind::Connect)
        &&& enc_props(self.properties).len() <= VARINT_MAX
        &&& (v == Version::V311 ==> self.properties.len() == 0)
    }
}

/// CONNACK: the broker's answer to CONNECT.
#[derive(Debug, Clone, PartialEq, Eq)]
pub struct ConnackPacket {
    pub session_present: bool,
    pub code: u8,
    pub properties: PropertyList,
}

/// Model of a [`ConnackPacket`].
pub struct ConnackV {
    pub session_present: bool,
    pub code: u8,
    pub properties: Seq<PropertyV>,
}

impl View for ConnackPacket {
    type V = ConnackV;

    open spec fn view(&self) -> ConnackV {
        ConnackV {
            session_present: self.session_present,
            code: self.code,
            properties: self.properties@,
        }
    }
}

impl ConnackV {
    /// The v3.1.1 return code is one of the six defined values; CONNACK
    /// properties only under v5.
    pub open spec fn wf(self, v: Version) -> bool {
        &&& props_wf(self.properties)
        &&& props_allowed(self.properties, PacketKind::Connack)
        &&& enc_props(self.properties).len() <= VARINT_MAX
        &&& (v == Version::V311 ==> self.code <= 5 && self.properties.len() == 0)
    }
}

/// PUBLISH: an application message in either direction.
#[derive(Debug, Clone, PartialEq, Eq)]
pub struct PublishPacket {
    pub topic: Vec<u8>,
    pub payload: Vec<u8>,
    pub qos: QoS,
    pub retain: bool,
    pub dup: bool,
    pub packet_id: Option<u16>,
    pub properties: PropertyList,
}

/// Model of a [`PublishPacket`].
pub struct PublishV {
    pub topic: Seq<u8>,
    pub payload: Seq<u8>,
    pub qos: QoS,
    pub retain: bool,
    pub dup: bool,
    pub packet_id: Option<u16>,
    pub properties: Seq<PropertyV>,
}

impl View for PublishPacket {
    type V = PublishV;

    open spec fn view(&self) -> PublishV {
        PublishV {
            topic: self.topic@,
            payload: self.payload@,
            qos: self.qos,
            retain: self.retain,
            dup: self.dup,
            packet_id: self.packet_id,
            properties: self.properties@,
        }
    }
}

impl PublishV {
    /// A real topic name; a non-zero packet identifier exactly when the
    /// level needs acknowledgement; no DUP flag at QoS 0.
    pub open spec fn wf(self, v: Version) -> bool {
        &&& valid_topic_spec(self.topic)
        &&& utf8_ok(self.topic)
        &&& (self.qos == QoS::AtMostOnce <==> self.packet_id is None)
        &&& (self.packet_id matches Some(id) ==> id != 0)
        &&& (self.qos == QoS::AtMostOnce ==> !self.dup)
        &&& props_wf(self.properties)
        &&& props_allowed(self.properties, PacketKind::Publish)
        &&& enc_props(self.properties).len() <= VARINT_MAX
        &&& (v == Version::V311 ==> self.properties.len() == 0)
    }
}

/// PUBACK, PUBREC, PUBREL or PUBCOMP: one step of a QoS handshake.
#[derive(Debug, Clone, PartialEq, Eq)]
pub struct AckPacket {
    pub packet_id: u16,
    pub reason: u8,
    pub properties: PropertyList,
}

/// Model of an [`AckPacket`].
pub struct AckV {
    pub packet_id: u16,
    pub reason: u8,
    pub properties: Seq<PropertyV>,
}

impl View for AckPacket {
    type V = AckV;

    open spec fn view(&self) -> AckV {
        AckV { packet_id: self.packet_id, reason: self.reason, properties: self.properties@ }
    }
}

impl AckV {
    /// A non-zero identifier; reason code and properties only under v5.
    pub open spec fn wf(self, v: Version, kind: PacketKind) -> bool {
        &&& self.packet_id != 0
        &&& props_wf(self.properties)
        &&& props_allowed(self.properties, kind)
        &&& enc_props(self.properties).len() <= VARINT_MAX
        &&& (v == Version::V311 ==> self.reason == 0 && self.properties.len() == 0)
    }
}

/// One filter of a SUBSCRIBE, with its requested QoS and v5 options.
#[derive(Debug, Clone, PartialEq, Eq)]
pub struct SubRequest {
    pub filter: Vec<u8>,
    pub qos: QoS,
    pub no_local: bool,
    pub retain_as_published: bool,
    pub retain_handling: u8,
}

/// Model of a [`SubRequest`].
pub struct SubRequestV {
    pub filter: Seq<u8>,
    pub qos: QoS,
    pub no_local: bool,
    pub retain_as_published: bool,
    pub retain_handling: u8,
}

impl View for SubRequest {
    type V = SubRequestV;

    open spec fn view(&self) -> SubRequestV {
        SubRequestV {
            filter: self.filter@,
            qos: self.qos,
            no_local: self.no_local,
            retain_as_published: self.retain_as_published,
            retain_handling: self.retain_handling,
        }
    }
}

impl SubRequestV {
    /// A real filter; option bits beyond the QoS only under v5.
    pub open spec fn wf(self, v: Version) -> bool {
        &&& valid_filter_spec(self.filter)
        &&& utf8_ok(self.filter)
        &&& self.retain_handling <= 2
        &&& (v == Version::V311 ==> !self.no_local && !self.retain_as_published
            && self.retain_handling == 0)
    }
}

/// SUBSCRIBE: asks the broker for one or more topic filters.
#[derive(Debug, Clone, PartialEq, Eq)]
pub struct SubscribePacket {
    pub packet_id: u16,
    pub requests: Vec<SubRequest>,
    pub properties: PropertyList,
}

/// Model of a [`SubscribePacket`].
pub struct SubscribeV {
    pub packet_id: u16,
    pub requests: Seq<SubRequestV>,
    pub properties: Seq<PropertyV>,
}

impl View for SubscribePacket {
    type V = SubscribeV;

    open spec fn view(&self) -> SubscribeV {
        SubscribeV {
            packet_id: self.packet_id,
            requests: self.requests@.map_values(|r: SubRequest| r@),
            properties: self.properties@,
        }
    }
}

impl SubscribeV {
    /// A non-zero identifier and at least one well-formed filter.
    pub open spec fn wf(self, v: Version) -> bool {
        &&& self.packet_id != 0
        &&& self.requests.len() >= 1
        &&& forall|i: int| 0 <= i < self.requests.len() ==> (#[trigger] self.requests[i]).wf(v)
        &&& props_wf(self.properties)
        &&& props_allowed(self.properties, PacketKind::Subscribe)
        &&& enc_props(self.properties).len() <= VARINT_MAX
        &&& (v == Version::V311 ==> self.properties.len() == 0)
    }
}

/// SUBACK: grants or refuses each filter of a SUBSCRIBE.
#[derive(Debug, Clone, PartialEq, Eq)]
pub struct SubackPacket {
    pub packet_id: u16,
    pub codes: Vec<u8>,
    pub properties: PropertyList,
}

/// Model of a [`SubackPacket`].
pub struct SubackV {
    pub packet_id: u16,
    pub codes: Seq<u8>,
    pub properties: Seq<PropertyV>,
}

impl View for SubackPacket {
    type V = SubackV;

    open spec fn view(&self) -> SubackV {
        SubackV { packet_id: self.packet_id, codes: self.codes@, properties: self.properties@ }
    }
}

/// A SUBACK entry: a granted QoS or a refusal.
pub open spec fn suback_code_ok(c: u8) -> bool {
    c <= 2 || c >= 128
}

impl SubackV {
    /// A non-zero identifier and one code per requested filter.
    pub open spec fn wf(self, v: Version) -> bool {
        &&& self.packet_id != 0
        &&& self.codes.len() >= 1
        &&& forall|i: int| 0 <= i < self.codes.len() ==> suback_code_ok(#[trigger] self.codes[i])
        &&& props_wf(self.properties)
        &&& props_allowed(self.properties, PacketKind::Suback)
        &&& enc_props(self.properties).len() <= VARINT_MAX
        &&& (v == Version::V311 ==> self.properties.len() == 0)
    }
}

/// UNSUBSCRIBE: removes one or more filters.
#[derive(Debug, Clone, PartialEq, Eq)]
pub struct UnsubscribePacket {
    pub packet_id: u16,
    pub filters: Vec<Vec<u8>>,
    pub properties: PropertyList,
}

/// Model of an [`UnsubscribePacket`].
pub struct UnsubscribeV {
    pub packet_id: u16,
    pub filters: Seq<Seq<u8>>,
    pub properties: Seq<PropertyV>,
}

impl View for UnsubscribePacket {
    type V = UnsubscribeV;

    open spec fn view(&self) -> UnsubscribeV {
        UnsubscribeV {
            packet_id: self.packet_id,
            filters: self.filters@.map_values(|f: Vec<u8>| f@),
            properties: self.properties@,
        }
    }
}

impl UnsubscribeV {
    /// A non-zero identifier and at least one well-formed filter.
    pub open spec fn wf(self, v: Version) -> bool {
        &&& self.packet_id != 0
        &&& self.filters.len() >= 1
        &&& forall|i: int|
            0 <= i < self.filters.len() ==> valid_filter_spec(#[trigger] self.filters[i])
                && utf8_ok(self.filters[i])
        &&& props_wf(self.properties)
        &&& props_allowed(self.properties, PacketKind::Unsubscribe)
        &&& enc_props(self.properties).len() <= VARINT_MAX
        &&& (v == Version::V311 ==> self.properties.len() == 0)
    }
}

/// An UNSUBACK entry under v5: success, no subscription existed, or an
/// error.
pub open spec fn unsuback_code_ok(c: u8) -> bool {
    c == 0 || c == 17 || c >= 128
}

/// UNSUBACK: confirms an UNSUBSCRIBE.
#[derive(Debug, Clone, PartialEq, Eq)]
pub struct UnsubackPacket {
    pub packet_id: u16,
    pub codes: Vec<u8>,
    pub properties: PropertyList,
}

/// Model of an [`UnsubackPacket`].
pub struct UnsubackV {
    pub packet_id: u16,
    pub codes: Seq<u8>,
    pub properties: Seq<PropertyV>,
}

impl View for UnsubackPacket {
    type V = UnsubackV;

    open spec fn view(&self) -> UnsubackV {
        UnsubackV { packet_id: self.packet_id, codes: self.codes@, properties: self.properties@ }
    }
}

impl UnsubackV {
    /// A non-zero identifier; under v3.1.1 the packet carries no codes,
    /// under v5 one per filter.
    pub open spec fn wf(self, v: Version) -> bool {
        &&& self.packet_id != 0
        &&& forall|i: int| 0 <= i < self.codes.len() ==> unsuback_code_ok(#[trigger] self.codes[i])
        &&& (v == Version::V311 ==> self.codes.len() == 0)
        &&& (v == Version::V5 ==> self.codes.len() >= 1)
        &&& props_wf(self.properties)
        &&& props_allowed(self.properties, PacketKind::Unsuback)
        &&& enc_props(self.properties).len() <= VARINT_MAX
        &&& (v == Version::V311 ==> self.properties.len() == 0)
    }
}

/// DISCONNECT: orderly shutdown; body only under v5.
#[derive(Debug, Clone, PartialEq, Eq)]
pub struct DisconnectPacket {
    pub reason: u8,
    pub properties: PropertyList,
}

/// Model of a [`DisconnectPacket`].
pub struct DisconnectV {
    pub reason: u8,
    pub properties: Seq<PropertyV>,
}

impl View for DisconnectPacket {
    type V = DisconnectV;

    open spec fn view(&self) -> DisconnectV {
        DisconnectV { reason: self.reason, properties: self.properties@ }
    }
}

impl DisconnectV {
    /// Reason code and properties only under v5.
    pub open spec fn wf(self, v: Version) -> bool {
        &&& props_wf(self.properties)
        &&& props_allowed(self.properties, PacketKind::Disconnect)
        &&& enc_props(self.properties).len() <= VARINT_MAX
        &&& (v == Version::V311 ==> self.reason == 0 && self.properties.len() == 0)
    }
}

/// An MQTT control packet.
#[derive(Debug, Clone, PartialEq, Eq)]
pub enum Packet {
    Connect(ConnectPacket),
    Connack(ConnackPacket),
    Publish(PublishPacket),
    Puback(AckPacket),
    Pubrec(AckPacket),
    Pubrel(AckPacket),
    Pubcomp(AckPacket),
    Subscribe(SubscribePacket),
    Suback(SubackPacket),
    Unsubscribe(UnsubscribePacket),
    Unsuback(UnsubackPacket),
    Pingreq,
    Pingresp,
    Disconnect(DisconnectPacket),
}

/// Model of a [`Packet`].
pub enum PacketV {
    Connect(ConnectV),
    Connack(ConnackV),
    Publish(PublishV),
    Puback(AckV),
    Pubrec(AckV),
    Pubrel(AckV),
    Pubcomp(AckV),
    Subscribe(SubscribeV),
    Suback(SubackV),
    Unsubscribe(UnsubscribeV),
    Unsuback(UnsubackV),
    Pingreq,
    Pingresp,
    Disconnect(DisconnectV),
}

impl View for Packet {
    type V = PacketV;

    open spec fn view(&self) -> PacketV {
        match self {
            Packet::Connect(p) => PacketV::Connect(p@),
            Packet::Connack(p) => PacketV::Connack(p@),
            Packet::Publish(p) => PacketV::Publish(p@),
            Packet::Puback(p) => PacketV::Puback(p@),
            Packet::Pubrec(p) => PacketV::Pubrec(p@),
            Packet::Pubrel(p) => PacketV::Pubrel(p@),
            Packet::Pubcomp(p) => PacketV::Pubcomp(p@),
            Packet::Subscribe(p) => PacketV::Subscribe(p@),
            Packet::Suback(p) => PacketV::Suback(p@),
            Packet::Unsubscribe(p) => PacketV::Unsubscribe(p@),
            Packet::Unsuback(p) => PacketV::Unsuback(p@),
            Packet::Pingreq => PacketV::Pingreq,
            Packet::Pingresp => PacketV::Pingresp,
            Packet::Disconnect(p) => PacketV::Disconnect(p@),
        }
    }
}

impl PacketV {
    /// The packet's kind.
    pub open spec fn kind(self) -> PacketKind {
        match self {
            PacketV::Connect(_) => PacketKind::Connect,
            PacketV::Connack(_) => PacketKind::Connack,
            PacketV::Publish(_) => PacketKind::Publish,
            PacketV::Puback(_) => PacketKind::Puback,
            PacketV::Pubrec(_) => PacketKind::Pubrec,
            PacketV::Pubrel(_) => PacketKind::Pubrel,
            PacketV::Pubcomp(_) => PacketKind::Pubcomp,
            PacketV::Subscribe(_) => PacketKind::Subscribe,
            PacketV::Suback(_) => PacketKind::Suback,
            PacketV::Unsubscribe(_) => PacketKind::Unsubscribe,
            PacketV::Unsuback(_) => PacketKind::Unsuback,
            PacketV::Pingreq => PacketKind::Pingreq,
            PacketV::Pingresp => PacketKind::Pingresp,
            PacketV::Disconnect(_) => PacketKind::Disconnect,
        }
    }

    /// A well-formed packet under protocol revision `v`: field bounds hold
    /// and the body fits the remaining-length field.
    pub open spec fn wf(self, v: Version) -> bool {
        self.wf_fields(v) && enc_body(self, v).len() <= VARINT_MAX
    }

    /// The per-field conditions alone.
    pub open spec fn wf_fields(self, v: Version) -> bool {
        match self {
            PacketV::Connect(p) => p.wf(v),
            PacketV::Connack(p) => p.wf(v),
            PacketV::Publish(p) => p.wf(v),
            PacketV::Puback(p) => p.wf(v, PacketKind::Puback),
            PacketV::Pubrec(p) => p.wf(v, PacketKind::Pubrec),
            PacketV::Pubrel(p) => p.wf(v, PacketKind::Pubrel),
            PacketV::Pubcomp(p) => p.wf(v, PacketKind::Pubcomp),
            PacketV::Subscribe(p) => p.wf(v),
            PacketV::Suback(p) => p.wf(v),
            PacketV::Unsubscribe(p) => p.wf(v),
            PacketV::Unsuback(p) => p.wf(v),
            PacketV::Pingreq => true,
            PacketV::Pingresp => true,
            PacketV::Disconnect(p) => p.wf(v),
        }
    }
}

/// Encoding of an optional length-prefixed field: absent fields add no
/// bytes.
pub open spec fn enc_opt_bin(o: Option<Seq<u8>>) -> Seq<u8> {
    match o {
        Some(b) => enc_bin(b),
        None => Seq::empty(),
    }
}

/// The property block of a packet: present only under v5.
pub open spec fn enc_props_for(ps: Seq<PropertyV>, v: Version) -> Seq<u8> {
    if v == Version::V5 {
        enc_prop_block(ps)
    } else {
        Seq::empty()
    }
}

/// The CONNECT flags byte: clean session, will flag, will QoS, will
/// retain, password and username presence.
pub open spec fn connect_flags(p: ConnectV) -> u8 {
    ((if p.clean_session {
        2int
    } else {
        0int
    }) + (match p.will {
        Some(w) => 4 + (w.qos.as_byte() as int) * 8 + (if w.retain {
            32int
        } else {
            0int
        }),
        None => 0,
    }) + (if p.password is Some {
        64int
    } else {
        0int
    }) + (if p.username is Some {
        128int
    } else {
        0int
    })) as u8
}

/// The will fields inside a CONNECT body, in wire order.
pub open spec fn enc_will(w: Option<WillV>, v: Version) -> Seq<u8> {
    match w {
        Some(w) => enc_props_for(w.properties, v) + enc_bin(w.topic) + enc_bin(w.payload),
        None => Seq::empty(),
    }
}

/// The protocol name field: the four bytes "MQTT", length-prefixed.
pub open spec fn proto_name() -> Seq<u8> {
    seq![0u8, 4u8, 77u8, 81u8, 84u8, 84u8]
}

/// The CONNECT body.
pub open spec fn enc_connect_body(p: ConnectV, v: Version) -> Seq<u8> {
    proto_name() + seq![v.level(), connect_flags(p)] + enc_u16(p.keepalive) + enc_props_for(
        p.properties,
        v,
    ) + enc_bin(p.client_id) + enc_will(p.will, v) + enc_opt_bin(p.username) + enc_opt_bin(
        p.password,
    )
}

/// The CONNACK body: acknowledge flags, return code, v5 properties.
pub open spec fn enc_connack_body(p: ConnackV, v: Version) -> Seq<u8> {
    seq![
        (if p.session_present {
            1u8
        } else {
            0u8
        }),
        p.code,
    ] + enc_props_for(p.properties, v)
}

/// The PUBLISH body: topic, packet identifier at QoS above zero, v5
/// properties, then the payload as the rest of the body.
pub open spec fn enc_publish_body(p: PublishV, v: Version) -> Seq<u8> {
    enc_bin(p.topic) + (match p.packet_id {
        Some(id) => enc_u16(id),
        None => Seq::empty(),
    }) + enc_props_for(p.properties, v) + p.payload
}

/// A handshake acknowledgement body. Under v5 the reason code and the
/// property block are dropped from the tail when they carry nothing.
pub open spec fn enc_ack_body(p: AckV, v: Version) -> Seq<u8> {
    if v == Version::V311 || (p.reason == 0 && p.properties.len() == 0) {
        enc_u16(p.packet_id)
    } else if p.properties.len() == 0 {
        enc_u16(p.packet_id) + seq![p.reason]
    } else {
        enc_u16(p.packet_id) + seq![p.reason] + enc_prop_block(p.properties)
    }
}

/// The subscription options byte: QoS plus the v5 option bits.
pub open spec fn sub_opts_byte(r: SubRequestV) -> u8 {
    ((r.qos.as_byte() as int) + (if r.no_local {
        4int
    } else {
        0int
    }) + (if r.retain_as_published {
        8int
    } else {
        0int
    }) + (r.retain_handling as int) * 16) as u8
}

/// One SUBSCRIBE entry: the filter then its options byte.
pub open spec fn enc_sub_req(r: SubRequestV) -> Seq<u8> {
    enc_bin(r.filter) + seq![sub_opts_byte(r)]
}

/// The SUBSCRIBE entries, in order.
pub open spec fn enc_sub_reqs(rs: Seq<SubRequestV>) -> Seq<u8>
    decreases rs.len(),
{
    if rs.len() == 0 {
        Seq::empty()
    } else {
        enc_sub_req(rs[0]) + enc_sub_reqs(rs.skip(1))
    }
}

/// The SUBSCRIBE body.
pub open spec fn enc_subscribe_body(p: SubscribeV, v: Version) -> Seq<u8> {
    enc_u16(p.packet_id) + enc_props_for(p.properties, v) + enc_sub_reqs(p.requests)
}

/// The SUBACK body: identifier, v5 properties, one code per filter.
pub open spec fn enc_suback_body(p: SubackV, v: Version) -> Seq<u8> {
    enc_u16(p.packet_id) + enc_props_for(p.properties, v) + p.codes
}

/// The UNSUBSCRIBE filters, in order.
pub open spec fn enc_filters(fs: Seq<Seq<u8>>) -> Seq<u8>
    decreases fs.len(),
{
    if fs.len() == 0 {
        Seq::empty()
    } else {
        enc_bin(fs[0]) + enc_filters(fs.skip(1))
    }
}

/// The UNSUBSCRIBE body.
pub open spec fn enc_unsubscribe_body(p: UnsubscribeV, v: Version) -> Seq<u8> {
    enc_u16(p.packet_id) + enc_props_for(p.properties, v) + enc_filters(p.filters)
}

/// The UNSUBACK body: under v3.1.1 just the identifier.
pub open spec fn enc_unsuback_body(p: UnsubackV, v: Version) -> Seq<u8> {
    enc_u16(p.packet_id) + enc_props_for(p.properties, v) + (if v == Version::V5 {
        p.codes
    } else {
        Seq::empty()
    })
}

/// The DISCONNECT body: empty under v3.1.1 and for a plain v5 disconnect;
/// the reason and property block are dropped from the tail when empty.
pub open spec fn enc_disconnect_body(p: DisconnectV, v: Version) -> Seq<u8> {
    if v == Version::V311 || (p.reason == 0 && p.properties.len() == 0) {
        Seq::empty()
    } else if p.properties.len() == 0 {
        seq![p.reason]
    } else {
        seq![p.reason] + enc_prop_block(p.properties)
    }
}

/// The body bytes of a packet: everything after the fixed header.
pub open spec fn enc_body(p: PacketV, v: Version) -> Seq<u8> {
    match p {
        PacketV::Connect(q) => enc_connect_body(q, v),
        PacketV::Connack(q) => enc_connack_body(q, v),
        PacketV::Publish(q) => enc_publish_body(q, v),
        PacketV::Puback(q) => enc_ack_body(q, v),
        PacketV::Pubrec(q) => enc_ack_body(q, v),
        PacketV::Pubrel(q) => enc_ack_body(q, v),
        PacketV::Pubcomp(q) => enc_ack_body(q, v),
        PacketV::Subscribe(q) => enc_subscribe_body(q, v),
        PacketV::Suback(q) => enc_suback_body(q, v),
        PacketV::Unsubscribe(q) => enc_unsubscribe_body(q, v),
        PacketV::Unsuback(q) => enc_unsuback_body(q, v),
        PacketV::Pingreq => Seq::empty(),
        PacketV::Pingresp => Seq::empty(),
        PacketV::Disconnect(q) => enc_disconnect_body(q, v),
    }
}

/// The type-and-flags byte of the fixed header.
pub open spec fn first_byte(p: PacketV) -> u8 {
    match p {
        PacketV::Connect(_) => 16,
        PacketV::Connack(_) => 32,
        PacketV::Publish(q) => (48 + (if q.dup {
            8int
        } else {
            0int
        }) + (q.qos.as_byte() as int) * 2 + (if q.retain {
            1int
        } else {
            0int
        })) as u8,
        PacketV::Puback(_) => 64,
        PacketV::Pubrec(_) => 80,
        PacketV::Pubrel(_) => 98,
        PacketV::Pubcomp(_) => 112,
        PacketV::Subscribe(_) => 130,
        PacketV::Suback(_) => 144,
        PacketV::Unsubscribe(_) => 162,
        PacketV::Unsuback(_) => 176,
        PacketV::Pingreq => 192,
        PacketV::Pingresp => 208,
        PacketV::Disconnect(_) => 224,
    }
}

/// The whole wire form of a packet: type-and-flags byte, remaining
/// length, body.
pub open spec fn spec_encode(p: PacketV, v: Version) -> Seq<u8>
    recommends
        p.wf(v),
{
    seq![first_byte(p)] + varint_encode(enc_body(p, v).len()) + enc_body(p, v)
}

/// Parses a property block when the revision has one; v3.1.1 packets
/// carry none and consume nothing.
pub open spec fn take_props_for(s: Seq<u8>, kind: PacketKind, v: Version) -> Option<
    (Seq<PropertyV>, int),
> {
    if v == Version::V5 {
        take_prop_block(s, kind)
    } else {
        Some((Seq::empty(), 0))
    }
}

/// Parses the will fields of a CONNECT body when the will flag is set.
pub open spec fn take_will(s: Seq<u8>, will_flag: bool, will_qos: u8, will_retain: bool, v: Version)
    -> Option<(Option<WillV>, int)> {
    if !will_flag {
        Some((None, 0))
    } else {
        match take_props_for(s, PacketKind::Will, v) {
            Some((ps, n1)) => match take_str(s.skip(n1)) {
                Some((topic, n2)) => if valid_topic_spec(topic) {
                    match take_bin(s.skip(n1 + n2)) {
                        Some((payload, n3)) => Some(
                            (
                                Some(
                                    WillV {
                                        topic,
                                        payload,
                                        qos: crate::types::spec_qos_from(will_qos),
                                        retain: will_retain,
                                        properties: ps,
                                    },
                                ),
                                n1 + n2 + n3,
                            ),
                        ),
                        None => None,
                    }
                } else {
                    None
                },
                None => None,
            },
            None => None,
        }
    }
}

/// Parses an optional string field driven by a presence flag.
pub open spec fn take_opt_str(s: Seq<u8>, present: bool) -> Option<(Option<Seq<u8>>, int)> {
    if !present {
        Some((None, 0))
    } else {
        match take_str(s) {
            Some((b, n)) => Some((Some(b), n)),
            None => None,
        }
    }
}

/// Parses an optional binary field driven by a presence flag.
pub open spec fn take_opt_bin(s: Seq<u8>, present: bool) -> Option<(Option<Seq<u8>>, int)> {
    if !present {
        Some((None, 0))
    } else {
        match take_bin(s) {
            Some((b, n)) => Some((Some(b), n)),
            None => None,
        }
    }
}

/// Parses a CONNECT body, consuming it exactly.
pub open spec fn take_connect_body(s: Seq<u8>, v: Version) -> Option<ConnectV> {
    if s.len() < 10 || s.subrange(0, 6) != proto_name() || s[6] != v.level() {
        None
    } else {
        let flags = s[7];
        let clean_session = (flags / 2) % 2 == 1;
        let will_flag = (flags / 4) % 2 == 1;
        let will_qos = ((flags / 8) % 4) as u8;
        let will_retain = (flags / 32) % 2 == 1;
        let has_password = (flags / 64) % 2 == 1;
        let has_username = flags / 128 == 1;
        let keepalive = (s[8] as int * 256 + s[9] as int) as u16;
        if flags % 2 != 0 || will_qos > 2 || (!will_flag && (will_qos != 0 || will_retain)) || (
        has_password && !has_username) {
            None
        } else {
            match take_props_for(s.skip(10), PacketKind::Connect, v) {
                Some((props, n1)) => match take_str(s.skip(10 + n1)) {
                    Some((client_id, n2)) => if client_id.len() == 0 && !clean_session {
                        None
                    } else {
                        match take_will(s.skip(10 + n1 + n2), will_flag, will_qos, will_retain, v) {
                            Some((will, n3)) => match take_opt_str(
                                s.skip(10 + n1 + n2 + n3),
                                has_username,
                            ) {
                                Some((username, n4)) => match take_opt_bin(
                                    s.skip(10 + n1 + n2 + n3 + n4),
                                    has_password,
                                ) {
                                    Some((password, n5)) => if 10 + n1 + n2 + n3 + n4 + n5
                                        == s.len() {
                                        Some(
                                            ConnectV {
                                                client_id,
                                                clean_session,
                                                keepalive,
                                                username,
                                                password,
                                                will,
                                                properties: props,
                                            },
                                        )
                                    } else {
                                        None
                                    },
                                    None => None,
                                },
                                None => None,
                            },
                            None => None,
                        }
                    },
                    None => None,
                },
                None => None,
            }
        }
    }
}

/// Parses a CONNACK body, consuming it exactly.
pub open spec fn take_connack_body(s: Seq<u8>, v: Version) -> Option<ConnackV> {
    if s.len() < 2 || s[0] > 1 {
        None
    } else {
        let session_present = s[0] == 1;
        let code = s[1];
        if v == Version::V311 {
            if s.len() == 2 && code <= 5 {
                Some(ConnackV { session_present, code, properties: Seq::empty() })
            } else {
                None
            }
        } else {
            match take_prop_block(s.skip(2), PacketKind::Connack) {
                Some((props, n)) => if 2 + n == s.len() {
                    Some(ConnackV { session_present, code, properties: props })
                } else {
                    None
                },
                None => None,
            }
        }
    }
}

/// Parses a PUBLISH body given the header flag bits; the payload is the
/// rest of the body.
pub open spec fn take_publish_body(s: Seq<u8>, dup: bool, qos: QoS, retain: bool, v: Version)
    -> Option<PublishV> {
    if qos == QoS::AtMostOnce && dup {
        None
    } else {
        match take_str(s) {
            Some((topic, n1)) => if valid_topic_spec(topic) {
                let id_step: Option<(Option<u16>, int)> = if qos == QoS::AtMostOnce {
                    Some((None, 0))
                } else {
                    match take_u16(s.skip(n1)) {
                        Some((id, n)) => if id != 0 {
                            Some((Some(id), n))
                        } else {
                            None
                        },
                        None => None,
                    }
                };
                match id_step {
                    Some((packet_id, n2)) => match take_props_for(
                        s.skip(n1 + n2),
                        PacketKind::Publish,
                        v,
                    ) {
                        Some((props, n3)) => Some(
                            PublishV {
                                topic,
                                payload: s.skip(n1 + n2 + n3),
                                qos,
                                retain,
                                dup,
                                packet_id,
                                properties: props,
                            },
                        ),
                        None => None,
                    },
                    None => None,
                }
            } else {
                None
            },
            None => None,
        }
    }
}

/// Parses a handshake acknowledgement body, consuming it exactly.
pub open spec fn take_ack_body(s: Seq<u8>, v: Version, kind: PacketKind) -> Option<AckV> {
    match take_u16(s) {
        Some((id, _)) => if id == 0 {
            None
        } else if s.len() == 2 {
            Some(AckV { packet_id: id, reason: 0, properties: Seq::empty() })
        } else if v == Version::V311 {
            None
        } else if s.len() == 3 {
            Some(AckV { packet_id: id, reason: s[2], properties: Seq::empty() })
        } else {
            match take_prop_block(s.skip(3), kind) {
                Some((props, n)) => if 3 + n == s.len() {
                    Some(AckV { packet_id: id, reason: s[2], properties: props })
                } else {
                    None
                },
                None => None,
            }
        },
        None => None,
    }
}

/// Parses one SUBSCRIBE entry: a filter and its options byte.
pub open spec fn take_sub_req(s: Seq<u8>, v: Version) -> Option<(SubRequestV, int)> {
    match take_str(s) {
        Some((filter, n)) => if valid_filter_spec(filter) && s.len() > n {
            let b = s[n];
            let qos_bits = ((b as int) % 4) as u8;
            let no_local = (b / 4) % 2 == 1;
            let retain_as_published = (b / 8) % 2 == 1;
            let retain_handling = (((b as int) / 16) % 4) as u8;
            if qos_bits > 2 || retain_handling > 2 || b / 64 != 0 || (v == Version::V311 && b
                > 2) {
                None
            } else {
                Some(
                    (
                        SubRequestV {
                            filter,
                            qos: crate::types::spec_qos_from(qos_bits),
                            no_local,
                            retain_as_published,
                            retain_handling,
                        },
                        n + 1,
                    ),
                )
            }
        } else {
            None
        },
        None => None,
    }
}

/// Parses SUBSCRIBE entries until the input is exhausted.
pub open spec fn take_sub_reqs(s: Seq<u8>, v: Version) -> Option<Seq<SubRequestV>>
    decreases s.len(),
{
    if s.len() == 0 {
        Some(Seq::empty())
    } else {
        match take_sub_req(s, v) {
            Some((r, n)) => if 0 < n <= s.len() {
                match take_sub_reqs(s.skip(n), v) {
                    Some(rs) => Some(seq![r] + rs),
                    None => None,
                }
            } else {
                None
            },
            None => None,
        }
    }
}

/// Parses a SUBSCRIBE body, consuming it exactly.
pub open spec fn take_subscribe_body(s: Seq<u8>, v: Version) -> Option<SubscribeV> {
    match take_u16(s) {
        Some((id, _)) => if id == 0 {
            None
        } else {
            match take_props_for(s.skip(2), PacketKind::Subscribe, v) {
                Some((props, n)) => match take_sub_reqs(s.skip(2 + n), v) {
                    Some(rs) => if rs.len() >= 1 {
                        Some(SubscribeV { packet_id: id, requests: rs, properties: props })
                    } else {
                        None
                    },
                    None => None,
                },
                None => None,
            }
        },
        None => None,
    }
}

/// Parses a SUBACK body; the codes are the rest of the body.
pub open spec fn take_suback_body(s: Seq<u8>, v: Version) -> Option<SubackV> {
    match take_u16(s) {
        Some((id, _)) => if id == 0 {
            None
        } else {
            match take_props_for(s.skip(2), PacketKind::Suback, v) {
                Some((props, n)) => {
                    let codes = s.skip(2 + n);
                    if codes.len() >= 1 && (forall|i: int|
                        0 <= i < codes.len() ==> suback_code_ok(#[trigger] codes[i])) {
                        Some(SubackV { packet_id: id, codes, properties: props })
                    } else {
                        None
                    }
                },
                None => None,
            }
        },
        None => None,
    }
}

/// Parses UNSUBSCRIBE filters until the input is exhausted.
pub open spec fn take_filters(s: Seq<u8>) -> Option<Seq<Seq<u8>>>
    decreases s.len(),
{
    if s.len() == 0 {
        Some(Seq::empty())
    } else {
        match take_str(s) {
            Some((f, n)) => if valid_filter_spec(f) && 0 < n <= s.len() {
                match take_filters(s.skip(n)) {
                    Some(fs) => Some(seq![f] + fs),
                    None => None,
                }
            } else {
                None
            },
            None => None,
        }
    }
}

/// Parses an UNSUBSCRIBE body, consuming it exactly.
pub open spec fn take_unsubscribe_body(s: Seq<u8>, v: Version) -> Option<UnsubscribeV> {
    match take_u16(s) {
        Some((id, _)) => if id == 0 {
            None
        } else {
            match take_props_for(s.skip(2), PacketKind::Unsubscribe, v) {
                Some((props, n)) => match take_filters(s.skip(2 + n)) {
                    Some(fs) => if fs.len() >= 1 {
                        Some(UnsubscribeV { packet_id: id, filters: fs, properties: props })
                    } else {
                        None
                    },
                    None => None,
                },
                None => None,
            }
        },
        None => None,
    }
}

/// Parses an UNSUBACK body, consuming it exactly.
pub open spec fn take_unsuback_body(s: Seq<u8>, v: Version) -> Option<UnsubackV> {
    match take_u16(s) {
        Some((id, _)) => if id == 0 {
            None
        } else if v == Version::V311 {
            if s.len() == 2 {
                Some(UnsubackV { packet_id: id, codes: Seq::empty(), properties: Seq::empty() })
            } else {
                None
            }
        } else {
            match take_prop_block(s.skip(2), PacketKind::Unsuback) {
                Some((props, n)) => {
                    let codes = s.skip(2 + n);
                    if codes.len() >= 1 && (forall|i: int|
                        0 <= i < codes.len() ==> unsuback_code_ok(#[trigger] codes[i])) {
                        Some(UnsubackV { packet_id: id, codes, properties: props })
                    } else {
                        None
                    }
                },
                None => None,
            }
        },
        None => None,
    }
}

/// Parses a DISCONNECT body, consuming it exactly.
pub open spec fn take_disconnect_body(s: Seq<u8>, v: Version) -> Option<DisconnectV> {
    if s.len() == 0 {
        Some(DisconnectV { reason: 0, properties: Seq::empty() })
    } else if v == Version::V311 {
        None
    } else if s.len() == 1 {
        Some(DisconnectV { reason: s[0], properties: Seq::empty() })
    } else {
        match take_prop_block(s.skip(1), PacketKind::Disconnect) {
            Some((props, n)) => if 1 + n == s.len() {
                Some(DisconnectV { reason: s[0], properties: props })
            } else {
                None
            },
            None => None,
        }
    }
}

/// Parses a whole body, dispatching on the type-and-flags byte.
pub open spec fn take_packet_body(b0: u8, s: Seq<u8>, v: Version) -> Option<PacketV> {
    let t = b0 / 16;
    if t == 1 && b0 == 16 {
        match take_connect_body(s, v) {
            Some(p) => Some(PacketV::Connect(p)),
            None => None,
        }
    } else if t == 2 && b0 == 32 {
        match take_connack_body(s, v) {
            Some(p) => Some(PacketV::Connack(p)),
            None => None,
        }
    } else if t == 3 {
        let dup = (b0 / 8) % 2 == 1;
        let qos_bits = (b0 / 2) % 4;
        let retain = b0 % 2 == 1;
        if qos_bits > 2 {
            None
        } else {
            match take_publish_body(s, dup, crate::types::spec_qos_from(qos_bits), retain, v) {
                Some(p) => Some(PacketV::Publish(p)),
                None => None,
            }
        }
    } else if t == 4 && b0 == 64 {
        match take_ack_body(s, v, PacketKind::Puback) {
            Some(p) => Some(PacketV::Puback(p)),
            None => None,
        }
    } else if t == 5 && b0 == 80 {
        match take_ack_body(s, v, PacketKind::Pubrec) {
            Some(p) => Some(PacketV::Pubrec(p)),
            None => None,
        }
    } else if t == 6 && b0 == 98 {
        match take_ack_body(s, v, PacketKind::Pubrel) {
            Some(p) => Some(PacketV::Pubrel(p)),
            None => None,
        }
    } else if t == 7 && b0 == 112 {
        match take_ack_body(s, v, PacketKind::Pubcomp) {
            Some(p) => Some(PacketV::Pubcomp(p)),
            None => None,
        }
    } else if t == 8 && b0 == 130 {
        match take_subscribe_body(s, v) {
            Some(p) => Some(PacketV::Subscribe(p)),
            None => None,
        }
    } else if t == 9 && b0 == 144 {
        match take_suback_body(s, v) {
            Some(p) => Some(PacketV::Suback(p)),
            None => None,
        }
    } else if t == 10 && b0 == 162 {
        match take_unsubscribe_body(s, v) {
            Some(p) => Some(PacketV::Unsubscribe(p)),
            None => None,
        }
    } else if t == 11 && b0 == 176 {
        match take_unsuback_body(s, v) {
            Some(p) => Some(PacketV::Unsuback(p)),
            None => None,
        }
    } else if t == 12 && b0 == 192 {
        if s.len() == 0 {
            Some(PacketV::Pingreq)
        } else {
            None
        }
    } else if t == 13 && b0 == 208 {
        if s.len() == 0 {
            Some(PacketV::Pingresp)
        } else {
            None
        }
    } else if t == 14 && b0 == 224 {
        match take_disconnect_body(s, v) {
            Some(p) => Some(PacketV::Disconnect(p)),
            None => None,
        }
    } else {
        None
    }
}

/// Outcome of decoding a byte buffer.
pub enum DecodeV {
    Found(PacketV, int),
    Incomplete,
    Malformed,
}

/// Round trip for the optional property block.
pub proof fn lemma_props_for_round_trip(ps: Seq<PropertyV>, kind: PacketKind, v: Version, rest: Seq<
    u8,
>)
    requires
        props_wf(ps),
        props_allowed(ps, kind),
        enc_props(ps).len() <= VARINT_MAX,
        v == Version::V311 ==> ps.len() == 0,
    ensures
        take_props_for(enc_props_for(ps, v) + rest, kind, v) == Some(
            (ps, enc_props_for(ps, v).len() as int),
        ),
{
    if v == Version::V5 {
        crate::properties::lemma_prop_block_round_trip(ps, kind, rest);
    } else {
        assert(enc_props_for(ps, v) + rest =~= rest);
        assert(ps =~= Seq::<PropertyV>::empty());
    }
}

/// Round trip for an optional string field.
pub proof fn lemma_opt_str_round_trip(o: Option<Seq<u8>>, rest: Seq<u8>)
    requires
        o matches Some(b) ==> b.len() <= 65535 && utf8_ok(b),
    ensures
        take_opt_str(enc_opt_bin(o) + rest, o is Some) == Some(
            (o, enc_opt_bin(o).len() as int),
        ),
{
    match o {
        Some(b) => {
            crate::wire::lemma_str_round_trip(b, rest);
        },
        None => {
            assert(enc_opt_bin(o) + rest =~= rest);
        },
    }
}

/// Round trip for an optional binary field.
pub proof fn lemma_opt_bin_round_trip(o: Option<Seq<u8>>, rest: Seq<u8>)
    requires
        o matches Some(b) ==> b.len() <= 65535,
    ensures
        take_opt_bin(enc_opt_bin(o) + rest, o is Some) == Some(
            (o, enc_opt_bin(o).len() as int),
        ),
{
    match o {
        Some(b) => {
            crate::wire::lemma_bin_round_trip(b, rest);
        },
        None => {
            assert(enc_opt_bin(o) + rest =~= rest);
        },
    }
}

/// The QoS wire value round trip.
pub proof fn lemma_qos_byte(q: QoS)
    ensures
        crate::types::spec_qos_from(q.as_byte()) == q,
        q.as_byte() <= 2,
{
}

#[verifier::spinoff_prover]
#[verifier::rlimit(50)]
proof fn lemma_will_tail_round_trip(ww: WillV, v: Version, s: Seq<u8>, n1: int, rest: Seq<u8>)
    requires
        ww.wf(v),
        take_props_for(s, PacketKind::Will, v) == Some((ww.properties, n1)),
        0 <= n1 <= s.len(),
        s.skip(n1) == enc_bin(ww.topic) + (enc_bin(ww.payload) + rest),
    ensures
        take_will(s, true, ww.qos.as_byte(), ww.retain, v) == Some(
            (Some(ww), n1 + enc_bin(ww.topic).len() + enc_bin(ww.payload).len()),
        ),
{
    let a2 = enc_bin(ww.topic);
    let a3 = enc_bin(ww.payload);
    crate::wire::lemma_str_round_trip(ww.topic, a3 + rest);
    let n2 = a2.len() as int;
    assert(take_str(s.skip(n1)) == Some((ww.topic, n2)));
    assert((a2 + (a3 + rest)).skip(n2) =~= a3 + rest);
    assert(s.skip(n1).skip(n2) =~= s.skip(n1 + n2));
    assert(s.skip(n1 + n2) =~= a3 + rest);
    crate::wire::lemma_bin_round_trip(ww.payload, rest);
    let n3 = a3.len() as int;
    assert(take_bin(s.skip(n1 + n2)) == Some((ww.payload, n3)));
    lemma_qos_byte(ww.qos);
}

#[verifier::spinoff_prover]
#[verifier::rlimit(50)]
proof fn lemma_will_some_round_trip(ww: WillV, v: Version, rest: Seq<u8>)
    requires
        ww.wf(v),
    ensures
        take_will(enc_will(Some(ww), v) + rest, true, ww.qos.as_byte(), ww.retain, v) == Some(
            (Some(ww), enc_will(Some(ww), v).len() as int),
        ),
{
    let a1 = enc_props_for(ww.properties, v);
    let a2 = enc_bin(ww.topic);
    let a3 = enc_bin(ww.payload);
    let s = enc_will(Some(ww), v) + rest;
    assert(s =~= a1 + (a2 + (a3 + rest)));
    lemma_props_for_round_trip(ww.properties, PacketKind::Will, v, a2 + (a3 + rest));
    let n1 = a1.len() as int;
    assert(take_props_for(s, PacketKind::Will, v) == Some((ww.properties, n1)));
    assert(s.skip(n1) =~= a2 + (a3 + rest));
    lemma_will_tail_round_trip(ww, v, s, n1, rest);
    assert(enc_will(Some(ww), v).len() == n1 + a2.len() + a3.len());
}

/// Round trip for the will fields.
pub proof fn lemma_will_round_trip(w: Option<WillV>, v: Version, rest: Seq<u8>)
    requires
        w matches Some(ww) ==> ww.wf(v),
    ensures
        take_will(
            enc_will(w, v) + rest,
            w is Some,
            match w {
                Some(ww) => ww.qos.as_byte(),
                None => 0,
            },
            match w {
                Some(ww) => ww.retain,
                None => false,
            },
            v,
        ) == Some((w, enc_will(w, v).len() as int)),
{
    match w {
        None => {
            assert(enc_will(w, v) + rest =~= rest);
        },
        Some(ww) => {
            lemma_will_some_round_trip(ww, v, rest);
        },
    }
}

/// The CONNECT flags byte decodes to the fields it was built from.
pub proof fn lemma_connect_flags_bits(p: ConnectV)
    requires
        p.wf(Version::V311) || p.wf(Version::V5),
    ensures
        connect_flags(p) % 2 == 0,
        ((connect_flags(p) / 2) % 2 == 1) == p.clean_session,
        ((connect_flags(p) / 4) % 2 == 1) == (p.will is Some),
        (connect_flags(p) / 8) % 4 == match p.will {
            Some(w) => w.qos.as_byte() as int,
            None => 0int,
        },
        ((connect_flags(p) / 32) % 2 == 1) == match p.will {
            Some(w) => w.retain,
            None => false,
        },
        ((connect_flags(p) / 64) % 2 == 1) == (p.password is Some),
        (connect_flags(p) / 128 == 1) == (p.username is Some),
{
    let c: u8 = if p.clean_session {
        1
    } else {
        0
    };
    let wflag: u8 = if p.will is Some {
        1
    } else {
        0
    };
    let wq: u8 = match p.will {
        Some(w) => w.qos.as_byte(),
        None => 0,
    };
    let wr: u8 = match p.will {
        Some(w) => if w.retain {
            1
        } else {
            0
        },
        None => 0,
    };
    let pw: u8 = if p.password is Some {
        1
    } else {
        0
    };
    let un: u8 = if p.username is Some {
        1
    } else {
        0
    };
    let f = connect_flags(p);
    assert(wq <= 2) by {
        lemma_qos_byte(match p.will {
            Some(w) => w.qos,
            None => QoS::AtMostOnce,
        });
    }
    assert(f == c * 2 + wflag * 4 + wq * 8 + wr * 32 + pw * 64 + un * 128);
    assert((c <= 1 && wflag <= 1 && wq <= 2 && wr <= 1 && pw <= 1 && un <= 1 && f == c * 2 + wflag
        * 4 + wq * 8 + wr * 32 + pw * 64 + un * 128) ==> (f % 2 == 0 && (f / 2) % 2 == c && (f / 4)
        % 2 == wflag && (f / 8) % 4 == wq && (f / 32) % 2 == wr && (f / 64) % 2 == pw && f / 128
        == un)) by (bit_vector);
}

/// Decodes one packet from the front of `s`: the packet and the bytes
/// consumed, or `Incomplete` when `s` is a prefix of some longer parse,
/// or `Malformed` when no extension of `s` parses.
pub open spec fn spec_decode(s: Seq<u8>, v: Version) -> DecodeV {
    if s.len() == 0 {
        DecodeV::Incomplete
    } else if s[0] / 16 == 0 || s[0] / 16 == 15 {
        DecodeV::Malformed
    } else {
        match varint_parse(s.skip(1)) {
            SpecParse::Incomplete => DecodeV::Incomplete,
            SpecParse::Malformed => DecodeV::Malformed,
            SpecParse::Found(rl, n) => if s.len() < 1 + n + rl {
                DecodeV::Incomplete
            } else {
                match take_packet_body(s[0], s.subrange(1 + n, 1 + n + rl), v) {
                    Some(p) => DecodeV::Found(p, 1 + n + rl),
                    None => DecodeV::Malformed,
                }
            },
        }
    }
}

/// Skipping twice skips the sum.
pub proof fn lemma_skip_skip(s: Seq<u8>, a: int, b: int)
    requires
        0 <= a,
        0 <= b,
        a + b <= s.len(),
    ensures
        s.skip(a).skip(b) == s.skip(a + b),
{
    assert(s.skip(a).skip(b) =~= s.skip(a + b));
}

/// Skipping a leading segment leaves the rest.
pub proof fn lemma_concat_skip(a: Seq<u8>, b: Seq<u8>)
    ensures
        (a + b).skip(a.len() as int) == b,
{
    assert((a + b).skip(a.len() as int) =~= b);
}

#[verifier::spinoff_prover]
proof fn lemma_connack_body_round_trip(p: ConnackV, v: Version)
    requires
        p.wf(v),
    ensures
        take_connack_body(enc_connack_body(p, v), v) == Some(p),
{
    let head = seq![
        (if p.session_present {
            1u8
        } else {
            0u8
        }),
        p.code,
    ];
    let a1 = enc_props_for(p.properties, v);
    let s = enc_connack_body(p, v);
    assert(s =~= head + a1);
    assert(s[0] == head[0] && s[1] == head[1]);
    if v == Version::V311 {
        assert(a1.len() == 0);
        assert(s.len() == 2);
        assert(p.properties =~= Seq::<PropertyV>::empty());
    } else {
        lemma_concat_skip(head, a1);
        crate::properties::lemma_prop_block_round_trip(
            p.properties,
            PacketKind::Connack,
            Seq::empty(),
        );
        assert(enc_prop_block(p.properties) + Seq::<u8>::empty() =~= enc_prop_block(
            p.properties,
        ));
        assert(take_prop_block(s.skip(2), PacketKind::Connack) == Some(
            (p.properties, a1.len() as int),
        ));
    }
}

#[verifier::spinoff_prover]
proof fn lemma_ack_body_round_trip(p: AckV, v: Version, kind: PacketKind)
    requires
        p.wf(v, kind),
    ensures
        take_ack_body(enc_ack_body(p, v), v, kind) == Some(p),
{
    let s = enc_ack_body(p, v);
    if v == Version::V311 || (p.reason == 0 && p.properties.len() == 0) {
        crate::wire::lemma_u16_round_trip(p.packet_id, Seq::empty());
        assert(enc_u16(p.packet_id) + Seq::<u8>::empty() =~= s);
        assert(s.len() == 2);
        assert(p.properties =~= Seq::<PropertyV>::empty());
    } else if p.properties.len() == 0 {
        crate::wire::lemma_u16_round_trip(p.packet_id, seq![p.reason]);
        assert(enc_u16(p.packet_id) + seq![p.reason] =~= s);
        assert(s.len() == 3);
        assert(s[2] == p.reason);
        assert(p.properties =~= Seq::<PropertyV>::empty());
    } else {
        let a3 = enc_prop_block(p.properties);
        assert(s =~= enc_u16(p.packet_id) + (seq![p.reason] + a3));
        crate::wire::lemma_u16_round_trip(p.packet_id, seq![p.reason] + a3);
        assert(s[2] == p.reason);
        crate::properties::lemma_prop_block_round_trip(p.properties, kind, Seq::empty());
        assert(a3 + Seq::<u8>::empty() =~= a3);
        assert(s.skip(3) =~= a3);
        assert(a3.len() >= 2) by {
            assert(enc_props(p.properties).len() >= 1) by {
                assert(enc_props(p.properties) == enc_prop(p.properties[0]) + enc_props(
                    p.properties.skip(1),
                ));
            }
            crate::varint::lemma_varint_encode_len(enc_props(p.properties).len());
        }
        assert(s.len() >= 4);
        assert(take_prop_block(s.skip(3), kind) == Some((p.properties, a3.len() as int)));
    }
}

#[verifier::spinoff_prover]
proof fn lemma_disconnect_body_round_trip(p: DisconnectV, v: Version)
    requires
        p.wf(v),
    ensures
        take_disconnect_body(enc_disconnect_body(p, v), v) == Some(p),
{
    let s = enc_disconnect_body(p, v);
    if v == Version::V311 || (p.reason == 0 && p.properties.len() == 0) {
        assert(s.len() == 0);
        assert(p.properties =~= Seq::<PropertyV>::empty());
    } else if p.properties.len() == 0 {
        assert(s.len() == 1 && s[0] == p.reason);
        assert(p.properties =~= Seq::<PropertyV>::empty());
    } else {
        let a2 = enc_prop_block(p.properties);
        assert(s =~= seq![p.reason] + a2);
        assert(s[0] == p.reason);
        crate::properties::lemma_prop_block_round_trip(
            p.properties,
            PacketKind::Disconnect,
            Seq::empty(),
        );
        assert(a2 + Seq::<u8>::empty() =~= a2);
        assert(s.skip(1) =~= a2);
        assert(a2.len() >= 2) by {
            assert(enc_props(p.properties).len() >= 1) by {
                assert(enc_props(p.properties) == enc_prop(p.properties[0]) + enc_props(
                    p.properties.skip(1),
                ));
            }
            crate::varint::lemma_varint_encode_len(enc_props(p.properties).len());
        }
        assert(s.len() >= 2);
        assert(take_prop_block(s.skip(1), PacketKind::Disconnect) == Some(
            (p.properties, a2.len() as int),
        ));
    }
}

#[verifier::spinoff_prover]
#[verifier::rlimit(50)]
proof fn lemma_suback_body_round_trip(p: SubackV, v: Version)
    requires
        p.wf(v),
    ensures
        take_suback_body(enc_suback_body(p, v), v) == Some(p),
{
    let a1 = enc_u16(p.packet_id);
    let a2 = enc_props_for(p.properties, v);
    let s = enc_suback_body(p, v);
    assert(s =~= a1 + (a2 + p.codes));
    crate::wire::lemma_u16_round_trip(p.packet_id, a2 + p.codes);
    assert(s.skip(2) =~= a2 + p.codes);
    lemma_props_for_round_trip(p.properties, PacketKind::Suback, v, p.codes);
    let n = a2.len() as int;
    assert(take_props_for(s.skip(2), PacketKind::Suback, v) == Some((p.properties, n)));
    lemma_skip_skip(s, 2, n);
    lemma_concat_skip(a2, p.codes);
    assert(s.skip(2 + n) == p.codes);
}

#[verifier::spinoff_prover]
#[verifier::rlimit(50)]
proof fn lemma_unsuback_body_round_trip(p: UnsubackV, v: Version)
    requires
        p.wf(v),
    ensures
        take_unsuback_body(enc_unsuback_body(p, v), v) == Some(p),
{
    let a1 = enc_u16(p.packet_id);
    let s = enc_unsuback_body(p, v);
    if v == Version::V311 {
        crate::wire::lemma_u16_round_trip(p.packet_id, Seq::empty());
        assert(a1 + Seq::<u8>::empty() =~= s);
        assert(s.len() == 2);
        assert(p.properties =~= Seq::<PropertyV>::empty());
        assert(p.codes =~= Seq::<u8>::empty());
    } else {
        let a2 = enc_prop_block(p.properties);
        assert(s =~= a1 + (a2 + p.codes));
        crate::wire::lemma_u16_round_trip(p.packet_id, a2 + p.codes);
        assert(s.skip(2) =~= a2 + p.codes);
        crate::properties::lemma_prop_block_round_trip(
            p.properties,
            PacketKind::Unsuback,
            p.codes,
        );
        let n = a2.len() as int;
        assert(take_prop_block(s.skip(2), PacketKind::Unsuback) == Some((p.properties, n)));
        lemma_skip_skip(s, 2, n);
        lemma_concat_skip(a2, p.codes);
        assert(s.skip(2 + n) == p.codes);
    }
}

#[verifier::spinoff_prover]
#[verifier::rlimit(50)]
proof fn lemma_sub_req_round_trip(r: SubRequestV, v: Version, rest: Seq<u8>)
    requires
        r.wf(v),
    ensures
        take_sub_req(enc_sub_req(r) + rest, v) == Some((r, enc_sub_req(r).len() as int)),
        enc_sub_req(r).len() >= 1,
{
    let a1 = enc_bin(r.filter);
    let b = sub_opts_byte(r);
    let s = enc_sub_req(r) + rest;
    assert(s =~= a1 + (seq![b] + rest));
    crate::wire::lemma_str_round_trip(r.filter, seq![b] + rest);
    let n = a1.len() as int;
    assert(take_str(s) == Some((r.filter, n)));
    lemma_concat_skip(a1, seq![b] + rest);
    assert(s[n] == b);
    let q: u8 = r.qos.as_byte();
    let nl: u8 = if r.no_local {
        1
    } else {
        0
    };
    let rap: u8 = if r.retain_as_published {
        1
    } else {
        0
    };
    let rh: u8 = r.retain_handling;
    lemma_qos_byte(r.qos);
    assert(b == q + nl * 4 + rap * 8 + rh * 16);
    assert((q <= 2 && nl <= 1 && rap <= 1 && rh <= 2 && b == q + nl * 4 + rap * 8 + rh * 16) ==> (
    (b as int) % 4 == q && (b / 4) % 2 == nl && (b / 8) % 2 == rap && ((b as int) / 16) % 4 == rh
        && b / 64 == 0)) by (bit_vector);
    if v == Version::V311 {
        assert((nl == 0 && rap == 0 && rh == 0 && q <= 2 && b == q + nl * 4 + rap * 8 + rh * 16)
            ==> b <= 2) by (bit_vector);
    }
}

#[verifier::spinoff_prover]
proof fn lemma_sub_reqs_round_trip(rs: Seq<SubRequestV>, v: Version)
    requires
        forall|i: int| 0 <= i < rs.len() ==> (#[trigger] rs[i]).wf(v),
    ensures
        take_sub_reqs(enc_sub_reqs(rs), v) == Some(rs),
    decreases rs.len(),
{
    if rs.len() == 0 {
        assert(enc_sub_reqs(rs).len() == 0);
        assert(rs =~= Seq::<SubRequestV>::empty());
    } else {
        let head = rs[0];
        let tail = rs.skip(1);
        let s = enc_sub_reqs(rs);
        assert(s =~= enc_sub_req(head) + enc_sub_reqs(tail));
        lemma_sub_req_round_trip(head, v, enc_sub_reqs(tail));
        let n = enc_sub_req(head).len() as int;
        lemma_concat_skip(enc_sub_req(head), enc_sub_reqs(tail));
        assert(forall|i: int| 0 <= i < tail.len() ==> (#[trigger] tail[i]) == rs[i + 1]);
        lemma_sub_reqs_round_trip(tail, v);
        assert(seq![head] + tail =~= rs);
    }
}

#[verifier::spinoff_prover]
#[verifier::rlimit(50)]
proof fn lemma_subscribe_body_round_trip(p: SubscribeV, v: Version)
    requires
        p.wf(v),
    ensures
        take_subscribe_body(enc_subscribe_body(p, v), v) == Some(p),
{
    let a1 = enc_u16(p.packet_id);
    let a2 = enc_props_for(p.properties, v);
    let a3 = enc_sub_reqs(p.requests);
    let s = enc_subscribe_body(p, v);
    assert(s =~= a1 + (a2 + a3));
    crate::wire::lemma_u16_round_trip(p.packet_id, a2 + a3);
    assert(s.skip(2) =~= a2 + a3);
    lemma_props_for_round_trip(p.properties, PacketKind::Subscribe, v, a3);
    let n = a2.len() as int;
    assert(take_props_for(s.skip(2), PacketKind::Subscribe, v) == Some((p.properties, n)));
    lemma_skip_skip(s, 2, n);
    lemma_concat_skip(a2, a3);
    assert(s.skip(2 + n) == a3);
    lemma_sub_reqs_round_trip(p.requests, v);
}

#[verifier::spinoff_prover]
#[verifier::rlimit(100)]
proof fn lemma_filters_round_trip(fs: Seq<Seq<u8>>)
    requires
        forall|i: int|
            0 <= i < fs.len() ==> valid_filter_spec(#[trigger] fs[i]) && utf8_ok(fs[i]),
    ensures
        take_filters(enc_filters(fs)) == Some(fs),
    decreases fs.len(),
{
    if fs.len() == 0 {
        assert(enc_filters(fs).len() == 0);
        assert(fs =~= Seq::<Seq<u8>>::empty());
    } else {
        let head = fs[0];
        let tail = fs.skip(1);
        let s = enc_filters(fs);
        assert(s =~= enc_bin(head) + enc_filters(tail));
        crate::wire::lemma_str_round_trip(head, enc_filters(tail));
        let n = 2 + head.len() as int;
        lemma_concat_skip(enc_bin(head), enc_filters(tail));
        assert(forall|i: int| 0 <= i < tail.len() ==> (#[trigger] tail[i]) == fs[i + 1]);
        lemma_filters_round_trip(tail);
        assert(seq![head] + tail =~= fs);
    }
}

#[verifier::spinoff_prover]
#[verifier::rlimit(50)]
proof fn lemma_unsubscribe_body_round_trip(p: UnsubscribeV, v: Version)
    requires
        p.wf(v),
    ensures
        take_unsubscribe_body(enc_unsubscribe_body(p, v), v) == Some(p),
{
    let a1 = enc_u16(p.packet_id);
    let a2 = enc_props_for(p.properties, v);
    let a3 = enc_filters(p.filters);
    let s = enc_unsubscribe_body(p, v);
    assert(s =~= a1 + (a2 + a3));
    crate::wire::lemma_u16_round_trip(p.packet_id, a2 + a3);
    assert(s.skip(2) =~= a2 + a3);
    lemma_props_for_round_trip(p.properties, PacketKind::Unsubscribe, v, a3);
    let n = a2.len() as int;
    assert(take_props_for(s.skip(2), PacketKind::Unsubscribe, v) == Some((p.properties, n)));
    lemma_skip_skip(s, 2, n);
    lemma_concat_skip(a2, a3);
    assert(s.skip(2 + n) == a3);
    lemma_filters_round_trip(p.filters);
}

#[verifier::spinoff_prover]
#[verifier::rlimit(50)]
proof fn lemma_publish_body_round_trip(p: PublishV, v: Version)
    requires
        p.wf(v),
    ensures
        take_publish_body(enc_publish_body(p, v), p.dup, p.qos, p.retain, v) == Some(p),
{
    let a1 = enc_bin(p.topic);
    let a2: Seq<u8> = match p.packet_id {
        Some(id) => enc_u16(id),
        None => Seq::empty(),
    };
    let a3 = enc_props_for(p.properties, v);
    let s = enc_publish_body(p, v);
    assert(s =~= a1 + (a2 + (a3 + p.payload)));
    crate::wire::lemma_str_round_trip(p.topic, a2 + (a3 + p.payload));
    let n1 = a1.len() as int;
    assert(take_str(s) == Some((p.topic, n1)));
    lemma_concat_skip(a1, a2 + (a3 + p.payload));
    let n2 = a2.len() as int;
    match p.packet_id {
        Some(id) => {
            crate::wire::lemma_u16_round_trip(id, a3 + p.payload);
            assert(take_u16(s.skip(n1)) == Some((id, 2int)));
        },
        None => {
            assert(a2 + (a3 + p.payload) =~= a3 + p.payload);
        },
    }
    lemma_skip_skip(s, n1, n2);
    assert((a2 + (a3 + p.payload)).skip(n2) =~= a3 + p.payload);
    assert(s.skip(n1 + n2) == a3 + p.payload);
    lemma_props_for_round_trip(p.properties, PacketKind::Publish, v, p.payload);
    let n3 = a3.len() as int;
    assert(take_props_for(s.skip(n1 + n2), PacketKind::Publish, v) == Some((p.properties, n3)));
    lemma_skip_skip(s, n1 + n2, n3);
    lemma_concat_skip(a3, p.payload);
    assert(s.skip(n1 + n2 + n3) == p.payload);
}

#[verifier::spinoff_prover]
#[verifier::rlimit(100)]
proof fn lemma_connect_chain(p: ConnectV, v: Version, s: Seq<u8>)
    requires
        p.wf(v),
        10 <= s.len(),
        s.skip(10) == enc_props_for(p.properties, v) + (enc_bin(p.client_id) + (enc_will(
            p.will,
            v,
        ) + (enc_opt_bin(p.username) + enc_opt_bin(p.password)))),
    ensures
        ({
            let n1 = enc_props_for(p.properties, v).len() as int;
            let n2 = enc_bin(p.client_id).len() as int;
            let n3 = enc_will(p.will, v).len() as int;
            let n4 = enc_opt_bin(p.username).len() as int;
            let n5 = enc_opt_bin(p.password).len() as int;
            &&& take_props_for(s.skip(10), PacketKind::Connect, v) == Some((p.properties, n1))
            &&& take_str(s.skip(10 + n1)) == Some((p.client_id, n2))
            &&& take_will(
                s.skip(10 + n1 + n2),
                p.will is Some,
                match p.will {
                    Some(w) => w.qos.as_byte(),
                    None => 0,
                },
                match p.will {
                    Some(w) => w.retain,
                    None => false,
                },
                v,
            ) == Some((p.will, n3))
            &&& take_opt_str(s.skip(10 + n1 + n2 + n3), p.username is Some) == Some(
                (p.username, n4),
            )
            &&& take_opt_bin(s.skip(10 + n1 + n2 + n3 + n4), p.password is Some) == Some(
                (p.password, n5),
            )
            &&& 10 + n1 + n2 + n3 + n4 + n5 == s.len()
        }),
{
    let a3 = enc_props_for(p.properties, v);
    let a4 = enc_bin(p.client_id);
    let a5 = enc_will(p.will, v);
    let a6 = enc_opt_bin(p.username);
    let a7 = enc_opt_bin(p.password);
    let n1 = a3.len() as int;
    let n2 = a4.len() as int;
    let n3 = a5.len() as int;
    let n4 = a6.len() as int;
    let n5 = a7.len() as int;
    lemma_props_for_round_trip(p.properties, PacketKind::Connect, v, a4 + (a5 + (a6 + a7)));
    lemma_skip_skip(s, 10, n1);
    lemma_concat_skip(a3, a4 + (a5 + (a6 + a7)));
    assert(s.skip(10 + n1) == a4 + (a5 + (a6 + a7)));
    crate::wire::lemma_str_round_trip(p.client_id, a5 + (a6 + a7));
    lemma_skip_skip(s, 10 + n1, n2);
    lemma_concat_skip(a4, a5 + (a6 + a7));
    assert(s.skip(10 + n1 + n2) == a5 + (a6 + a7));
    lemma_will_round_trip(p.will, v, a6 + a7);
    lemma_skip_skip(s, 10 + n1 + n2, n3);
    lemma_concat_skip(a5, a6 + a7);
    assert(s.skip(10 + n1 + n2 + n3) == a6 + a7);
    lemma_opt_str_round_trip(p.username, a7);
    lemma_skip_skip(s, 10 + n1 + n2 + n3, n4);
    lemma_concat_skip(a6, a7);
    assert(s.skip(10 + n1 + n2 + n3 + n4) == a7);
    lemma_opt_bin_round_trip(p.password, Seq::empty());
    assert(a7 + Seq::<u8>::empty() =~= a7);
}

#[verifier::spinoff_prover]
#[verifier::rlimit(100)]
proof fn lemma_connect_body_round_trip(p: ConnectV, v: Version)
    requires
        p.wf(v),
    ensures
        take_connect_body(enc_connect_body(p, v), v) == Some(p),
{
    let head = proto_name() + seq![v.level(), connect_flags(p)] + enc_u16(p.keepalive);
    let tail = enc_props_for(p.properties, v) + (enc_bin(p.client_id) + (enc_will(p.will, v)
        + (enc_opt_bin(p.username) + enc_opt_bin(p.password))));
    let s = enc_connect_body(p, v);
    assert(s =~= head + tail);
    assert(head.len() == 10);
    assert(s.subrange(0, 6) =~= proto_name());
    assert(s[6] == v.level());
    assert(s[7] == connect_flags(p));
    assert(s[8] == (p.keepalive / 256) as u8 && s[9] == (p.keepalive % 256) as u8);
    assert((s[8] as int * 256 + s[9] as int) as u16 == p.keepalive);
    lemma_connect_flags_bits(p);
    lemma_concat_skip(head, tail);
    assert(s.skip(10) == tail);
    lemma_connect_chain(p, v, s);
    match p.will {
        Some(w) => {
            lemma_qos_byte(w.qos);
            assert(((connect_flags(p) / 8) % 4) as u8 == w.qos.as_byte());
        },
        None => {
            assert(((connect_flags(p) / 8) % 4) as u8 == 0);
        },
    }
}

/// The type nibble of the first byte names the packet's kind and is never
/// one of the two reserved values; for PUBLISH the flag bits decode to the
/// fields they were built from.
proof fn lemma_first_byte_bits(p: PacketV)
    ensures
        1 <= first_byte(p) / 16 <= 14,
        p matches PacketV::Publish(q) ==> {
            &&& first_byte(p) / 16 == 3
            &&& ((first_byte(p) / 8) % 2 == 1) == q.dup
            &&& (first_byte(p) / 2) % 4 == q.qos.as_byte() as int
            &&& (first_byte(p) % 2 == 1) == q.retain
        },
{
    match p {
        PacketV::Publish(q) => {
            let d: u8 = if q.dup {
                1
            } else {
                0
            };
            let qb: u8 = q.qos.as_byte();
            let r: u8 = if q.retain {
                1
            } else {
                0
            };
            lemma_qos_byte(q.qos);
            let fb = first_byte(p);
            assert(fb == 48 + d * 8 + qb * 2 + r);
            assert((d <= 1 && qb <= 2 && r <= 1 && fb == 48 + d * 8 + qb * 2 + r) ==> (fb / 16
                == 3 && (fb / 8) % 2 == d && (fb / 2) % 4 == qb && fb % 2 == r)) by (bit_vector);
        },
        _ => {},
    }
}

/// The body of a well-formed packet parses back to the packet.
#[verifier::spinoff_prover]
#[verifier::rlimit(100)]
proof fn lemma_take_packet_body(p: PacketV, v: Version)
    requires
        p.wf(v),
    ensures
        take_packet_body(first_byte(p), enc_body(p, v), v) == Some(p),
{
    let fb = first_byte(p);
    let body = enc_body(p, v);
    lemma_first_byte_bits(p);
    match p {
        PacketV::Connect(q) => {
            lemma_connect_body_round_trip(q, v);
        },
        PacketV::Connack(q) => {
            lemma_connack_body_round_trip(q, v);
        },
        PacketV::Publish(q) => {
            lemma_qos_byte(q.qos);
            assert(crate::types::spec_qos_from((((fb / 2) % 4)) as u8) == q.qos);
            lemma_publish_body_round_trip(q, v);
        },
        PacketV::Puback(q) => {
            lemma_ack_body_round_trip(q, v, PacketKind::Puback);
        },
        PacketV::Pubrec(q) => {
            lemma_ack_body_round_trip(q, v, PacketKind::Pubrec);
        },
        PacketV::Pubrel(q) => {
            lemma_ack_body_round_trip(q, v, PacketKind::Pubrel);
        },
        PacketV::Pubcomp(q) => {
            lemma_ack_body_round_trip(q, v, PacketKind::Pubcomp);
        },
        PacketV::Subscribe(q) => {
            lemma_subscribe_body_round_trip(q, v);
        },
        PacketV::Suback(q) => {
            lemma_suback_body_round_trip(q, v);
        },
        PacketV::Unsubscribe(q) => {
            lemma_unsubscribe_body_round_trip(q, v);
        },
        PacketV::Unsuback(q) => {
            lemma_unsuback_body_round_trip(q, v);
        },
        PacketV::Pingreq => {},
        PacketV::Pingresp => {},
        PacketV::Disconnect(q) => {
            lemma_disconnect_body_round_trip(q, v);
        },
    }
}

/// Round trip: decoding the encoding of any well-formed packet yields
/// exactly that packet and consumes exactly its encoding.
pub proof fn lemma_encode_decode(p: PacketV, v: Version)
    requires
        p.wf(v),
    ensures
        spec_decode(spec_encode(p, v), v) == DecodeV::Found(p, spec_encode(p, v).len() as int),
{
    let body = enc_body(p, v);
    let lenc = varint_encode(body.len());
    let s = spec_encode(p, v);
    assert(s =~= seq![first_byte(p)] + (lenc + body));
    assert(s[0] == first_byte(p));
    lemma_first_byte_bits(p);
    assert(s.skip(1) =~= lenc + body);
    crate::varint::lemma_varint_round_trip(body.len(), body);
    let vn = lenc.len() as int;
    assert(varint_parse(s.skip(1)) == SpecParse::Found(body.len() as int, vn));
    assert(s.len() == 1 + vn + body.len());
    assert(s.subrange(1 + vn, 1 + vn + body.len() as int) =~= body);
    lemma_take_packet_body(p, v);
}

/// Every strict prefix of a well-formed packet's encoding decodes as
/// `Incomplete`: the decoder waits for the rest rather than misreading.
pub proof fn lemma_decode_prefix_incomplete(p: PacketV, v: Version, k: int)
    requires
        p.wf(v),
        0 <= k < spec_encode(p, v).len(),
    ensures
        spec_decode(spec_encode(p, v).take(k), v) == DecodeV::Incomplete,
{
    let body = enc_body(p, v);
    let lenc = varint_encode(body.len());
    let vn = lenc.len() as int;
    let s = spec_encode(p, v);
    let t = s.take(k);
    crate::varint::lemma_varint_encode_len(body.len());
    assert(s =~= seq![first_byte(p)] + (lenc + body));
    if k == 0 {
        assert(t.len() == 0);
    } else {
        assert(t[0] == first_byte(p));
        lemma_first_byte_bits(p);
        if k < 1 + vn {
            assert(t.skip(1) =~= lenc.take(k - 1));
            crate::varint::lemma_varint_prefix_incomplete(body.len(), k - 1);
        } else {
            assert(t.skip(1) =~= lenc + body.take(k - 1 - vn));
            crate::varint::lemma_varint_round_trip(body.len(), body.take(k - 1 - vn));
            assert(varint_parse(t.skip(1)) == SpecParse::Found(body.len() as int, vn));
            assert(s.len() == 1 + vn + body.len());
            assert(t.len() == k < 1 + vn + body.len());
        }
    }
}

fn write_opt_bin(o: &Option<Vec<u8>>, out: &mut Vec<u8>)
    requires
        (o matches Some(b) ==> b@.len() <= 65535),
    ensures
        final(out)@ == old(out)@ + enc_opt_bin(match o {
            Some(b) => Some(b@),
            None => None,
        }),
{
    match o {
        Some(b) => {
            crate::wire::write_bin(b.as_slice(), out);
        },
        None => {
            assert(out@ + enc_opt_bin(None::<Seq<u8>>) =~= out@);
        },
    }
}

fn write_props_for(props: &PropertyList, kind: Ghost<PacketKind>, v: Version, out: &mut Vec<u8>)
    requires
        props_wf(props@),
        enc_props(props@).len() <= VARINT_MAX,
    ensures
        final(out)@ == old(out)@ + enc_props_for(props@, v),
{
    if matches!(v, Version::V5) {
        write_prop_block(props, out);
    } else {
        assert(out@ + enc_props_for(props@, v) =~= out@);
    }
}

fn connect_flags_byte(p: &ConnectPacket) -> (r: u8)
    ensures
        r == connect_flags(p@),
{
    let mut flags: u8 = 0;
    if p.clean_session {
        flags = flags + 2;
    }
    match &p.will {
        Some(w) => {
            flags = flags + 4 + w.qos.to_byte() * 8;
            if w.retain {
                flags = flags + 32;
            }
        },
        None => {},
    }
    if p.password.is_some() {
        flags = flags + 64;
    }
    if p.username.is_some() {
        flags = flags + 128;
    }
    proof {
        lemma_qos_byte(match p@.will {
            Some(w) => w.qos,
            None => QoS::AtMostOnce,
        });
    }
    flags
}

#[verifier::spinoff_prover]
#[verifier::rlimit(100)]
fn write_connect_body(p: &ConnectPacket, v: Version, out: &mut Vec<u8>)
    requires
        p@.wf(v),
    ensures
        final(out)@ == old(out)@ + enc_connect_body(p@, v),
{
    let ghost pre = out@;
    out.push(0);
    out.push(4);
    out.push(77);
    out.push(81);
    out.push(84);
    out.push(84);
    let level: u8 = match v {
        Version::V311 => 4,
        Version::V5 => 5,
    };
    out.push(level);
    let flags = connect_flags_byte(p);
    out.push(flags);
    assert(out@ =~= pre + proto_name() + seq![v.level(), connect_flags(p@)]);
    crate::wire::write_u16(p.keepalive, out);
    let ghost head = pre + proto_name() + seq![v.level(), connect_flags(p@)] + enc_u16(
        p@.keepalive,
    );
    assert(out@ == head);
    write_props_for(&p.properties, Ghost(PacketKind::Connect), v, out);
    crate::wire::write_bin(p.client_id.as_slice(), out);
    let ghost mid1 = head + enc_props_for(p@.properties, v) + enc_bin(p@.client_id);
    assert(out@ == mid1);
    match &p.will {
        Some(w) => {
            write_props_for(&w.properties, Ghost(PacketKind::Will), v, out);
            crate::wire::write_bin(w.topic.as_slice(), out);
            crate::wire::write_bin(w.payload.as_slice(), out);
            assert(out@ =~= mid1 + enc_will(p@.will, v));
        },
        None => {
            assert(out@ =~= mid1 + enc_will(p@.will, v));
        },
    }
    let ghost mid2 = mid1 + enc_will(p@.will, v);
    assert(out@ == mid2);
    write_opt_bin(&p.username, out);
    write_opt_bin(&p.password, out);
    assert(out@ == mid2 + enc_opt_bin(p@.username) + enc_opt_bin(p@.password));
    assert(out@ =~= pre + enc_connect_body(p@, v));
}

fn write_connack_body(p: &ConnackPacket, v: Version, out: &mut Vec<u8>)
    requires
        p@.wf(v),
    ensures
        final(out)@ == old(out)@ + enc_connack_body(p@, v),
{
    let ghost pre = out@;
    if p.session_present {
        out.push(1);
    } else {
        out.push(0);
    }
    out.push(p.code);
    write_props_for(&p.properties, Ghost(PacketKind::Connack), v, out);
    assert(out@ =~= pre + enc_connack_body(p@, v));
}

fn write_publish_body(p: &PublishPacket, v: Version, out: &mut Vec<u8>)
    requires
        p@.wf(v),
    ensures
        final(out)@ == old(out)@ + enc_publish_body(p@, v),
{
    let ghost pre = out@;
    crate::wire::write_bin(p.topic.as_slice(), out);
    match p.packet_id {
        Some(id) => {
            crate::wire::write_u16(id, out);
        },
        None => {},
    }
    write_props_for(&p.properties, Ghost(PacketKind::Publish), v, out);
    let mut payload = crate::wire::slice_to_vec_u8(p.payload.as_slice());
    out.append(&mut payload);
    assert(out@ =~= pre + enc_publish_body(p@, v));
}

fn write_ack_body(p: &AckPacket, v: Version, kind: Ghost<PacketKind>, out: &mut Vec<u8>)
    requires
        p@.wf(v, kind@),
    ensures
        final(out)@ == old(out)@ + enc_ack_body(p@, v),
{
    let ghost pre = out@;
    crate::wire::write_u16(p.packet_id, out);
    let plain = p.reason == 0 && p.properties.len() == 0;
    if matches!(v, Version::V311) || plain {
        assert(out@ =~= pre + enc_ack_body(p@, v));
    } else if p.properties.len() == 0 {
        out.push(p.reason);
        assert(out@ =~= pre + enc_ack_body(p@, v));
    } else {
        out.push(p.reason);
        write_prop_block(&p.properties, out);
        assert(out@ =~= pre + enc_ack_body(p@, v));
    }
}

fn write_subscribe_body(p: &SubscribePacket, v: Version, out: &mut Vec<u8>)
    requires
        p@.wf(v),
    ensures
        final(out)@ == old(out)@ + enc_subscribe_body(p@, v),
{
    let ghost pre = out@;
    crate::wire::write_u16(p.packet_id, out);
    write_props_for(&p.properties, Ghost(PacketKind::Subscribe), v, out);
    let ghost rs = p@.requests;
    proof {
        assert(rs.take(0) =~= Seq::<SubRequestV>::empty());
        assert(out@ =~= pre + enc_u16(p@.packet_id) + enc_props_for(p@.properties, v)
            + enc_sub_reqs(rs.take(0)));
    }
    let mut i: usize = 0;
    while i < p.requests.len()
        invariant
            i <= p.requests@.len(),
            rs == p@.requests,
            rs.len() == p.requests@.len(),
            forall|j: int| 0 <= j < rs.len() ==> (#[trigger] rs[j]).wf(Version::V311) || rs[j].wf(
                Version::V5,
            ),
            out@ == pre + enc_u16(p@.packet_id) + enc_props_for(p@.properties, v) + enc_sub_reqs(
                rs.take(i as int),
            ),
        decreases p.requests@.len() - i,
    {
        let ghost mid = out@;
        let r = &p.requests[i];
        proof {
            assert(rs[i as int] == p.requests@[i as int]@);
        }
        crate::wire::write_bin(r.filter.as_slice(), out);
        let mut b: u8 = r.qos.to_byte();
        if r.no_local {
            b = b + 4;
        }
        if r.retain_as_published {
            b = b + 8;
        }
        b = b + r.retain_handling * 16;
        proof {
            lemma_qos_byte(r@.qos);
        }
        out.push(b);
        proof {
            assert(b == sub_opts_byte(rs[i as int]));
            assert(out@ =~= mid + enc_sub_req(rs[i as int]));
            assert(rs.take(i + 1) =~= rs.take(i as int).push(rs[i as int]));
            lemma_enc_sub_reqs_push(rs.take(i as int), rs[i as int]);
        }
        i = i + 1;
    }
    assert(rs.take(rs.len() as int) =~= rs);
}

/// Appending one entry appends its encoding.
proof fn lemma_enc_sub_reqs_push(rs: Seq<SubRequestV>, r: SubRequestV)
    ensures
        enc_sub_reqs(rs.push(r)) == enc_sub_reqs(rs) + enc_sub_req(r),
    decreases rs.len(),
{
    if rs.len() == 0 {
        assert(rs.push(r)[0] == r);
        assert(rs.push(r).skip(1) =~= Seq::<SubRequestV>::empty());
        assert(enc_sub_reqs(Seq::<SubRequestV>::empty()) =~= Seq::<u8>::empty());
        assert(enc_sub_reqs(rs.push(r)) =~= enc_sub_reqs(rs) + enc_sub_req(r));
    } else {
        assert(rs.push(r).skip(1) =~= rs.skip(1).push(r));
        lemma_enc_sub_reqs_push(rs.skip(1), r);
        assert(enc_sub_reqs(rs.push(r)) =~= enc_sub_reqs(rs) + enc_sub_req(r));
    }
}

/// Appending one filter appends its encoding.
proof fn lemma_enc_filters_push(fs: Seq<Seq<u8>>, f: Seq<u8>)
    ensures
        enc_filters(fs.push(f)) == enc_filters(fs) + enc_bin(f),
    decreases fs.len(),
{
    if fs.len() == 0 {
        assert(fs.push(f)[0] == f);
        assert(fs.push(f).skip(1) =~= Seq::<Seq<u8>>::empty());
        assert(enc_filters(Seq::<Seq<u8>>::empty()) =~= Seq::<u8>::empty());
        assert(enc_filters(fs.push(f)) =~= enc_filters(fs) + enc_bin(f));
    } else {
        assert(fs.push(f).skip(1) =~= fs.skip(1).push(f));
        lemma_enc_filters_push(fs.skip(1), f);
        assert(enc_filters(fs.push(f)) =~= enc_filters(fs) + enc_bin(f));
    }
}

fn write_suback_body(p: &SubackPacket, v: Version, out: &mut Vec<u8>)
    requires
        p@.wf(v),
    ensures
        final(out)@ == old(out)@ + enc_suback_body(p@, v),
{
    let ghost pre = out@;
    crate::wire::write_u16(p.packet_id, out);
    write_props_for(&p.properties, Ghost(PacketKind::Suback), v, out);
    let mut codes = crate::wire::slice_to_vec_u8(p.codes.as_slice());
    out.append(&mut codes);
    assert(out@ =~= pre + enc_suback_body(p@, v));
}

fn write_unsubscribe_body(p: &UnsubscribePacket, v: Version, out: &mut Vec<u8>)
    requires
        p@.wf(v),
    ensures
        final(out)@ == old(out)@ + enc_unsubscribe_body(p@, v),
{
    let ghost pre = out@;
    crate::wire::write_u16(p.packet_id, out);
    write_props_for(&p.properties, Ghost(PacketKind::Unsubscribe), v, out);
    let ghost fs = p@.filters;
    proof {
        assert(fs.take(0) =~= Seq::<Seq<u8>>::empty());
        assert(out@ =~= pre + enc_u16(p@.packet_id) + enc_props_for(p@.properties, v)
            + enc_filters(fs.take(0)));
    }
    let mut i: usize = 0;
    while i < p.filters.len()
        invariant
            i <= p.filters@.len(),
            fs == p@.filters,
            fs.len() == p.filters@.len(),
            forall|j: int| 0 <= j < fs.len() ==> (#[trigger] fs[j]).len() <= 65535,
            out@ == pre + enc_u16(p@.packet_id) + enc_props_for(p@.properties, v) + enc_filters(
                fs.take(i as int),
            ),
        decreases p.filters@.len() - i,
    {
        let ghost mid = out@;
        proof {
            assert(fs[i as int] == p.filters@[i as int]@);
        }
        crate::wire::write_bin(p.filters[i].as_slice(), out);
        proof {
            assert(fs.take(i + 1) =~= fs.take(i as int).push(fs[i as int]));
            lemma_enc_filters_push(fs.take(i as int), fs[i as int]);
        }
        i = i + 1;
    }
    assert(fs.take(fs.len() as int) =~= fs);
}

fn write_unsuback_body(p: &UnsubackPacket, v: Version, out: &mut Vec<u8>)
    requires
        p@.wf(v),
    ensures
        final(out)@ == old(out)@ + enc_unsuback_body(p@, v),
{
    let ghost pre = out@;
    crate::wire::write_u16(p.packet_id, out);
    write_props_for(&p.properties, Ghost(PacketKind::Unsuback), v, out);
    if matches!(v, Version::V5) {
        let mut codes = crate::wire::slice_to_vec_u8(p.codes.as_slice());
        out.append(&mut codes);
    }
    assert(out@ =~= pre + enc_unsuback_body(p@, v));
}

fn write_disconnect_body(p: &DisconnectPacket, v: Version, out: &mut Vec<u8>)
    requires
        p@.wf(v),
    ensures
        final(out)@ == old(out)@ + enc_disconnect_body(p@, v),
{
    let ghost pre = out@;
    let plain = p.reason == 0 && p.properties.len() == 0;
    if matches!(v, Version::V311) || plain {
        assert(out@ =~= pre + enc_disconnect_body(p@, v));
    } else if p.properties.len() == 0 {
        out.push(p.reason);
        assert(out@ =~= pre + enc_disconnect_body(p@, v));
    } else {
        out.push(p.reason);
        write_prop_block(&p.properties, out);
        assert(out@ =~= pre + enc_disconnect_body(p@, v));
    }
}

fn write_body(p: &Packet, v: Version, out: &mut Vec<u8>)
    requires
        p@.wf(v),
    ensures
        final(out)@ == old(out)@ + enc_body(p@, v),
{
    match p {
        Packet::Connect(q) => write_connect_body(q, v, out),
        Packet::Connack(q) => write_connack_body(q, v, out),
        Packet::Publish(q) => write_publish_body(q, v, out),
        Packet::Puback(q) => write_ack_body(q, v, Ghost(PacketKind::Puback), out),
        Packet::Pubrec(q) => write_ack_body(q, v, Ghost(PacketKind::Pubrec), out),
        Packet::Pubrel(q) => write_ack_body(q, v, Ghost(PacketKind::Pubrel), out),
        Packet::Pubcomp(q) => write_ack_body(q, v, Ghost(PacketKind::Pubcomp), out),
        Packet::Subscribe(q) => write_subscribe_body(q, v, out),
        Packet::Suback(q) => write_suback_body(q, v, out),
        Packet::Unsubscribe(q) => write_unsubscribe_body(q, v, out),
        Packet::Unsuback(q) => write_unsuback_body(q, v, out),
        Packet::Pingreq => {
            assert(out@ + enc_body(p@, v) =~= out@);
        },
        Packet::Pingresp => {
            assert(out@ + enc_body(p@, v) =~= out@);
        },
        Packet::Disconnect(q) => write_disconnect_body(q, v, out),
    }
}

/// The view of an optional byte vector.
pub open spec fn opt_view(o: Option<Vec<u8>>) -> Option<Seq<u8>> {
    match o {
        Some(b) => Some(b@),
        None => None,
    }
}

fn read_props_for(buf: &[u8], pos: usize, kind: PacketKind, v: Version) -> (r: Option<
    (PropertyList, usize),
>)
    requires
        pos <= buf@.len(),
    ensures
        match r {
            Some((l, end)) => take_props_for(buf@.skip(pos as int), kind, v) == Some(
                (l@, end - pos),
            ) && pos <= end <= buf@.len() && props_wf(l@) && props_allowed(l@, kind) && (v
                == Version::V311 ==> l@.len() == 0),
            None => take_props_for(buf@.skip(pos as int), kind, v) is None,
        },
{
    if matches!(v, Version::V5) {
        read_prop_block(buf, pos, kind)
    } else {
        let l = PropertyList::new();
        assert(l@ =~= Seq::<PropertyV>::empty());
        assert(enc_props(l@) =~= Seq::<u8>::empty());
        Some((l, pos))
    }
}

fn read_opt_str(buf: &[u8], pos: usize, present: bool) -> (r: Option<(Option<Vec<u8>>, usize)>)
    requires
        pos <= buf@.len(),
    ensures
        match r {
            Some((o, end)) => take_opt_str(buf@.skip(pos as int), present) == Some(
                (opt_view(o), end - pos),
            ) && pos <= end <= buf@.len(),
            None => take_opt_str(buf@.skip(pos as int), present) is None,
        },
{
    if !present {
        Some((None, pos))
    } else {
        match crate::wire::read_str(buf, pos) {
            Some((b, end)) => Some((Some(b), end)),
            None => None,
        }
    }
}

fn read_opt_bin(buf: &[u8], pos: usize, present: bool) -> (r: Option<(Option<Vec<u8>>, usize)>)
    requires
        pos <= buf@.len(),
    ensures
        match r {
            Some((o, end)) => take_opt_bin(buf@.skip(pos as int), present) == Some(
                (opt_view(o), end - pos),
            ) && pos <= end <= buf@.len(),
            None => take_opt_bin(buf@.skip(pos as int), present) is None,
        },
{
    if !present {
        Some((None, pos))
    } else {
        match crate::wire::read_bin(buf, pos) {
            Some((b, end)) => Some((Some(b), end)),
            None => None,
        }
    }
}

#[verifier::spinoff_prover]
#[verifier::rlimit(100)]
fn read_will(buf: &[u8], pos: usize, will_flag: bool, will_qos: u8, will_retain: bool, v: Version)
    -> (r: Option<(Option<Will>, usize)>)
    requires
        pos <= buf@.len(),
        will_qos <= 2,
    ensures
        match r {
            Some((w, end)) => take_will(buf@.skip(pos as int), will_flag, will_qos, will_retain, v)
                == Some(
                (
                    match w {
                        Some(ww) => Some(ww@),
                        None => None,
                    },
                    end - pos,
                ),
            ) && pos <= end <= buf@.len(),
            None => take_will(buf@.skip(pos as int), will_flag, will_qos, will_retain, v) is None,
        },
{
    let ghost x = buf@.skip(pos as int);
    if !will_flag {
        return Some((None, pos));
    }
    match read_props_for(buf, pos, PacketKind::Will, v) {
        None => None,
        Some((wprops, wp1)) => {
            proof {
                assert(x.skip(wp1 - pos) =~= buf@.skip(wp1 as int));
            }
            match crate::wire::read_str(buf, wp1) {
                None => None,
                Some((wtopic, wp2)) => {
                    proof {
                        assert(x.skip(wp2 - pos) =~= buf@.skip(wp2 as int));
                    }
                    if !crate::topic::valid_topic_bytes(wtopic.as_slice()) {
                        return None;
                    }
                    match crate::wire::read_bin(buf, wp2) {
                        None => None,
                        Some((wpayload, wp3)) => {
                            let wqos = match QoS::from_byte(will_qos) {
                                Some(q) => q,
                                None => QoS::AtMostOnce,
                            };
                            assert(wqos == crate::types::spec_qos_from(will_qos));
                            Some(
                                (
                                    Some(
                                        Will {
                                            topic: wtopic,
                                            payload: wpayload,
                                            qos: wqos,
                                            retain: will_retain,
                                            properties: wprops,
                                        },
                                    ),
                                    wp3,
                                ),
                            )
                        },
                    }
                },
            }
        },
    }
}

#[verifier::spinoff_prover]
#[verifier::rlimit(100)]
fn read_connect_body(body: &[u8], v: Version) -> (r: Option<ConnectPacket>)
    ensures
        match r {
            Some(p) => take_connect_body(body@, v) == Some(p@),
            None => take_connect_body(body@, v) is None,
        },
{
    let ghost s = body@;
    proof {
        assert(s.skip(0) =~= s);
    }
    if body.len() < 10 {
        return None;
    }
    if !(body[0] == 0 && body[1] == 4 && body[2] == 77 && body[3] == 81 && body[4] == 84 && body[5]
        == 84) {
        proof {
            if s.subrange(0, 6) == proto_name() {
                assert(s[0] == 0 && s[1] == 4 && s[2] == 77 && s[3] == 81 && s[4] == 84 && s[5]
                    == 84) by {
                    assert(forall|i: int| 0 <= i < 6 ==> s.subrange(0, 6)[i] == s[i]);
                }
            }
        }
        return None;
    }
    assert(s.subrange(0, 6) =~= proto_name());
    let level: u8 = match v {
        Version::V311 => 4,
        Version::V5 => 5,
    };
    if body[6] != level {
        return None;
    }
    let flags = body[7];
    let clean_session = (flags / 2) % 2 == 1;
    let will_flag = (flags / 4) % 2 == 1;
    let will_qos = (flags / 8) % 4;
    let will_retain = (flags / 32) % 2 == 1;
    let has_password = (flags / 64) % 2 == 1;
    let has_username = flags / 128 == 1;
    let keepalive: u16 = (body[8] as u16) * 256 + (body[9] as u16);
    if flags % 2 != 0 || will_qos > 2 || (!will_flag && (will_qos != 0 || will_retain)) || (
    has_password && !has_username) {
        return None;
    }
    let step1 = read_props_for(body, 10, PacketKind::Connect, v);
    match step1 {
        None => None,
        Some((props, pos1)) => {
            match crate::wire::read_str(body, pos1) {
                None => None,
                Some((client_id, pos2)) => {
                    if client_id.len() == 0 && !clean_session {
                        return None;
                    }
                    let will_step = read_will(body, pos2, will_flag, will_qos, will_retain, v);
                    match will_step {
                        None => None,
                        Some((will, pos3)) => {
                            match read_opt_str(body, pos3, has_username) {
                                None => None,
                                Some((username, pos4)) => {
                                    match read_opt_bin(body, pos4, has_password) {
                                        None => None,
                                        Some((password, pos5)) => {
                                            if pos5 == body.len() {
                                                Some(
                                                    ConnectPacket {
                                                        client_id,
                                                        clean_session,
                                                        keepalive,
                                                        username,
                                                        password,
                                                        will,
                                                        properties: props,
                                                    },
                                                )
                                            } else {
                                                None
                                            }
                                        },
                                    }
                                },
                            }
                        },
                    }
                },
            }
        },
    }
}

fn read_connack_body(body: &[u8], v: Version) -> (r: Option<ConnackPacket>)
    ensures
        match r {
            Some(p) => take_connack_body(body@, v) == Some(p@),
            None => take_connack_body(body@, v) is None,
        },
{
    if body.len() < 2 || body[0] > 1 {
        return None;
    }
    let session_present = body[0] == 1;
    let code = body[1];
    if matches!(v, Version::V311) {
        if body.len() == 2 && code <= 5 {
            let p = ConnackPacket { session_present, code, properties: PropertyList::new() };
            assert(p@.properties =~= Seq::<PropertyV>::empty());
            Some(p)
        } else {
            None
        }
    } else {
        match read_prop_block(body, 2, PacketKind::Connack) {
            Some((props, end)) => {
                if end == body.len() {
                    Some(ConnackPacket { session_present, code, properties: props })
                } else {
                    None
                }
            },
            None => None,
        }
    }
}

#[verifier::spinoff_prover]
fn read_publish_body(body: &[u8], dup: bool, qos: QoS, retain: bool, v: Version) -> (r: Option<
    PublishPacket,
>)
    ensures
        match r {
            Some(p) => take_publish_body(body@, dup, qos, retain, v) == Some(p@),
            None => take_publish_body(body@, dup, qos, retain, v) is None,
        },
{
    let ghost s = body@;
    if matches!(qos, QoS::AtMostOnce) && dup {
        return None;
    }
    match crate::wire::read_str(body, 0) {
        None => {
            proof {
                assert(s.skip(0) =~= s);
            }
            None
        },
        Some((topic, pos1)) => {
            proof {
                assert(s.skip(0) =~= s);
            }
            if !crate::topic::valid_topic_bytes(topic.as_slice()) {
                return None;
            }
            let id_step: Option<(Option<u16>, usize)> = if matches!(qos, QoS::AtMostOnce) {
                Some((None, pos1))
            } else {
                match crate::wire::read_u16(body, pos1) {
                    Some((id, end)) => if id != 0 {
                        Some((Some(id), end))
                    } else {
                        None
                    },
                    None => None,
                }
            };
            match id_step {
                None => None,
                Some((packet_id, pos2)) => {
                    match read_props_for(body, pos2, PacketKind::Publish, v) {
                        None => None,
                        Some((props, pos3)) => {
                            let rest = crate::wire::slice_to_vec_u8(
                                slice_suffix(body, pos3),
                            );
                            Some(
                                PublishPacket {
                                    topic,
                                    payload: rest,
                                    qos,
                                    retain,
                                    dup,
                                    packet_id,
                                    properties: props,
                                },
                            )
                        },
                    }
                },
            }
        },
    }
}

/// The suffix of a byte slice from `pos` on.
fn slice_suffix(s: &[u8], pos: usize) -> (r: &[u8])
    requires
        pos <= s@.len(),
    ensures
        r@ == s@.skip(pos as int),
{
    let r = vstd::slice::slice_subrange(s, pos, s.len());
    assert(s@.subrange(pos as int, s@.len() as int) =~= s@.skip(pos as int));
    r
}

fn read_ack_body(body: &[u8], v: Version, kind: PacketKind) -> (r: Option<AckPacket>)
    ensures
        match r {
            Some(p) => take_ack_body(body@, v, kind) == Some(p@),
            None => take_ack_body(body@, v, kind) is None,
        },
{
    let ghost s = body@;
    proof {
        assert(s.skip(0) =~= s);
    }
    match crate::wire::read_u16(body, 0) {
        None => None,
        Some((id, _)) => {
            if id == 0 {
                return None;
            }
            if body.len() == 2 {
                let p = AckPacket { packet_id: id, reason: 0, properties: PropertyList::new() };
                assert(p@.properties =~= Seq::<PropertyV>::empty());
                return Some(p);
            }
            if matches!(v, Version::V311) {
                return None;
            }
            if body.len() == 3 {
                let p = AckPacket {
                    packet_id: id,
                    reason: body[2],
                    properties: PropertyList::new(),
                };
                assert(p@.properties =~= Seq::<PropertyV>::empty());
                return Some(p);
            }
            match read_prop_block(body, 3, kind) {
                Some((props, end)) => {
                    if end == body.len() {
                        Some(AckPacket { packet_id: id, reason: body[2], properties: props })
                    } else {
                        None
                    }
                },
                None => None,
            }
        },
    }
}

#[verifier::spinoff_prover]
#[verifier::rlimit(50)]
fn read_sub_req(buf: &[u8], pos: usize, v: Version) -> (r: Option<(SubRequest, usize)>)
    requires
        pos <= buf@.len(),
    ensures
        match r {
            Some((q, end)) => take_sub_req(buf@.skip(pos as int), v) == Some((q@, end - pos))
                && pos < end <= buf@.len(),
            None => take_sub_req(buf@.skip(pos as int), v) is None,
        },
{
    let ghost s = buf@.skip(pos as int);
    match crate::wire::read_str(buf, pos) {
        None => None,
        Some((filter, mid)) => {
            let ghost n = mid - pos;
            if !crate::topic::valid_filter_bytes(filter.as_slice()) {
                return None;
            }
            if mid >= buf.len() {
                assert(s.len() <= n);
                return None;
            }
            let b = buf[mid];
            assert(s[n] == b);
            let qos_bits = b % 4;
            let no_local = (b / 4) % 2 == 1;
            let retain_as_published = (b / 8) % 2 == 1;
            let retain_handling = (b / 16) % 4;
            if qos_bits > 2 || retain_handling > 2 || b / 64 != 0 || (matches!(v, Version::V311)
                && b > 2) {
                return None;
            }
            let qos = match QoS::from_byte(qos_bits) {
                Some(q) => q,
                None => QoS::AtMostOnce,
            };
            assert(qos == crate::types::spec_qos_from(qos_bits));
            Some(
                (
                    SubRequest { filter, qos, no_local, retain_as_published, retain_handling },
                    mid + 1,
                ),
            )
        },
    }
}

/// The views of a vector of subscription requests.
pub open spec fn sub_req_views(rs: Seq<SubRequest>) -> Seq<SubRequestV> {
    rs.map_values(|r: SubRequest| r@)
}

#[verifier::loop_isolation(false)]
#[verifier::rlimit(100)]
fn read_sub_reqs(window: &[u8], v: Version) -> (r: Option<Vec<SubRequest>>)
    ensures
        match r {
            Some(rs) => take_sub_reqs(window@, v) == Some(sub_req_views(rs@)),
            None => take_sub_reqs(window@, v) is None,
        },
{
    let mut acc: Vec<SubRequest> = Vec::new();
    let mut cur: usize = 0;
    proof {
        assert(sub_req_views(acc@) =~= Seq::<SubRequestV>::empty());
        assert(window@.skip(0) =~= window@);
    }
    while cur < window.len()
        invariant
            cur <= window@.len(),
            ({
                let full = take_sub_reqs(window@, v);
                let tail = take_sub_reqs(window@.skip(cur as int), v);
                match tail {
                    Some(t) => full == Some(sub_req_views(acc@) + t),
                    None => full is None,
                }
            }),
        decreases window@.len() - cur,
    {
        match read_sub_req(window, cur, v) {
            None => {
                proof {
                    assert(window@.skip(cur as int).len() > 0);
                }
                return None;
            },
            Some((q, end)) => {
                let ghost pre = acc@;
                proof {
                    assert(window@.skip(cur as int).skip(end - cur) =~= window@.skip(end as int));
                }
                acc.push(q);
                proof {
                    assert(sub_req_views(acc@) =~= sub_req_views(pre).push(q@));
                    assert(forall|t: Seq<SubRequestV>|
                        (sub_req_views(pre) + (seq![q@] + t)) =~= (sub_req_views(pre).push(q@)
                            + t));
                }
                cur = end;
            },
        }
    }
    proof {
        assert(window@.skip(cur as int).len() == 0);
        assert(take_sub_reqs(window@.skip(cur as int), v) == Some(Seq::<SubRequestV>::empty()));
        assert(sub_req_views(acc@) + Seq::<SubRequestV>::empty() =~= sub_req_views(acc@));
    }
    Some(acc)
}

#[verifier::spinoff_prover]
fn read_subscribe_body(body: &[u8], v: Version) -> (r: Option<SubscribePacket>)
    ensures
        match r {
            Some(p) => take_subscribe_body(body@, v) == Some(p@),
            None => take_subscribe_body(body@, v) is None,
        },
{
    let ghost s = body@;
    proof {
        assert(s.skip(0) =~= s);
    }
    match crate::wire::read_u16(body, 0) {
        None => None,
        Some((id, _)) => {
            if id == 0 {
                return None;
            }
            match read_props_for(body, 2, PacketKind::Subscribe, v) {
                None => None,
                Some((props, pos1)) => {
                    let window = slice_suffix(body, pos1);
                    match read_sub_reqs(window, v) {
                        None => None,
                        Some(rs) => {
                            if rs.len() >= 1 {
                                Some(SubscribePacket { packet_id: id, requests: rs, properties: props })
                            } else {
                                None
                            }
                        },
                    }
                },
            }
        },
    }
}

/// Whether every byte of `codes` satisfies `suback_code_ok`.
fn suback_codes_ok(codes: &[u8]) -> (r: bool)
    ensures
        r == (forall|i: int| 0 <= i < codes@.len() ==> suback_code_ok(#[trigger] codes@[i])),
{
    let mut i: usize = 0;
    while i < codes.len()
        invariant
            i <= codes@.len(),
            forall|j: int| 0 <= j < i ==> suback_code_ok(#[trigger] codes@[j]),
        decreases codes@.len() - i,
    {
        let c = codes[i];
        if !(c <= 2 || c >= 128) {
            return false;
        }
        i = i + 1;
    }
    true
}

/// Whether every byte of `codes` satisfies `unsuback_code_ok`.
fn unsuback_codes_ok(codes: &[u8]) -> (r: bool)
    ensures
        r == (forall|i: int| 0 <= i < codes@.len() ==> unsuback_code_ok(#[trigger] codes@[i])),
{
    let mut i: usize = 0;
    while i < codes.len()
        invariant
            i <= codes@.len(),
            forall|j: int| 0 <= j < i ==> unsuback_code_ok(#[trigger] codes@[j]),
        decreases codes@.len() - i,
    {
        let c = codes[i];
        if !(c == 0 || c == 17 || c >= 128) {
            return false;
        }
        i = i + 1;
    }
    true
}

#[verifier::spinoff_prover]
fn read_suback_body(body: &[u8], v: Version) -> (r: Option<SubackPacket>)
    ensures
        match r {
            Some(p) => take_suback_body(body@, v) == Some(p@),
            None => take_suback_body(body@, v) is None,
        },
{
    let ghost s = body@;
    proof {
        assert(s.skip(0) =~= s);
    }
    match crate::wire::read_u16(body, 0) {
        None => None,
        Some((id, _)) => {
            if id == 0 {
                return None;
            }
            match read_props_for(body, 2, PacketKind::Suback, v) {
                None => None,
                Some((props, pos1)) => {
                    let window = slice_suffix(body, pos1);
                    if window.len() >= 1 && suback_codes_ok(window) {
                        let codes = crate::wire::slice_to_vec_u8(window);
                        Some(SubackPacket { packet_id: id, codes, properties: props })
                    } else {
                        None
                    }
                },
            }
        },
    }
}

/// The views of a vector of filters.
pub open spec fn filter_views(fs: Seq<Vec<u8>>) -> Seq<Seq<u8>> {
    fs.map_values(|f: Vec<u8>| f@)
}

#[verifier::loop_isolation(false)]
#[verifier::rlimit(100)]
fn read_filter_list(window: &[u8]) -> (r: Option<Vec<Vec<u8>>>)
    ensures
        match r {
            Some(fs) => take_filters(window@) == Some(filter_views(fs@)),
            None => take_filters(window@) is None,
        },
{
    let mut acc: Vec<Vec<u8>> = Vec::new();
    let mut cur: usize = 0;
    proof {
        assert(filter_views(acc@) =~= Seq::<Seq<u8>>::empty());
        assert(window@.skip(0) =~= window@);
    }
    while cur < window.len()
        invariant
            cur <= window@.len(),
            ({
                let full = take_filters(window@);
                let tail = take_filters(window@.skip(cur as int));
                match tail {
                    Some(t) => full == Some(filter_views(acc@) + t),
                    None => full is None,
                }
            }),
        decreases window@.len() - cur,
    {
        match crate::wire::read_str(window, cur) {
            None => {
                proof {
                    assert(window@.skip(cur as int).len() > 0);
                }
                return None;
            },
            Some((f, end)) => {
                if !crate::topic::valid_filter_bytes(f.as_slice()) {
                    proof {
                        assert(window@.skip(cur as int).len() > 0);
                    }
                    return None;
                }
                let ghost pre = acc@;
                proof {
                    assert(window@.skip(cur as int).skip(end - cur) =~= window@.skip(end as int));
                }
                acc.push(f);
                proof {
                    assert(filter_views(acc@) =~= filter_views(pre).push(f@));
                    assert(forall|t: Seq<Seq<u8>>|
                        (filter_views(pre) + (seq![f@] + t)) =~= (filter_views(pre).push(f@) + t));
                }
                cur = end;
            },
        }
    }
    proof {
        assert(window@.skip(cur as int).len() == 0);
        assert(take_filters(window@.skip(cur as int)) == Some(Seq::<Seq<u8>>::empty()));
        assert(filter_views(acc@) + Seq::<Seq<u8>>::empty() =~= filter_views(acc@));
    }
    Some(acc)
}

#[verifier::spinoff_prover]
fn read_unsubscribe_body(body: &[u8], v: Version) -> (r: Option<UnsubscribePacket>)
    ensures
        match r {
            Some(p) => take_unsubscribe_body(body@, v) == Some(p@),
            None => take_unsubscribe_body(body@, v) is None,
        },
{
    let ghost s = body@;
    proof {
        assert(s.skip(0) =~= s);
    }
    match crate::wire::read_u16(body, 0) {
        None => None,
        Some((id, _)) => {
            if id == 0 {
                return None;
            }
            match read_props_for(body, 2, PacketKind::Unsubscribe, v) {
                None => None,
                Some((props, pos1)) => {
                    let window = slice_suffix(body, pos1);
                    match read_filter_list(window) {
                        None => None,
                        Some(fs) => {
                            if fs.len() >= 1 {
                                Some(UnsubscribePacket { packet_id: id, filters: fs, properties: props })
                            } else {
                                None
                            }
                        },
                    }
                },
            }
        },
    }
}

#[verifier::spinoff_prover]
fn read_unsuback_body(body: &[u8], v: Version) -> (r: Option<UnsubackPacket>)
    ensures
        match r {
            Some(p) => take_unsuback_body(body@, v) == Some(p@),
            None => take_unsuback_body(body@, v) is None,
        },
{
    let ghost s = body@;
    proof {
        assert(s.skip(0) =~= s);
    }
    match crate::wire::read_u16(body, 0) {
        None => None,
        Some((id, _)) => {
            if id == 0 {
                return None;
            }
            if matches!(v, Version::V311) {
                if body.len() == 2 {
                    let p = UnsubackPacket {
                        packet_id: id,
                        codes: Vec::new(),
                        properties: PropertyList::new(),
                    };
                    assert(p@.codes =~= Seq::<u8>::empty());
                    assert(p@.properties =~= Seq::<PropertyV>::empty());
                    Some(p)
                } else {
                    None
                }
            } else {
                match read_prop_block(body, 2, PacketKind::Unsuback) {
                    None => None,
                    Some((props, pos1)) => {
                        let window = slice_suffix(body, pos1);
                        if window.len() >= 1 && unsuback_codes_ok(window) {
                            let codes = crate::wire::slice_to_vec_u8(window);
                            Some(UnsubackPacket { packet_id: id, codes, properties: props })
                        } else {
                            None
                        }
                    },
                }
            }
        },
    }
}

fn read_disconnect_body(body: &[u8], v: Version) -> (r: Option<DisconnectPacket>)
    ensures
        match r {
            Some(p) => take_disconnect_body(body@, v) == Some(p@),
            None => take_disconnect_body(body@, v) is None,
        },
{
    if body.len() == 0 {
        let p = DisconnectPacket { reason: 0, properties: PropertyList::new() };
        assert(p@.properties =~= Seq::<PropertyV>::empty());
        return Some(p);
    }
    if matches!(v, Version::V311) {
        return None;
    }
    if body.len() == 1 {
        let p = DisconnectPacket { reason: body[0], properties: PropertyList::new() };
        assert(p@.properties =~= Seq::<PropertyV>::empty());
        return Some(p);
    }
    match read_prop_block(body, 1, PacketKind::Disconnect) {
        Some((props, end)) => {
            if end == body.len() {
                Some(DisconnectPacket { reason: body[0], properties: props })
            } else {
                None
            }
        },
        None => None,
    }
}

/// Outcome of [`decode_packet`].
#[derive(Debug, Clone, PartialEq, Eq)]
pub enum Decoded {
    /// A whole packet and the number of bytes it occupied.
    Packet(Packet, usize),
    /// The buffer does not yet hold a whole packet; nothing was consumed.
    Incomplete,
    /// No extension of the buffer can parse.
    Malformed,
}

/// Decodes one packet from the front of `buf` under protocol revision
/// `v`, as [`spec_decode`] describes. The function is total: any byte
/// buffer is either a packet, a prefix, or malformed.
#[verifier::spinoff_prover]
#[verifier::rlimit(100)]
pub fn decode_packet(buf: &[u8], v: Version) -> (r: Decoded)
    ensures
        match r {
            Decoded::Packet(p, n) => spec_decode(buf@, v) == DecodeV::Found(p@, n as int) && 0 < n
                <= buf@.len(),
            Decoded::Incomplete => spec_decode(buf@, v) == DecodeV::Incomplete,
            Decoded::Malformed => spec_decode(buf@, v) == DecodeV::Malformed,
        },
{
    if buf.len() == 0 {
        return Decoded::Incomplete;
    }
    let b0 = buf[0];
    let t = b0 / 16;
    if t == 0 || t == 15 {
        return Decoded::Malformed;
    }
    match crate::varint::decode_varint(buf, 1) {
        crate::varint::VarintResult::Incomplete => Decoded::Incomplete,
        crate::varint::VarintResult::Malformed => Decoded::Malformed,
        crate::varint::VarintResult::Found(rl32, vend) => {
            let rl = rl32 as usize;
            if buf.len() - vend < rl {
                return Decoded::Incomplete;
            }
            let body = vstd::slice::slice_subrange(buf, vend, vend + rl);
            let consumed = vend + rl;
            let parsed: Option<Packet> = if t == 1 && b0 == 16 {
                match read_connect_body(body, v) {
                    Some(p) => Some(Packet::Connect(p)),
                    None => None,
                }
            } else if t == 2 && b0 == 32 {
                match read_connack_body(body, v) {
                    Some(p) => Some(Packet::Connack(p)),
                    None => None,
                }
            } else if t == 3 {
                let dup = (b0 / 8) % 2 == 1;
                let qos_bits = (b0 / 2) % 4;
                let retain = b0 % 2 == 1;
                match QoS::from_byte(qos_bits) {
                    None => None,
                    Some(qos) => {
                        assert(qos == crate::types::spec_qos_from(qos_bits));
                        match read_publish_body(body, dup, qos, retain, v) {
                            Some(p) => Some(Packet::Publish(p)),
                            None => None,
                        }
                    },
                }
            } else if t == 4 && b0 == 64 {
                match read_ack_body(body, v, PacketKind::Puback) {
                    Some(p) => Some(Packet::Puback(p)),
                    None => None,
                }
            } else if t == 5 && b0 == 80 {
                match read_ack_body(body, v, PacketKind::Pubrec) {
                    Some(p) => Some(Packet::Pubrec(p)),
                    None => None,
                }
            } else if t == 6 && b0 == 98 {
                match read_ack_body(body, v, PacketKind::Pubrel) {
                    Some(p) => Some(Packet::Pubrel(p)),
                    None => None,
                }
            } else if t == 7 && b0 == 112 {
                match read_ack_body(body, v, PacketKind::Pubcomp) {
                    Some(p) => Some(Packet::Pubcomp(p)),
                    None => None,
                }
            } else if t == 8 && b0 == 130 {
                match read_subscribe_body(body, v) {
                    Some(p) => Some(Packet::Subscribe(p)),
                    None => None,
                }
            } else if t == 9 && b0 == 144 {
                match read_suback_body(body, v) {
                    Some(p) => Some(Packet::Suback(p)),
                    None => None,
                }
            } else if t == 10 && b0 == 162 {
                match read_unsubscribe_body(body, v) {
                    Some(p) => Some(Packet::Unsubscribe(p)),
                    None => None,
                }
            } else if t == 11 && b0 == 176 {
                match read_unsuback_body(body, v) {
                    Some(p) => Some(Packet::Unsuback(p)),
                    None => None,
                }
            } else if t == 12 && b0 == 192 {
                if body.len() == 0 {
                    Some(Packet::Pingreq)
                } else {
                    None
                }
            } else if t == 13 && b0 == 208 {
                if body.len() == 0 {
                    Some(Packet::Pingresp)
                } else {
                    None
                }
            } else if t == 14 && b0 == 224 {
                match read_disconnect_body(body, v) {
                    Some(p) => Some(Packet::Disconnect(p)),
                    None => None,
                }
            } else {
                None
            };
            match parsed {
                Some(p) => Decoded::Packet(p, consumed),
                None => Decoded::Malformed,
            }
        },
    }
}

/// Appends the wire bytes of a well-formed packet to `out`.
pub fn encode_packet(p: &Packet, v: Version, out: &mut Vec<u8>)
    requires
        p@.wf(v),
    ensures
        final(out)@ == old(out)@ + spec_encode(p@, v),
{
    let ghost pre = out@;
    let mut body: Vec<u8> = Vec::new();
    write_body(p, v, &mut body);
    assert(body@ =~= enc_body(p@, v));
    let fb: u8 = match p {
        Packet::Connect(_) => 16,
        Packet::Connack(_) => 32,
        Packet::Publish(q) => {
            let mut b: u8 = 48 + q.qos.to_byte() * 2;
            if q.dup {
                b = b + 8;
            }
            if q.retain {
                b = b + 1;
            }
            proof {
                lemma_qos_byte(q@.qos);
            }
            b
        },
        Packet::Puback(_) => 64,
        Packet::Pubrec(_) => 80,
        Packet::Pubrel(_) => 98,
        Packet::Pubcomp(_) => 112,
        Packet::Subscribe(_) => 130,
        Packet::Suback(_) => 144,
        Packet::Unsubscribe(_) => 162,
        Packet::Unsuback(_) => 176,
        Packet::Pingreq => 192,
        Packet::Pingresp => 208,
        Packet::Disconnect(_) => 224,
    };
    assert(fb == first_byte(p@));
    out.push(fb);
    crate::varint::encode_varint(body.len() as u32, out);
    out.append(&mut body);
    assert(out@ =~= pre + spec_encode(p@, v));
}

} // verus!
