use mqtt_engine::codec::{decode_packet, encode_packet, AckPacket, ConnackPacket, Decoded, Packet,
    PublishPacket, SubRequest, SubackPacket, SubscribePacket, UnsubackPacket, UnsubscribePacket};
use mqtt_engine::properties::{mqtt5_property, PropertyList, PropertyValue};
use mqtt_engine::topic::{topic_matches, validate_publish_topic, validate_subscribe_filter};
use mqtt_engine::types::{mqtt311_connack_codes, mqtt5_return_codes, mqtt5_sub_options};
use mqtt_engine::types::{ClientError, PacketKind, QoS, Version};
use mqtt_engine::varint::{decode_varint, encode_varint, VarintResult};

fn round_trip(p: Packet, v: Version) {
    let mut bytes: Vec<u8> = Vec::new();
    encode_packet(&p, v, &mut bytes);
    match decode_packet(bytes.as_slice(), v) {
        Decoded::Packet(q, n) => {
            assert_eq!(n, bytes.len());
            assert_eq!(q, p);
        },
        other => panic!("round trip failed: {:?}", other),
    }
    // Every strict prefix is incomplete, never malformed.
    for k in 0..bytes.len() {
        match decode_packet(&bytes[..k], v) {
            Decoded::Incomplete => {},
            other => panic!("prefix of length {} gave {:?}", k, other),
        }
    }
}

#[test]
fn round_trip_publish_v311() {
    round_trip(
        Packet::Publish(
            PublishPacket {
                topic: b"sensors/temp".to_vec(),
                payload: b"21.5".to_vec(),
                qos: QoS::AtLeastOnce,
                retain: false,
                dup: false,
                packet_id: Some(10),
                properties: PropertyList::new(),
            },
        ),
        Version::V311,
    );
}

#[test]
fn round_trip_publish_v5_with_properties() {
    let mut props = PropertyList::new();
    props
        .add(
            PacketKind::Publish,
            mqtt5_property::MessageExpiryInterval,
            PropertyValue::U32(120),
        )
        .unwrap();
    props
        .add(
            PacketKind::Publish,
            mqtt5_property::UserProperty,
            PropertyValue::Pair(b"k".to_vec(), b"v".to_vec()),
        )
        .unwrap();
    round_trip(
        Packet::Publish(
            PublishPacket {
                topic: b"a/b".to_vec(),
                payload: vec![0, 1, 2, 255],
                qos: QoS::ExactlyOnce,
                retain: true,
                dup: true,
                packet_id: Some(0x1234),
                properties: props,
            },
        ),
        Version::V5,
    );
}

#[test]
fn round_trip_acks_both_versions() {
    for v in [Version::V311, Version::V5] {
        round_trip(
            Packet::Puback(
                AckPacket { packet_id: 77, reason: 0, properties: PropertyList::new() },
            ),
            v,
        );
        round_trip(
            Packet::Pubrel(
                AckPacket { packet_id: 88, reason: 0, properties: PropertyList::new() },
            ),
            v,
        );
    }
    round_trip(
        Packet::Pubrec(AckPacket { packet_id: 5, reason: 16, properties: PropertyList::new() }),
        Version::V5,
    );
}

#[test]
fn round_trip_subscribe_suback() {
    round_trip(
        Packet::Subscribe(
            SubscribePacket {
                packet_id: 9,
                requests: vec![
                    SubRequest {
                        filter: b"sensors/#".to_vec(),
                        qos: QoS::AtLeastOnce,
                        no_local: false,
                        retain_as_published: false,
                        retain_handling: 0,
                    },
                ],
                properties: PropertyList::new(),
            },
        ),
        Version::V311,
    );
    round_trip(
        Packet::Suback(
            SubackPacket { packet_id: 9, codes: vec![1, 128], properties: PropertyList::new() },
        ),
        Version::V311,
    );
}

#[test]
fn round_trip_unsubscribe_unsuback() {
    round_trip(
        Packet::Unsubscribe(
            UnsubscribePacket {
                packet_id: 4,
                filters: vec![b"a/+".to_vec(), b"b/#".to_vec()],
                properties: PropertyList::new(),
            },
        ),
        Version::V311,
    );
    round_trip(
        Packet::Unsuback(
            UnsubackPacket { packet_id: 4, codes: vec![], properties: PropertyList::new() },
        ),
        Version::V311,
    );
    round_trip(
        Packet::Unsuback(
            UnsubackPacket { packet_id: 4, codes: vec![0, 17], properties: PropertyList::new() },
        ),
        Version::V5,
    );
}

#[test]
fn round_trip_pings_connack() {
    round_trip(Packet::Pingreq, Version::V311);
    round_trip(Packet::Pingresp, Version::V5);
    round_trip(
        Packet::Connack(
            ConnackPacket { session_present: true, code: 0, properties: PropertyList::new() },
        ),
        Version::V311,
    );
}

#[test]
fn malformed_inputs_rejected() {
    // Reserved packet type nibble 0.
    assert_eq!(decode_packet(&[0x01, 0x00], Version::V311), Decoded::Malformed);
    // PUBLISH with QoS bits 3.
    assert_eq!(decode_packet(&[0x36, 0x00], Version::V311), Decoded::Malformed);
    // Remaining length with five continuation bytes.
    assert_eq!(
        decode_packet(&[0xC0, 0x80, 0x80, 0x80, 0x80, 0x01], Version::V311),
        Decoded::Malformed
    );
    // Empty buffer is just incomplete.
    assert_eq!(decode_packet(&[], Version::V311), Decoded::Incomplete);
}

#[test]
fn varint_encoding_layout() {
    let cases: [(u32, &[u8]); 4] = [
        (0, &[0x00]),
        (127, &[0x7F]),
        (128, &[0x80, 0x01]),
        (268435455, &[0xFF, 0xFF, 0xFF, 0x7F]),
    ];
    for (value, bytes) in cases {
        let mut out: Vec<u8> = Vec::new();
        encode_varint(value, &mut out);
        assert_eq!(out.as_slice(), bytes);
        match decode_varint(bytes, 0) {
            VarintResult::Found(v, end) => {
                assert_eq!(v, value);
                assert_eq!(end, bytes.len());
            },
            other => panic!("varint decode failed: {:?}", other),
        }
    }
}

#[test]
fn topic_matching_wildcards() {
    assert!(topic_matches("sensors/+/temp", "sensors/room1/temp"));
    assert!(!topic_matches("sensors/+/temp", "sensors/room1/room2/temp"));
    assert!(topic_matches("sensors/#", "sensors"));
    assert!(topic_matches("sensors/#", "sensors/a/b"));
    assert!(topic_matches("#", "anything/at/all"));
    assert!(!topic_matches("#", "$SYS/broker"));
    assert!(!topic_matches("sensors/+", "sensors/a/b"));
    assert!(topic_matches("sport/#", "sport/"));
}

#[test]
fn topic_validation() {
    assert!(validate_publish_topic("a/b/c"));
    assert!(!validate_publish_topic(""));
    assert!(!validate_publish_topic("a/+/b"));
    assert!(!validate_publish_topic("a/#"));
    assert!(!validate_publish_topic("a\0b"));
    assert!(validate_subscribe_filter("a/+/b"));
    assert!(validate_subscribe_filter("a/#"));
    assert!(validate_subscribe_filter("#"));
    assert!(!validate_subscribe_filter("a/#/b"));
    assert!(!validate_subscribe_filter("a/b+"));
    assert!(!validate_subscribe_filter(""));
}

#[test]
fn property_store_rules() {
    let mut props = PropertyList::new();
    // TOPIC_ALIAS is not allowed on CONNECT.
    assert_eq!(
        props.add(PacketKind::Connect, mqtt5_property::TopicAlias, PropertyValue::U16(1)),
        Err(ClientError::PropertyNotAllowed)
    );
    // SESSION_EXPIRY_INTERVAL is allowed once.
    props
        .add(
            PacketKind::Connect,
            mqtt5_property::SessionExpiryInterval,
            PropertyValue::U32(300),
        )
        .unwrap();
    assert_eq!(
        props.add(
            PacketKind::Connect,
            mqtt5_property::SessionExpiryInterval,
            PropertyValue::U32(600),
        ),
        Err(ClientError::DuplicateProperty)
    );
    // User properties may repeat; values must match the identifier's type.
    props
        .add(
            PacketKind::Connect,
            mqtt5_property::UserProperty,
            PropertyValue::Pair(b"a".to_vec(), b"1".to_vec()),
        )
        .unwrap();
    props
        .add(
            PacketKind::Connect,
            mqtt5_property::UserProperty,
            PropertyValue::Pair(b"a".to_vec(), b"2".to_vec()),
        )
        .unwrap();
    assert_eq!(
        props.add(PacketKind::Connect, mqtt5_property::ReceiveMaximum, PropertyValue::U32(5)),
        Err(ClientError::InvalidArgument)
    );
    assert_eq!(props.len(), 3);
    let first = props.read_first(mqtt5_property::UserProperty).unwrap();
    assert_eq!(first.value, PropertyValue::Pair(b"a".to_vec(), b"1".to_vec()));
    assert!(props.read_first(mqtt5_property::TopicAlias).is_none());
}

#[test]
fn wire_code_enums() {
    assert_eq!(mqtt311_connack_codes::Accepted.to_byte(), 0);
    assert_eq!(mqtt311_connack_codes::RefusedNotAuthorized.to_byte(), 5);
    assert_eq!(mqtt5_return_codes::GrantedQos1.to_byte(), 1);
    assert_eq!(mqtt5_return_codes::NoSubscriptionExisted.to_byte(), 17);
    assert_eq!(mqtt5_return_codes::NotAuthorized.to_byte(), 135);
    assert_eq!(mqtt5_sub_options::NoLocal.to_byte(), 4);
    assert_eq!(mqtt5_sub_options::SendRetainNever.to_byte(), 32);
}
