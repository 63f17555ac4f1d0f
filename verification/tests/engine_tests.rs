use mqtt_engine::codec::{decode_packet, encode_packet, Decoded, Packet, PublishPacket};
use mqtt_engine::engine::{Event, Session, SessionState};
use mqtt_engine::properties::PropertyList;
use mqtt_engine::types::{ClientError, QoS, Version};

fn connected_session() -> Session {
    let mut s = Session::new(Version::V311, "client", true).unwrap();
    s.connect(5, 0).unwrap();
    s.handle_connack(false, 0);
    s
}

#[test]
fn connect_while_connected_fails_without_io() {
    let mut s = connected_session();
    let queued_before = s.take_outgoing().len();
    assert_eq!(queued_before, 1); // the CONNECT itself
    let r = s.connect(5, 10);
    assert_eq!(r, Err(ClientError::AlreadyConnected));
    assert_eq!(s.take_outgoing().len(), 0);
}

#[test]
fn connack_success_connects() {
    let mut s = Session::new(Version::V311, "client", true).unwrap();
    s.connect(30, 0).unwrap();
    assert_eq!(s.state, SessionState::Connecting);
    s.handle_connack(false, 0);
    assert_eq!(s.state, SessionState::Connected);
    let events = s.take_events();
    assert_eq!(events, vec![Event::ConnackReceived { session_present: false, code: 0 }]);
}

#[test]
fn connack_failure_disconnects() {
    let mut s = Session::new(Version::V311, "client", true).unwrap();
    s.connect(30, 0).unwrap();
    s.handle_connack(false, 5);
    assert_eq!(s.state, SessionState::Disconnected);
}

#[test]
fn keepalive_pingreq_sent_when_idle() {
    // keepalive 5 s, no traffic for 6 s: PINGREQ goes out.
    let mut s = connected_session();
    s.take_outgoing();
    s.poll_keepalive(4000);
    assert_eq!(s.take_outgoing().len(), 0);
    s.poll_keepalive(6000);
    let out = s.take_outgoing();
    assert_eq!(out, vec![Packet::Pingreq]);
}

#[test]
fn qos1_retry_resends_with_dup_same_mid() {
    let mut s = connected_session();
    s.take_outgoing();
    let mid = s.publish("sensors/temp", b"21.5", QoS::AtLeastOnce, false, 1000).unwrap();
    let first = s.take_outgoing();
    match &first[0] {
        Packet::Publish(p) => {
            assert_eq!(p.packet_id, Some(mid));
            assert!(!p.dup);
        },
        other => panic!("expected PUBLISH, got {:?}", other),
    }
    // No PUBACK within the retry window: the same PUBLISH leaves again,
    // DUP set, identifier unchanged.
    s.poll_retries(1000 + s.retry_interval);
    let resent = s.take_outgoing();
    assert_eq!(resent.len(), 1);
    match &resent[0] {
        Packet::Publish(p) => {
            assert_eq!(p.packet_id, Some(mid));
            assert!(p.dup);
            assert_eq!(p.topic, b"sensors/temp".to_vec());
            assert_eq!(p.payload, b"21.5".to_vec());
        },
        other => panic!("expected PUBLISH, got {:?}", other),
    }
}

#[test]
fn qos1_puback_completes() {
    let mut s = connected_session();
    let mid = s.publish("a/b", b"x", QoS::AtLeastOnce, false, 0).unwrap();
    s.take_events();
    s.handle_puback(mid);
    assert_eq!(s.take_events(), vec![Event::PublishDone { mid }]);
    assert_eq!(s.outbound.len(), 0);
}

#[test]
fn qos2_outbound_handshake() {
    let mut s = connected_session();
    let mid = s.publish("a/b", b"x", QoS::ExactlyOnce, false, 0).unwrap();
    s.take_outgoing();
    s.handle_pubrec(mid, 10);
    let out = s.take_outgoing();
    assert!(matches!(&out[0], Packet::Pubrel(a) if a.packet_id == mid));
    s.handle_pubcomp(mid);
    assert!(s.take_events().contains(&Event::PublishDone { mid }));
    assert_eq!(s.outbound.len(), 0);
}

#[test]
fn subscribe_suback_records_granted_qos() {
    let mut s = connected_session();
    let mid = s.subscribe("sensors/#", QoS::AtMostOnce, 0).unwrap();
    s.handle_suback(mid, vec![0]);
    assert_eq!(s.subscriptions.len(), 1);
    assert_eq!(s.subscriptions[0].granted, Some(0));
    assert!(s.subscriptions[0].active);
}

#[test]
fn qos2_inbound_duplicate_delivers_once() {
    let mut s = connected_session();
    s.take_events();
    let publish = PublishPacket {
        topic: b"a/b".to_vec(),
        payload: b"hi".to_vec(),
        qos: QoS::ExactlyOnce,
        retain: false,
        dup: false,
        packet_id: Some(7),
        properties: PropertyList::new(),
    };
    s.handle_publish(publish.clone(), 0);
    let dup = PublishPacket { dup: true, ..publish };
    s.handle_publish(dup, 1);
    let events = s.take_events();
    let messages = events.iter().filter(|e| matches!(e, Event::Message { .. })).count();
    assert_eq!(messages, 1);
    // Both deliveries are acknowledged with PUBREC.
    let recs = s
        .take_outgoing()
        .iter()
        .filter(|p| matches!(p, Packet::Pubrec(a) if a.packet_id == 7))
        .count();
    assert_eq!(recs, 2);
    // After PUBREL the identifier is released and answered with PUBCOMP.
    s.handle_pubrel(7, 2);
    assert!(matches!(&s.take_outgoing()[0], Packet::Pubcomp(a) if a.packet_id == 7));
    assert_eq!(s.inbound_qos2.len(), 0);
}

#[test]
fn qos1_inbound_gets_puback_and_message() {
    let mut s = connected_session();
    s.take_events();
    s.take_outgoing();
    let publish = PublishPacket {
        topic: b"t".to_vec(),
        payload: b"p".to_vec(),
        qos: QoS::AtLeastOnce,
        retain: true,
        dup: false,
        packet_id: Some(3),
        properties: PropertyList::new(),
    };
    s.handle_publish(publish, 0);
    assert!(matches!(&s.take_outgoing()[0], Packet::Puback(a) if a.packet_id == 3));
    assert!(matches!(&s.take_events()[0], Event::Message { mid: 3, .. }));
}

#[test]
fn distinct_mids_for_concurrent_deliveries() {
    let mut s = connected_session();
    let m1 = s.publish("a", b"1", QoS::AtLeastOnce, false, 0).unwrap();
    let m2 = s.publish("a", b"2", QoS::ExactlyOnce, false, 0).unwrap();
    let m3 = s.subscribe("b/#", QoS::AtLeastOnce, 0).unwrap();
    assert!(m1 != m2 && m2 != m3 && m1 != m3);
    assert!(m1 != 0 && m2 != 0 && m3 != 0);
}

#[test]
fn publish_when_disconnected_fails() {
    let mut s = Session::new(Version::V311, "c", true).unwrap();
    assert_eq!(s.publish("t", b"", QoS::AtMostOnce, false, 0), Err(ClientError::NotConnected));
    assert_eq!(s.subscribe("t", QoS::AtMostOnce, 0), Err(ClientError::NotConnected));
}

#[test]
fn publish_invalid_topic_rejected() {
    let mut s = connected_session();
    assert_eq!(
        s.publish("bad/+/topic", b"", QoS::AtMostOnce, false, 0),
        Err(ClientError::InvalidArgument)
    );
    assert_eq!(s.publish("", b"", QoS::AtMostOnce, false, 0), Err(ClientError::InvalidArgument));
}

#[test]
fn disconnect_then_transport_closed() {
    let mut s = connected_session();
    s.disconnect(100).unwrap();
    assert_eq!(s.state, SessionState::Disconnecting);
    let out = s.take_outgoing();
    assert!(matches!(out.last().unwrap(), Packet::Disconnect(_)));
    s.transport_closed();
    assert_eq!(s.state, SessionState::Disconnected);
    assert_eq!(s.disconnect(200), Err(ClientError::NotConnected));
}

#[test]
fn retry_budget_exhaustion_fails_delivery() {
    let mut s = connected_session();
    let mid = s.publish("a", b"x", QoS::AtLeastOnce, false, 0).unwrap();
    let mut now = 0u64;
    for _ in 0..s.retry_limit {
        now += s.retry_interval;
        s.poll_retries(now);
    }
    now += s.retry_interval;
    s.poll_retries(now);
    assert!(
        s
            .take_events()
            .contains(&Event::PublishFailed { mid, reason: ClientError::DeliveryFailed })
    );
    assert_eq!(s.outbound.len(), 0);
}

#[test]
fn session_round_trips_its_own_connect_packet() {
    let mut s = Session::new(Version::V5, "roundtrip", true).unwrap();
    s.set_username_and_password(Some("user"), Some("pass")).unwrap();
    s.set_will("will/topic", b"gone", QoS::AtLeastOnce, true).unwrap();
    s.connect(60, 0).unwrap();
    let out = s.take_outgoing();
    let mut bytes: Vec<u8> = Vec::new();
    encode_packet(&out[0], Version::V5, &mut bytes);
    match decode_packet(bytes.as_slice(), Version::V5) {
        Decoded::Packet(p, n) => {
            assert_eq!(n, bytes.len());
            assert_eq!(p, out[0]);
        },
        other => panic!("expected a packet, got {:?}", other),
    }
}

#[test]
fn protocol_violation_teardown_reported() {
    let mut s = connected_session();
    s.take_events();
    s.transport_failed(ClientError::ProtocolViolation);
    assert_eq!(s.state, SessionState::Disconnected);
    assert_eq!(
        s.take_events(),
        vec![Event::Disconnected { reason: ClientError::ProtocolViolation }]
    );
}

#[test]
fn qos2_retry_resends_pubrel_at_release_stage() {
    let mut s = connected_session();
    let mid = s.publish("a/b", b"x", QoS::ExactlyOnce, false, 0).unwrap();
    s.handle_pubrec(mid, 10);
    s.take_outgoing();
    s.poll_retries(10 + s.retry_interval);
    let resent = s.take_outgoing();
    assert_eq!(resent.len(), 1);
    assert!(matches!(&resent[0], Packet::Pubrel(a) if a.packet_id == mid));
}

#[test]
fn nul_in_client_id_rejected() {
    assert!(matches!(
        Session::new(Version::V311, "bad\0id", true),
        Err(ClientError::InvalidArgument)
    ));
}

#[test]
fn nul_in_username_rejected_password_may_carry_it() {
    let mut s = Session::new(Version::V311, "c", true).unwrap();
    assert_eq!(
        s.set_username_and_password(Some("user\0name"), None),
        Err(ClientError::InvalidArgument)
    );
    assert_eq!(s.username, None);
    // The password is binary data: NUL bytes are fine there.
    s.set_username_and_password(Some("user"), Some("pa\0ss")).unwrap();
    assert_eq!(s.username, Some(b"user".to_vec()));
    assert_eq!(s.password, Some(b"pa\0ss".to_vec()));
}

#[test]
fn qos0_publish_needs_no_identifier() {
    let mut s = connected_session();
    // QoS 0 publishes return the placeholder zero and reserve nothing.
    assert_eq!(s.publish("a", b"1", QoS::AtMostOnce, false, 0), Ok(0));
    assert_eq!(s.publish("a", b"2", QoS::AtMostOnce, false, 0), Ok(0));
    // The identifier counter was untouched: the first QoS 1 publish gets 1.
    assert_eq!(s.publish("a", b"3", QoS::AtLeastOnce, false, 0), Ok(1));
}

#[test]
fn identifiers_assigned_in_wrap_scan_order() {
    let mut s = connected_session();
    assert_eq!(s.publish("a", b"1", QoS::AtLeastOnce, false, 0), Ok(1));
    assert_eq!(s.publish("a", b"2", QoS::AtLeastOnce, false, 0), Ok(2));
    // Resolving 1 frees it, but the scan continues from the counter.
    s.handle_puback(1);
    assert_eq!(s.publish("a", b"3", QoS::AtLeastOnce, false, 0), Ok(3));
}
