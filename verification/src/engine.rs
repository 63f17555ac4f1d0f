//! Session state machine and delivery tracker.
//!
//! A [`Session`] is a pure protocol engine: it never touches a socket or a
//! clock. The caller (an I/O loop) feeds it decoded packets through
//! [`Session::handle_packet`], reports time through the `poll` methods and
//! transport failures through [`Session::transport_closed`], and drains
//! two queues: packets to put on the wire ([`Session::take_outgoing`]) and
//! events to hand to the application ([`Session::take_events`]).
//!
//! The session tracks the connection lifecycle
//! (`Disconnected → Connecting → Connected → Disconnecting`), assigns
//! packet identifiers that stay pairwise distinct while in flight, drives
//! the QoS 1 and QoS 2 handshakes with bounded retries, and deduplicates
//! inbound QoS 2 publishes so the application sees each message once.

use vstd::prelude::*;

use crate::codec::{AckPacket, Packet, PublishPacket, SubRequest, SubscribePacket,
    UnsubscribePacket, Will};
use crate::properties::PropertyList;
use crate::topic::{valid_filter_spec, valid_topic_spec};
use crate::types::{ClientError, QoS, Version};
use crate::varint::VARINT_MAX;
use crate::wire::utf8_ok;
use vstd::string::StringSliceAdditionalSpecFns;

verus! {

/// Connection lifecycle of a session.
#[derive(Debug, Clone, Copy, PartialEq, Eq, Structural)]
pub enum SessionState {
    Disconnected,
    Connecting,
    Connected,
    Disconnecting,
}

/// Where an outbound delivery stands in its acknowledgement handshake.
#[derive(Debug, Clone, Copy, PartialEq, Eq, Structural)]
pub enum DeliveryStage {
    /// QoS 1: PUBLISH sent, waiting for PUBACK.
    AwaitPuback,
    /// QoS 2: PUBLISH sent, waiting for PUBREC.
    AwaitPubrec,
    /// QoS 2: PUBREL sent, waiting for PUBCOMP.
    AwaitPubcomp,
}

/// One outbound message awaiting acknowledgement, with its retry state.
#[derive(Debug, Clone, PartialEq, Eq)]
pub struct Delivery {
    pub mid: u16,
    pub qos: QoS,
    pub stage: DeliveryStage,
    pub topic: Vec<u8>,
    pub payload: Vec<u8>,
    pub retain: bool,
    /// When the current handshake step is resent if unanswered.
    pub deadline: u64,
    /// Resends already spent on the current handshake step.
    pub retries: u32,
}

/// A subscription and, once the SUBACK arrived, what the broker granted.
#[derive(Debug, Clone, PartialEq, Eq)]
pub struct Subscription {
    pub filter: Vec<u8>,
    pub requested_qos: QoS,
    /// The SUBACK code: a granted QoS (0..=2) or a refusal (>= 128).
    pub granted: Option<u8>,
    /// Cleared when an UNSUBACK retires the filter.
    pub active: bool,
}

/// A SUBSCRIBE awaiting its SUBACK.
#[derive(Debug, Clone, PartialEq, Eq)]
pub struct PendingSub {
    pub mid: u16,
    /// Index of the subscription this request created.
    pub sub_index: usize,
}

/// An UNSUBSCRIBE awaiting its UNSUBACK.
#[derive(Debug, Clone, PartialEq, Eq)]
pub struct PendingUnsub {
    pub mid: u16,
    pub filter: Vec<u8>,
}

/// What a session reports to the application, in arrival order.
#[derive(Debug, Clone, PartialEq, Eq)]
pub enum Event {
    /// The broker answered CONNECT; code 0 is success.
    ConnackReceived { session_present: bool, code: u8 },
    /// The session left the connected or connecting state.
    Disconnected { reason: ClientError },
    /// A publish finished its handshake (immediately at QoS 0).
    PublishDone { mid: u16 },
    /// A delivery was abandoned: retries exhausted or session torn down.
    PublishFailed { mid: u16, reason: ClientError },
    /// The broker answered SUBSCRIBE; one code per filter.
    SubscribeDone { mid: u16, codes: Vec<u8> },
    /// A subscribe or unsubscribe was abandoned at disconnect.
    RequestFailed { mid: u16, reason: ClientError },
    /// The broker answered UNSUBSCRIBE.
    UnsubscribeDone { mid: u16 },
    /// An application message arrived.
    Message { mid: u16, topic: Vec<u8>, payload: Vec<u8>, qos: QoS, retain: bool },
}

/// Whether an event is a message delivery to the application.
pub open spec fn is_message_event(e: Event) -> bool {
    e matches Event::Message { .. }
}

/// The packet identifiers of the outbound deliveries.
pub open spec fn delivery_mids(ds: Seq<Delivery>) -> Seq<u16> {
    ds.map_values(|d: Delivery| d.mid)
}

/// The packet identifiers of the subscribes in flight.
pub open spec fn pending_sub_mids(ps: Seq<PendingSub>) -> Seq<u16> {
    ps.map_values(|p: PendingSub| p.mid)
}

/// The packet identifiers of the unsubscribes in flight.
pub open spec fn pending_unsub_mids(ps: Seq<PendingUnsub>) -> Seq<u16> {
    ps.map_values(|p: PendingUnsub| p.mid)
}

/// Non-zero and pairwise distinct.
pub open spec fn mids_ok(mids: Seq<u16>) -> bool {
    &&& forall|i: int| 0 <= i < mids.len() ==> mids[i] != 0
    &&& forall|i: int, j: int| 0 <= i < j < mids.len() ==> mids[i] != mids[j]
}

/// Every queued packet can go on the wire under revision `v`.
pub open spec fn queue_wf(q: Seq<Packet>, v: Version) -> bool {
    forall|i: int| 0 <= i < q.len() ==> (#[trigger] q[i])@.wf(v)
}

/// Largest payload a publish accepts. The wire limit is on the whole
/// body, so the exact payload ceiling would vary with the topic's length;
/// this uniform bound — the wire maximum minus a maximal topic and the
/// fixed fields — is deliberate, so that one limit serves every publish.
pub const MAX_PAYLOAD: usize = 268369915;

/// How the QoS 2 inbound filter treats one more PUBLISH carrying `m`: the
/// identifier is recorded, and a message is surfaced only if it was new.
pub open spec fn qos2_dedup_step(inbound: Seq<u16>, m: u16) -> (Seq<u16>, bool) {
    if inbound.contains(m) {
        (inbound, false)
    } else {
        (inbound.push(m), true)
    }
}

/// An MQTT client session: connection state, configuration, in-flight
/// deliveries, and the two queues the I/O loop drains.
#[derive(Debug)]
pub struct Session {
    pub state: SessionState,
    pub version: Version,
    pub client_id: Vec<u8>,
    pub clean_session: bool,
    pub username: Option<Vec<u8>>,
    pub password: Option<Vec<u8>>,
    pub will: Option<Will>,
    /// Keepalive interval in seconds; zero disables the ping machinery.
    pub keepalive: u16,
    /// How long a handshake step waits before a resend, in milliseconds.
    pub retry_interval: u64,
    /// Resends allowed per handshake step before the delivery fails.
    pub retry_limit: u32,
    /// How long a CONNECT may wait for its CONNACK, in milliseconds.
    pub connect_timeout: u64,
    /// Where the identifier scan starts next.
    pub next_mid: u16,
    pub outbound: Vec<Delivery>,
    pub pending_subs: Vec<PendingSub>,
    pub pending_unsubs: Vec<PendingUnsub>,
    pub subscriptions: Vec<Subscription>,
    /// Inbound QoS 2 identifiers seen but not yet released by PUBREL.
    pub inbound_qos2: Vec<u16>,
    /// Packets for the I/O loop to encode and send, in order.
    pub out_queue: Vec<Packet>,
    /// Events for the application, in arrival order.
    pub events: Vec<Event>,
    /// When the last packet was handed to the I/O loop, in milliseconds.
    pub last_send: u64,
    pub ping_outstanding: bool,
    /// When an unanswered PINGREQ becomes a fatal timeout.
    pub ping_deadline: u64,
    /// When an unanswered CONNECT becomes a failed connect attempt.
    pub connect_deadline: u64,
}

/// The identifiers currently reserved: outbound deliveries first, then
/// subscribes, then unsubscribes in flight.
pub open spec fn in_flight_mids(s: Session) -> Seq<u16> {
    delivery_mids(s.outbound@) + pending_sub_mids(s.pending_subs@) + pending_unsub_mids(
        s.pending_unsubs@,
    )
}

impl Session {
    /// The session invariant: reserved identifiers are non-zero and
    /// pairwise distinct, every queued packet is well formed for the
    /// session's protocol revision, the stored configuration fits the
    /// wire, and each pending subscribe points at a subscription.
    pub open spec fn wf(self) -> bool {
        &&& mids_ok(in_flight_mids(self))
        &&& queue_wf(self.out_queue@, self.version)
        &&& self.next_mid != 0
        &&& self.client_id@.len() <= 65535
        &&& utf8_ok(self.client_id@)
        &&& !self.client_id@.contains(0)
        &&& (self.client_id@.len() == 0 ==> self.clean_session)
        &&& match self.username {
            Some(ref u) => u@.len() <= 65535 && utf8_ok(u@) && !u@.contains(0),
            None => true,
        }
        &&& match self.password {
            Some(ref p) => p@.len() <= 65535,
            None => true,
        }
        &&& (self.password is Some ==> self.username is Some)
        &&& match self.will {
            Some(ref w) => valid_topic_spec(w.topic@) && utf8_ok(w.topic@) && w.payload@.len()
                <= 65535 && w.properties@.len() == 0,
            None => true,
        }
        &&& forall|i: int|
            0 <= i < self.pending_subs@.len() ==> (#[trigger] self.pending_subs@[i]).sub_index
                < self.subscriptions@.len()
        &&& forall|i: int, j: int|
            0 <= i < j < self.inbound_qos2@.len() ==> self.inbound_qos2@[i]
                != self.inbound_qos2@[j]
        &&& forall|i: int|
            0 <= i < self.outbound@.len() ==> valid_topic_spec(
                (#[trigger] self.outbound@[i]).topic@,
            ) && utf8_ok(self.outbound@[i].topic@) && self.outbound@[i].payload@.len()
                <= MAX_PAYLOAD && (self.outbound@[i].qos == QoS::AtLeastOnce
                || self.outbound@[i].qos == QoS::ExactlyOnce) && (self.outbound@[i].stage
                == DeliveryStage::AwaitPuback <==> self.outbound@[i].qos == QoS::AtLeastOnce)
    }

    /// A fresh, disconnected session. The identifier must be a UTF-8
    /// string of at most 65535 bytes without NUL (MQTT forbids U+0000 in
    /// its strings); an empty identifier demands a clean session, as the
    /// broker has nothing to resume.
    pub fn new(version: Version, client_id: &str, clean_session: bool) -> (r: Result<
        Session,
        ClientError,
    >)
        ensures
            match r {
                Ok(s) => {
                    &&& s.wf()
                    &&& s.state == SessionState::Disconnected
                    &&& s.version == version
                    &&& s.client_id@ == client_id.spec_bytes()
                    &&& s.clean_session == clean_session
                    &&& client_id.spec_bytes().len() <= 65535
                    &&& (client_id.spec_bytes().len() == 0 ==> clean_session)
                    &&& s.out_queue@.len() == 0
                    &&& s.events@.len() == 0
                    &&& s.outbound@.len() == 0
                    &&& s.pending_subs@.len() == 0
                    &&& s.pending_unsubs@.len() == 0
                    &&& in_flight_mids(s).len() == 0
                    &&& s.inbound_qos2@.len() == 0
                    &&& s.subscriptions@.len() == 0
                },
                Err(e) => e == ClientError::InvalidArgument && (client_id.spec_bytes().len() > 65535
                    || (client_id.spec_bytes().len() == 0 && !clean_session)
                    || client_id.spec_bytes().contains(0)),
            },
    {
        let id = crate::wire::slice_to_vec_u8(client_id.as_bytes());
        if id.len() > 65535 || (id.len() == 0 && !clean_session) || contains_nul(id.as_slice()) {
            return Err(ClientError::InvalidArgument);
        }
        proof {
            crate::wire::lemma_str_bytes_utf8(client_id);
        }
        let s = Session {
            state: SessionState::Disconnected,
            version,
            client_id: id,
            clean_session,
            username: None,
            password: None,
            will: None,
            keepalive: 0,
            retry_interval: 20000,
            retry_limit: 10,
            connect_timeout: 30000,
            next_mid: 1,
            outbound: Vec::new(),
            pending_subs: Vec::new(),
            pending_unsubs: Vec::new(),
            subscriptions: Vec::new(),
            inbound_qos2: Vec::new(),
            out_queue: Vec::new(),
            events: Vec::new(),
            last_send: 0,
            ping_outstanding: false,
            ping_deadline: 0,
            connect_deadline: 0,
        };
        proof {
            assert(in_flight_mids(s) =~= Seq::<u16>::empty());
        }
        Ok(s)
    }

    /// Stores the credentials sent with the next CONNECT. Either may be
    /// absent; a password needs a username beside it. A username with a
    /// NUL byte is rejected — MQTT forbids U+0000 in its strings — while
    /// the password is binary data and may carry any byte.
    pub fn set_username_and_password(
        &mut self,
        username: Option<&str>,
        password: Option<&str>,
    ) -> (r: Result<(), ClientError>)
        requires
            old(self).wf(),
        ensures
            final(self).wf(),
            match r {
                Ok(()) => {
                    &&& *final(self) == (Session {
                        username: final(self).username,
                        password: final(self).password,
                        ..*old(self)
                    })
                    &&& match (username, final(self).username) {
                        (Some(u), Some(ref su)) => su@ == u.spec_bytes(),
                        (None, None) => true,
                        _ => false,
                    }
                    &&& match (password, final(self).password) {
                        (Some(p), Some(ref sp)) => sp@ == p.spec_bytes(),
                        (None, None) => true,
                        _ => false,
                    }
                },
                Err(e) => *final(self) == *old(self) && e == ClientError::InvalidArgument && (match (
                    username,
                    password,
                ) {
                    (Some(u), _) if u.spec_bytes().len() > 65535 => true,
                    (Some(u), _) if u.spec_bytes().contains(0) => true,
                    (_, Some(p)) if p.spec_bytes().len() > 65535 => true,
                    (None, Some(_)) => true,
                    _ => false,
                }),
            },
    {
        match (&username, &password) {
            (None, Some(_)) => {
                return Err(ClientError::InvalidArgument);
            },
            _ => {},
        }
        let user: Option<Vec<u8>> = match username {
            Some(u) => {
                let v = crate::wire::slice_to_vec_u8(u.as_bytes());
                if v.len() > 65535 || contains_nul(v.as_slice()) {
                    return Err(ClientError::InvalidArgument);
                }
                proof {
                    crate::wire::lemma_str_bytes_utf8(u);
                }
                Some(v)
            },
            None => None,
        };
        let pass: Option<Vec<u8>> = match password {
            Some(p) => {
                let v = crate::wire::slice_to_vec_u8(p.as_bytes());
                if v.len() > 65535 {
                    return Err(ClientError::InvalidArgument);
                }
                Some(v)
            },
            None => None,
        };
        self.username = user;
        self.password = pass;
        Ok(())
    }

    /// Stores the will message sent with the next CONNECT.
    pub fn set_will(&mut self, topic: &str, payload: &[u8], qos: QoS, retain: bool) -> (r: Result<
        (),
        ClientError,
    >)
        requires
            old(self).wf(),
        ensures
            final(self).wf(),
            match r {
                Ok(()) => {
                    &&& valid_topic_spec(topic.spec_bytes())
                    &&& payload@.len() <= 65535
                    &&& *final(self) == (Session { will: final(self).will, ..*old(self) })
                    &&& final(self).will matches Some(w) && w.topic@ == topic.spec_bytes()
                        && w.payload@ == payload@ && w.qos == qos && w.retain == retain
                },
                Err(e) => *final(self) == *old(self) && e == ClientError::InvalidArgument && (
                !valid_topic_spec(topic.spec_bytes()) || payload@.len() > 65535),
            },
    {
        if !crate::topic::validate_publish_topic(topic) || payload.len() > 65535 {
            return Err(ClientError::InvalidArgument);
        }
        proof {
            crate::wire::lemma_str_bytes_utf8(topic);
        }
        self.will = Some(
            Will {
                topic: crate::wire::slice_to_vec_u8(topic.as_bytes()),
                payload: crate::wire::slice_to_vec_u8(payload),
                qos,
                retain,
                properties: PropertyList::new(),
            },
        );
        Ok(())
    }

    /// Whether `m` is reserved by some in-flight delivery or request.
    #[verifier::loop_isolation(false)]
    pub fn mid_in_use(&self, m: u16) -> (r: bool)
        ensures
            r == in_flight_mids(*self).contains(m),
    {
        let ghost all = in_flight_mids(*self);
        let ghost dn = self.outbound@.len() as int;
        let ghost sn = self.pending_subs@.len() as int;
        let ghost un = self.pending_unsubs@.len() as int;
        proof {
            assert(all.len() == dn + sn + un);
            assert(forall|i: int| 0 <= i < dn ==> all[i] == self.outbound@[i].mid);
            assert(forall|i: int|
                0 <= i < sn ==> all[dn + i] == (#[trigger] self.pending_subs@[i]).mid);
            assert(forall|i: int|
                0 <= i < un ==> all[dn + sn + i] == (#[trigger] self.pending_unsubs@[i]).mid);
        }
        let mut i: usize = 0;
        while i < self.outbound.len()
            invariant
                i <= self.outbound@.len(),
                forall|j: int| 0 <= j < i ==> self.outbound@[j].mid != m,
            decreases self.outbound@.len() - i,
        {
            if self.outbound[i].mid == m {
                assert(all[i as int] == m);
                return true;
            }
            i = i + 1;
        }
        let mut j: usize = 0;
        while j < self.pending_subs.len()
            invariant
                j <= self.pending_subs@.len(),
                forall|k: int| 0 <= k < j ==> (#[trigger] self.pending_subs@[k]).mid != m,
            decreases self.pending_subs@.len() - j,
        {
            if self.pending_subs[j].mid == m {
                assert(in_flight_mids(*self)[self.outbound@.len() + j] == m);
                return true;
            }
            j = j + 1;
        }
        let mut k: usize = 0;
        while k < self.pending_unsubs.len()
            invariant
                k <= self.pending_unsubs@.len(),
                forall|l: int| 0 <= l < k ==> (#[trigger] self.pending_unsubs@[l]).mid != m,
            decreases self.pending_unsubs@.len() - k,
        {
            if self.pending_unsubs[k].mid == m {
                assert(in_flight_mids(*self)[self.outbound@.len() + self.pending_subs@.len()
                    + k] == m);
                return true;
            }
            k = k + 1;
        }
        proof {
            if in_flight_mids(*self).contains(m) {
                let w = choose|w: int|
                    0 <= w < in_flight_mids(*self).len() && in_flight_mids(*self)[w] == m;
                assert(false);
            }
        }
        false
    }

    /// Reserves a fresh packet identifier: the monotonic scan starts at
    /// `next_mid`, wraps at 65535 skipping zero and every identifier still
    /// in flight, takes the first free one, and fails only when all 65535
    /// identifiers are reserved.
    fn alloc_mid(&mut self) -> (r: Option<u16>)
        requires
            old(self).next_mid != 0,
        ensures
            *final(self) == (Session { next_mid: final(self).next_mid, ..*old(self) }),
            final(self).next_mid != 0,
            match r {
                Some(m) => mid_scan_post(*old(self), *final(self), m),
                None => *final(self) == *old(self) && (forall|m: u16|
                    1 <= m ==> in_flight_mids(*old(self)).contains(m)),
            },
    {
        let start: u16 = self.next_mid;
        let mut c: u16 = start;
        loop
            invariant
                1 <= start <= c <= 65535,
                old(self).next_mid == start,
                *self == *old(self),
                forall|m: u16| start <= m < c ==> in_flight_mids(*old(self)).contains(m),
            ensures
                *self == *old(self),
                forall|m: u16| start <= m <= 65535 ==> in_flight_mids(*old(self)).contains(m),
            decreases 65535 - c,
        {
            if !self.mid_in_use(c) {
                self.next_mid = if c == 65535 {
                    1
                } else {
                    c + 1
                };
                return Some(c);
            }
            if c == 65535 {
                break;
            }
            c = c + 1;
        }
        let mut d: u16 = 1;
        while d < start
            invariant
                1 <= d <= start,
                *self == *old(self),
                old(self).next_mid == start,
                forall|m: u16| start <= m <= 65535 ==> in_flight_mids(*old(self)).contains(m),
                forall|m: u16| 1 <= m < d ==> in_flight_mids(*old(self)).contains(m),
            decreases start - d,
        {
            if !self.mid_in_use(d) {
                self.next_mid = d + 1;
                return Some(d);
            }
            d = d + 1;
        }
        None
    }

    /// Hands over everything queued for the wire, oldest first, leaving
    /// the queue empty.
    pub fn take_outgoing(&mut self) -> (r: Vec<Packet>)
        ensures
            r@ == old(self).out_queue@,
            *final(self) == (Session { out_queue: final(self).out_queue, ..*old(self) }),
            final(self).out_queue@.len() == 0,
    {
        let mut q: Vec<Packet> = Vec::new();
        core::mem::swap(&mut q, &mut self.out_queue);
        q
    }

    /// Hands over everything queued for the application, oldest first,
    /// leaving the queue empty.
    pub fn take_events(&mut self) -> (r: Vec<Event>)
        ensures
            r@ == old(self).events@,
            *final(self) == (Session { events: final(self).events, ..*old(self) }),
            final(self).events@.len() == 0,
    {
        let mut q: Vec<Event> = Vec::new();
        core::mem::swap(&mut q, &mut self.events);
        q
    }

    /// Abandons every pending subscribe and unsubscribe with a
    /// `Disconnected` outcome; when `drop_deliveries` is set, abandons the
    /// in-flight deliveries and the inbound QoS 2 filter too (a clean
    /// session keeps nothing across a disconnect).
    #[verifier::loop_isolation(false)]
    fn fail_pending(&mut self, drop_deliveries: bool)
        requires
            old(self).wf(),
        ensures
            final(self).wf(),
            *final(self) == (Session {
                events: final(self).events,
                outbound: final(self).outbound,
                pending_subs: final(self).pending_subs,
                pending_unsubs: final(self).pending_unsubs,
                inbound_qos2: final(self).inbound_qos2,
                ..*old(self)
            }),
            final(self).events@ == old(self).events@ + (if drop_deliveries {
                delivery_fail_events(old(self).outbound@)
            } else {
                Seq::<Event>::empty()
            }) + sub_fail_events(old(self).pending_subs@) + unsub_fail_events(
                old(self).pending_unsubs@,
            ),
            final(self).outbound@ == if drop_deliveries {
                Seq::<Delivery>::empty()
            } else {
                old(self).outbound@
            },
            final(self).pending_subs@.len() == 0,
            final(self).pending_unsubs@.len() == 0,
            final(self).inbound_qos2@ == if drop_deliveries {
                Seq::<u16>::empty()
            } else {
                old(self).inbound_qos2@
            },
    {
        let ghost ev0 = self.events@;
        let ghost dfe: Seq<Event> = if drop_deliveries {
            delivery_fail_events(self.outbound@)
        } else {
            Seq::empty()
        };
        if drop_deliveries {
            let mut i: usize = 0;
            while i < self.outbound.len()
                invariant
                    i <= self.outbound@.len(),
                    *self == (Session { events: self.events, ..*old(self) }),
                    self.events@ == ev0 + delivery_fail_events(self.outbound@).take(i as int),
                decreases self.outbound@.len() - i,
            {
                let m = self.outbound[i].mid;
                let ghost pre = self.events@;
                self.events.push(
                    Event::PublishFailed { mid: m, reason: ClientError::Disconnected },
                );
                proof {
                    assert(delivery_fail_events(self.outbound@)[i as int]
                        == Event::PublishFailed { mid: m, reason: ClientError::Disconnected });
                    assert(pre.push(delivery_fail_events(self.outbound@)[i as int]) =~= ev0
                        + delivery_fail_events(self.outbound@).take(i + 1));
                }
                i = i + 1;
            }
            proof {
                assert(delivery_fail_events(self.outbound@).take(
                    self.outbound@.len() as int,
                ) =~= delivery_fail_events(self.outbound@));
            }
            self.outbound.clear();
            self.inbound_qos2.clear();
        } else {
            proof {
                assert(ev0 + dfe =~= ev0);
            }
        }
        let ghost ev1 = self.events@;
        proof {
            assert(ev1 == ev0 + dfe);
        }
        let ghost ob1 = self.outbound@;
        let ghost ib1 = self.inbound_qos2@;
        let mut j: usize = 0;
        while j < self.pending_subs.len()
            invariant
                j <= self.pending_subs@.len(),
                *self == (Session {
                    events: self.events,
                    outbound: self.outbound,
                    inbound_qos2: self.inbound_qos2,
                    ..*old(self)
                }),
                self.outbound@ == ob1,
                self.inbound_qos2@ == ib1,
                self.events@ == ev1 + sub_fail_events(self.pending_subs@).take(j as int),
            decreases self.pending_subs@.len() - j,
        {
            let m = self.pending_subs[j].mid;
            let ghost pre = self.events@;
            self.events.push(Event::RequestFailed { mid: m, reason: ClientError::Disconnected });
            proof {
                assert(sub_fail_events(self.pending_subs@)[j as int] == Event::RequestFailed {
                    mid: m,
                    reason: ClientError::Disconnected,
                });
                assert(pre.push(sub_fail_events(self.pending_subs@)[j as int]) =~= ev1
                    + sub_fail_events(self.pending_subs@).take(j + 1));
            }
            j = j + 1;
        }
        proof {
            assert(sub_fail_events(self.pending_subs@).take(
                self.pending_subs@.len() as int,
            ) =~= sub_fail_events(self.pending_subs@));
        }
        self.pending_subs.clear();
        let ghost ev2 = self.events@;
        let mut k: usize = 0;
        while k < self.pending_unsubs.len()
            invariant
                k <= self.pending_unsubs@.len(),
                *self == (Session {
                    events: self.events,
                    outbound: self.outbound,
                    inbound_qos2: self.inbound_qos2,
                    pending_subs: self.pending_subs,
                    ..*old(self)
                }),
                self.outbound@ == ob1,
                self.inbound_qos2@ == ib1,
                self.pending_subs@.len() == 0,
                self.events@ == ev2 + unsub_fail_events(self.pending_unsubs@).take(k as int),
            decreases self.pending_unsubs@.len() - k,
        {
            let m = self.pending_unsubs[k].mid;
            let ghost pre = self.events@;
            self.events.push(Event::RequestFailed { mid: m, reason: ClientError::Disconnected });
            proof {
                assert(unsub_fail_events(self.pending_unsubs@)[k as int] == Event::RequestFailed {
                    mid: m,
                    reason: ClientError::Disconnected,
                });
                assert(pre.push(unsub_fail_events(self.pending_unsubs@)[k as int]) =~= ev2
                    + unsub_fail_events(self.pending_unsubs@).take(k + 1));
            }
            k = k + 1;
        }
        proof {
            assert(unsub_fail_events(self.pending_unsubs@).take(
                self.pending_unsubs@.len() as int,
            ) =~= unsub_fail_events(self.pending_unsubs@));
        }
        self.pending_unsubs.clear();
        proof {
            let a = delivery_mids(old(self).outbound@);
            let b = pending_sub_mids(old(self).pending_subs@);
            let c = pending_unsub_mids(old(self).pending_unsubs@);
            lemma_mids_ok_segments(a, b, c);
            if drop_deliveries {
                assert(in_flight_mids(*self) =~= Seq::<u16>::empty() + Seq::<u16>::empty()
                    + Seq::<u16>::empty());
            } else {
                assert(in_flight_mids(*self) =~= a + Seq::<u16>::empty() + Seq::<u16>::empty());
            }
        }
    }

    /// Starts the CONNECT handshake. Fails with `AlreadyConnected` on a
    /// connected session — and queues nothing — and with
    /// `ConnectInProgress` while a handshake or teardown is under way.
    /// Otherwise queues a CONNECT built from the stored configuration,
    /// enters `Connecting`, and arms the connect timeout.
    pub fn connect(&mut self, keepalive: u16, now: u64) -> (r: Result<(), ClientError>)
        requires
            old(self).wf(),
        ensures
            final(self).wf(),
            match r {
                Ok(()) => {
                    &&& old(self).state == SessionState::Disconnected
                    &&& *final(self) == (Session {
                        state: SessionState::Connecting,
                        keepalive,
                        out_queue: final(self).out_queue,
                        last_send: now,
                        connect_deadline: sat_add_spec(now, old(self).connect_timeout),
                        ping_outstanding: false,
                        ..*old(self)
                    })
                    &&& final(self).out_queue@.len() == old(self).out_queue@.len() + 1
                    &&& final(self).out_queue@.take(old(self).out_queue@.len() as int) == old(
                        self,
                    ).out_queue@
                    &&& (final(self).out_queue@.last() matches Packet::Connect(c) && {
                        &&& c.client_id@ == old(self).client_id@
                        &&& c.clean_session == old(self).clean_session
                        &&& c.keepalive == keepalive
                        &&& match (old(self).username, c.username) {
                            (Some(u), Some(cu)) => cu@ == u@,
                            (None, None) => true,
                            _ => false,
                        }
                        &&& match (old(self).password, c.password) {
                            (Some(pw), Some(cp)) => cp@ == pw@,
                            (None, None) => true,
                            _ => false,
                        }
                        &&& match (old(self).will, c.will) {
                            (Some(w), Some(cw)) => cw.topic@ == w.topic@ && cw.payload@
                                == w.payload@ && cw.qos == w.qos && cw.retain == w.retain,
                            (None, None) => true,
                            _ => false,
                        }
                        &&& c.properties@.len() == 0
                    })
                },
                Err(e) => *final(self) == *old(self) && ((e == ClientError::AlreadyConnected && old(
                    self,
                ).state == SessionState::Connected) || (e == ClientError::ConnectInProgress && (old(
                    self,
                ).state == SessionState::Connecting || old(self).state
                    == SessionState::Disconnecting))),
            },
    {
        match self.state {
            SessionState::Connected => Err(ClientError::AlreadyConnected),
            SessionState::Connecting => Err(ClientError::ConnectInProgress),
            SessionState::Disconnecting => Err(ClientError::ConnectInProgress),
            SessionState::Disconnected => {
                let will: Option<Will> = match &self.will {
                    Some(w) => Some(copy_will(w)),
                    None => None,
                };
                let packet = Packet::Connect(
                    crate::codec::ConnectPacket {
                        client_id: crate::wire::slice_to_vec_u8(self.client_id.as_slice()),
                        clean_session: self.clean_session,
                        keepalive,
                        username: copy_opt_bytes(&self.username),
                        password: copy_opt_bytes(&self.password),
                        will,
                        properties: PropertyList::new(),
                    },
                );
                proof {
                    assert(packet@->Connect_0.properties =~= Seq::<
                        crate::properties::PropertyV,
                    >::empty());
                    lemma_connect_packet_wf(packet@->Connect_0, self.version);
                }
                let ghost q0 = self.out_queue@;
                self.out_queue.push(packet);
                self.state = SessionState::Connecting;
                self.keepalive = keepalive;
                self.last_send = now;
                self.connect_deadline = sat_add(now, self.connect_timeout);
                self.ping_outstanding = false;
                proof {
                    assert(in_flight_mids(*self) =~= in_flight_mids(*old(self)));
                    assert(self.out_queue@.take(q0.len() as int) =~= q0);
                }
                Ok(())
            },
        }
    }

    /// Tears the session down in an orderly way: queues DISCONNECT,
    /// enters `Disconnecting`, abandons pending subscribes and
    /// unsubscribes, and — on a clean session — the in-flight deliveries
    /// too; a persistent session keeps them to resume after a reconnect.
    pub fn disconnect(&mut self, now: u64) -> (r: Result<(), ClientError>)
        requires
            old(self).wf(),
        ensures
            final(self).wf(),
            match r {
                Ok(()) => {
                    &&& (old(self).state == SessionState::Connected || old(self).state
                        == SessionState::Connecting)
                    &&& *final(self) == (Session {
                        state: SessionState::Disconnecting,
                        out_queue: final(self).out_queue,
                        events: final(self).events,
                        outbound: final(self).outbound,
                        pending_subs: final(self).pending_subs,
                        pending_unsubs: final(self).pending_unsubs,
                        inbound_qos2: final(self).inbound_qos2,
                        last_send: now,
                        ping_outstanding: false,
                        ..*old(self)
                    })
                    &&& final(self).inbound_qos2@ == (if old(self).clean_session {
                        Seq::<u16>::empty()
                    } else {
                        old(self).inbound_qos2@
                    })
                    &&& final(self).out_queue@.len() == old(self).out_queue@.len() + 1
                    &&& final(self).out_queue@.take(old(self).out_queue@.len() as int) == old(
                        self,
                    ).out_queue@
                    &&& (final(self).out_queue@.last() matches Packet::Disconnect(d) && d.reason
                        == 0 && d.properties@.len() == 0)
                    &&& final(self).events@ == old(self).events@ + (if old(self).clean_session {
                        delivery_fail_events(old(self).outbound@)
                    } else {
                        Seq::<Event>::empty()
                    }) + sub_fail_events(old(self).pending_subs@) + unsub_fail_events(
                        old(self).pending_unsubs@,
                    )
                    &&& final(self).outbound@ == (if old(self).clean_session {
                        Seq::<Delivery>::empty()
                    } else {
                        old(self).outbound@
                    })
                    &&& final(self).pending_subs@.len() == 0
                    &&& final(self).pending_unsubs@.len() == 0
                    &&& final(self).last_send == now
                },
                Err(e) => *final(self) == *old(self) && e == ClientError::NotConnected && (old(
                    self,
                ).state == SessionState::Disconnected || old(self).state
                    == SessionState::Disconnecting),
            },
    {
        match self.state {
            SessionState::Disconnected => Err(ClientError::NotConnected),
            SessionState::Disconnecting => Err(ClientError::NotConnected),
            _ => {
                let clean = self.clean_session;
                self.fail_pending(clean);
                let packet = Packet::Disconnect(
                    crate::codec::DisconnectPacket { reason: 0, properties: PropertyList::new() },
                );
                proof {
                    assert(packet@->Disconnect_0.properties =~= Seq::<
                        crate::properties::PropertyV,
                    >::empty());
                    lemma_empty_prop_block_len(packet@->Disconnect_0.properties);
                    assert(packet@.wf(self.version));
                }
                let ghost q0 = self.out_queue@;
                self.out_queue.push(packet);
                self.state = SessionState::Disconnecting;
                self.last_send = now;
                self.ping_outstanding = false;
                proof {
                    assert(self.out_queue@.take(q0.len() as int) =~= q0);
                }
                Ok(())
            },
        }
    }

    /// Reports that the transport failed, with the reason to surface: a
    /// socket error, or a protocol violation that made framing ambiguous.
    /// The session is torn down as [`teardown_post`] describes; a session
    /// already disconnected is left alone.
    pub fn transport_failed(&mut self, reason: ClientError)
        requires
            old(self).wf(),
        ensures
            final(self).wf(),
            final(self).state == SessionState::Disconnected,
            old(self).state == SessionState::Disconnected ==> *final(self) == *old(self),
            old(self).state != SessionState::Disconnected ==> teardown_post(
                *old(self),
                *final(self),
                reason,
            ),
    {
        if matches!(self.state, SessionState::Disconnected) {
            return ;
        }
        let clean = self.clean_session;
        self.fail_pending(clean);
        self.state = SessionState::Disconnected;
        self.ping_outstanding = false;
        let ghost pre = self.events@;
        self.events.push(Event::Disconnected { reason });
        proof {
            assert(self.events@ =~= pre + seq![Event::Disconnected { reason }]);
        }
    }

    /// Reports that the transport is gone: an orderly close after
    /// `disconnect`, or a socket failure. The session lands in
    /// `Disconnected`; on a failure an event reports `SocketError`, and a
    /// clean session abandons its in-flight deliveries.
    pub fn transport_closed(&mut self)
        requires
            old(self).wf(),
        ensures
            final(self).wf(),
            final(self).state == SessionState::Disconnected,
            old(self).state == SessionState::Disconnected ==> *final(self) == *old(self),
            old(self).state == SessionState::Disconnecting ==> ({
                &&& *final(self) == (Session {
                    state: SessionState::Disconnected,
                    events: final(self).events,
                    ping_outstanding: false,
                    ..*old(self)
                })
                &&& final(self).events@ == old(self).events@.push(
                    Event::Disconnected { reason: ClientError::Disconnected },
                )
            }),
            (old(self).state == SessionState::Connected || old(self).state
                == SessionState::Connecting) ==> teardown_post(
                *old(self),
                *final(self),
                ClientError::SocketError,
            ),
    {
        match self.state {
            SessionState::Disconnected => {},
            SessionState::Disconnecting => {
                self.state = SessionState::Disconnected;
                self.ping_outstanding = false;
                self.events.push(
                    Event::Disconnected { reason: ClientError::Disconnected },
                );
            },
            _ => {
                self.transport_failed(ClientError::SocketError);
            },
        }
    }

    /// Publishes a message. The call never blocks: it validates the
    /// arguments, queues the PUBLISH, and returns at once; completion is
    /// reported later through an event. A QoS 0 publish needs no packet
    /// identifier and completes immediately under the placeholder
    /// identifier zero; higher levels reserve a fresh identifier by the
    /// wrap-around scan and enter the in-flight set until their handshake
    /// finishes. Success is owed whenever the session is connected, the
    /// topic is a valid topic name, the payload fits [`MAX_PAYLOAD`], and
    /// — above QoS 0 — some identifier is free.
    pub fn publish(&mut self, topic: &str, payload: &[u8], qos: QoS, retain: bool, now: u64) -> (r:
        Result<u16, ClientError>)
        requires
            old(self).wf(),
        ensures
            final(self).wf(),
            match r {
                Ok(mid) => {
                    &&& old(self).state == SessionState::Connected
                    &&& valid_topic_spec(topic.spec_bytes())
                    &&& payload@.len() <= MAX_PAYLOAD
                    &&& final(self).out_queue@.len() == old(self).out_queue@.len() + 1
                    &&& final(self).out_queue@.take(old(self).out_queue@.len() as int) == old(
                        self,
                    ).out_queue@
                    &&& (final(self).out_queue@.last() matches Packet::Publish(pp) && {
                        &&& pp.topic@ == topic.spec_bytes()
                        &&& pp.payload@ == payload@
                        &&& pp.qos == qos
                        &&& pp.retain == retain
                        &&& !pp.dup
                        &&& pp.packet_id == (if qos == QoS::AtMostOnce {
                            None::<u16>
                        } else {
                            Some(mid)
                        })
                    })
                    &&& (qos == QoS::AtMostOnce ==> ({
                        &&& mid == 0
                        &&& *final(self) == (Session {
                            out_queue: final(self).out_queue,
                            events: final(self).events,
                            last_send: now,
                            ..*old(self)
                        })
                        &&& final(self).events@ == old(self).events@.push(
                            Event::PublishDone { mid: 0u16 },
                        )
                    }))
                    &&& (qos != QoS::AtMostOnce ==> ({
                        &&& mid_scan_post(*old(self), *final(self), mid)
                        &&& *final(self) == (Session {
                            next_mid: final(self).next_mid,
                            outbound: final(self).outbound,
                            out_queue: final(self).out_queue,
                            last_send: now,
                            ..*old(self)
                        })
                        &&& final(self).outbound@.len() == old(self).outbound@.len() + 1
                        &&& final(self).outbound@.take(old(self).outbound@.len() as int) == old(
                            self,
                        ).outbound@
                        &&& ({
                            let d = final(self).outbound@.last();
                            &&& d.mid == mid
                            &&& d.qos == qos
                            &&& d.stage == (if qos == QoS::AtLeastOnce {
                                DeliveryStage::AwaitPuback
                            } else {
                                DeliveryStage::AwaitPubrec
                            })
                            &&& d.topic@ == topic.spec_bytes()
                            &&& d.payload@ == payload@
                            &&& d.retain == retain
                            &&& d.deadline == sat_add_spec(now, old(self).retry_interval)
                            &&& d.retries == 0
                        })
                    }))
                },
                Err(e) => *final(self) == *old(self) && ((e == ClientError::NotConnected && old(
                    self,
                ).state != SessionState::Connected) || (e == ClientError::InvalidArgument && old(
                    self,
                ).state == SessionState::Connected && (!valid_topic_spec(topic.spec_bytes())
                    || payload@.len() > MAX_PAYLOAD)) || (e == ClientError::DeliveryFailed && old(
                    self,
                ).state == SessionState::Connected && valid_topic_spec(topic.spec_bytes())
                    && payload@.len() <= MAX_PAYLOAD && qos != QoS::AtMostOnce && (forall|m: u16|
                    1 <= m ==> in_flight_mids(*old(self)).contains(m)))),
            },
    {
        if !matches!(self.state, SessionState::Connected) {
            return Err(ClientError::NotConnected);
        }
        if !crate::topic::validate_publish_topic(topic) || payload.len() > MAX_PAYLOAD {
            return Err(ClientError::InvalidArgument);
        }
        proof {
            crate::wire::lemma_str_bytes_utf8(topic);
        }
        if matches!(qos, QoS::AtMostOnce) {
            let packet = Packet::Publish(
                PublishPacket {
                    topic: crate::wire::slice_to_vec_u8(topic.as_bytes()),
                    payload: crate::wire::slice_to_vec_u8(payload),
                    qos,
                    retain,
                    dup: false,
                    packet_id: None,
                    properties: PropertyList::new(),
                },
            );
            proof {
                assert(packet@->Publish_0.properties =~= Seq::<
                    crate::properties::PropertyV,
                >::empty());
                lemma_engine_publish_wf(packet@->Publish_0, self.version);
            }
            let ghost q0 = self.out_queue@;
            self.out_queue.push(packet);
            self.last_send = now;
            self.events.push(Event::PublishDone { mid: 0 });
            proof {
                assert(self.out_queue@.take(q0.len() as int) =~= q0);
                assert(in_flight_mids(*self) =~= in_flight_mids(*old(self)));
            }
            return Ok(0);
        }
        let mid = match self.alloc_mid() {
            Some(m) => m,
            None => {
                return Err(ClientError::DeliveryFailed);
            },
        };
        let packet = Packet::Publish(
            PublishPacket {
                topic: crate::wire::slice_to_vec_u8(topic.as_bytes()),
                payload: crate::wire::slice_to_vec_u8(payload),
                qos,
                retain,
                dup: false,
                packet_id: Some(mid),
                properties: PropertyList::new(),
            },
        );
        proof {
            assert(packet@->Publish_0.properties =~= Seq::<crate::properties::PropertyV>::empty());
            lemma_engine_publish_wf(packet@->Publish_0, self.version);
        }
        let ghost q0 = self.out_queue@;
        self.out_queue.push(packet);
        self.last_send = now;
        proof {
            assert(self.out_queue@.take(q0.len() as int) =~= q0);
        }
        let stage = if matches!(qos, QoS::AtLeastOnce) {
            DeliveryStage::AwaitPuback
        } else {
            DeliveryStage::AwaitPubrec
        };
        let deadline = sat_add(now, self.retry_interval);
        let ghost ob0 = self.outbound@;
        self.outbound.push(
            Delivery {
                mid,
                qos,
                stage,
                topic: crate::wire::slice_to_vec_u8(topic.as_bytes()),
                payload: crate::wire::slice_to_vec_u8(payload),
                retain,
                deadline,
                retries: 0,
            },
        );
        proof {
            assert(self.outbound@.take(ob0.len() as int) =~= ob0);
            let a = delivery_mids(ob0);
            let b = pending_sub_mids(self.pending_subs@);
            let c = pending_unsub_mids(self.pending_unsubs@);
            lemma_mids_ok_insert(a, b, c, mid);
            assert(delivery_mids(self.outbound@) =~= a.push(mid));
            assert(in_flight_mids(*self) =~= a.push(mid) + b + c);
        }
        Ok(mid)
    }

    /// Asks the broker for a subscription to `filter` at `qos`. The call
    /// queues a single-filter SUBSCRIBE and records the subscription with
    /// no granted level yet; the SUBACK fills it in. Success is owed
    /// whenever the session is connected, the filter is valid, and some
    /// identifier is free.
    pub fn subscribe(&mut self, filter: &str, qos: QoS, now: u64) -> (r: Result<u16, ClientError>)
        requires
            old(self).wf(),
        ensures
            final(self).wf(),
            match r {
                Ok(mid) => {
                    &&& old(self).state == SessionState::Connected
                    &&& valid_filter_spec(filter.spec_bytes())
                    &&& mid_scan_post(*old(self), *final(self), mid)
                    &&& *final(self) == (Session {
                        next_mid: final(self).next_mid,
                        pending_subs: final(self).pending_subs,
                        subscriptions: final(self).subscriptions,
                        out_queue: final(self).out_queue,
                        last_send: now,
                        ..*old(self)
                    })
                    &&& final(self).subscriptions@.len() == old(self).subscriptions@.len() + 1
                    &&& final(self).subscriptions@.take(old(self).subscriptions@.len() as int)
                        == old(self).subscriptions@
                    &&& ({
                        let s = final(self).subscriptions@.last();
                        s.filter@ == filter.spec_bytes() && s.requested_qos == qos && s.granted
                            is None && s.active
                    })
                    &&& final(self).pending_subs@ == old(self).pending_subs@.push(
                        PendingSub { mid, sub_index: old(self).subscriptions@.len() as usize },
                    )
                    &&& final(self).out_queue@.len() == old(self).out_queue@.len() + 1
                    &&& final(self).out_queue@.take(old(self).out_queue@.len() as int) == old(
                        self,
                    ).out_queue@
                    &&& (final(self).out_queue@.last() matches Packet::Subscribe(sp) && {
                        &&& sp.packet_id == mid
                        &&& sp.requests@.len() == 1
                        &&& sp.requests@[0].filter@ == filter.spec_bytes()
                        &&& sp.requests@[0].qos == qos
                    })
                },
                Err(e) => *final(self) == *old(self) && ((e == ClientError::NotConnected && old(
                    self,
                ).state != SessionState::Connected) || (e == ClientError::InvalidArgument && old(
                    self,
                ).state == SessionState::Connected && !valid_filter_spec(filter.spec_bytes())) || (e
                    == ClientError::DeliveryFailed && old(self).state == SessionState::Connected
                    && valid_filter_spec(filter.spec_bytes()) && (forall|m: u16|
                    1 <= m ==> in_flight_mids(*old(self)).contains(m)))),
            },
    {
        if !matches!(self.state, SessionState::Connected) {
            return Err(ClientError::NotConnected);
        }
        if !crate::topic::validate_subscribe_filter(filter) {
            return Err(ClientError::InvalidArgument);
        }
        proof {
            crate::wire::lemma_str_bytes_utf8(filter);
        }
        let mid = match self.alloc_mid() {
            Some(m) => m,
            None => {
                return Err(ClientError::DeliveryFailed);
            },
        };
        let packet = Packet::Subscribe(
            SubscribePacket {
                packet_id: mid,
                requests: vec![
                    SubRequest {
                        filter: crate::wire::slice_to_vec_u8(filter.as_bytes()),
                        qos,
                        no_local: false,
                        retain_as_published: false,
                        retain_handling: 0,
                    },
                ],
                properties: PropertyList::new(),
            },
        );
        proof {
            assert(packet@->Subscribe_0.properties =~= Seq::<
                crate::properties::PropertyV,
            >::empty());
            lemma_engine_subscribe_wf(packet@->Subscribe_0, self.version);
        }
        let ghost q0 = self.out_queue@;
        self.out_queue.push(packet);
        let sub_index = self.subscriptions.len();
        let ghost sub0 = self.subscriptions@;
        self.subscriptions.push(
            Subscription {
                filter: crate::wire::slice_to_vec_u8(filter.as_bytes()),
                requested_qos: qos,
                granted: None,
                active: true,
            },
        );
        let ghost ps0 = self.pending_subs@;
        self.pending_subs.push(PendingSub { mid, sub_index });
        self.last_send = now;
        proof {
            assert(self.out_queue@.take(q0.len() as int) =~= q0);
            assert(self.subscriptions@.take(sub0.len() as int) =~= sub0);
            let a = delivery_mids(self.outbound@);
            let b = pending_sub_mids(ps0);
            let c = pending_unsub_mids(self.pending_unsubs@);
            lemma_mids_ok_insert(a, b, c, mid);
            assert(pending_sub_mids(self.pending_subs@) =~= b.push(mid));
            assert(in_flight_mids(*self) =~= a + b.push(mid) + c);
        }
        Ok(mid)
    }

    /// Asks the broker to drop the subscription to `filter`. The call
    /// queues a single-filter UNSUBSCRIBE; the UNSUBACK retires the
    /// matching subscriptions. Success is owed whenever the session is
    /// connected, the filter is valid, and some identifier is free.
    pub fn unsubscribe(&mut self, filter: &str, now: u64) -> (r: Result<u16, ClientError>)
        requires
            old(self).wf(),
        ensures
            final(self).wf(),
            match r {
                Ok(mid) => {
                    &&& old(self).state == SessionState::Connected
                    &&& valid_filter_spec(filter.spec_bytes())
                    &&& mid_scan_post(*old(self), *final(self), mid)
                    &&& *final(self) == (Session {
                        next_mid: final(self).next_mid,
                        pending_unsubs: final(self).pending_unsubs,
                        out_queue: final(self).out_queue,
                        last_send: now,
                        ..*old(self)
                    })
                    &&& final(self).pending_unsubs@.len() == old(self).pending_unsubs@.len() + 1
                    &&& final(self).pending_unsubs@.take(old(self).pending_unsubs@.len() as int)
                        == old(self).pending_unsubs@
                    &&& ({
                        let pu = final(self).pending_unsubs@.last();
                        pu.mid == mid && pu.filter@ == filter.spec_bytes()
                    })
                    &&& final(self).out_queue@.len() == old(self).out_queue@.len() + 1
                    &&& final(self).out_queue@.take(old(self).out_queue@.len() as int) == old(
                        self,
                    ).out_queue@
                    &&& (final(self).out_queue@.last() matches Packet::Unsubscribe(up) && {
                        &&& up.packet_id == mid
                        &&& up.filters@.len() == 1
                        &&& up.filters@[0]@ == filter.spec_bytes()
                    })
                },
                Err(e) => *final(self) == *old(self) && ((e == ClientError::NotConnected && old(
                    self,
                ).state != SessionState::Connected) || (e == ClientError::InvalidArgument && old(
                    self,
                ).state == SessionState::Connected && !valid_filter_spec(filter.spec_bytes())) || (e
                    == ClientError::DeliveryFailed && old(self).state == SessionState::Connected
                    && valid_filter_spec(filter.spec_bytes()) && (forall|m: u16|
                    1 <= m ==> in_flight_mids(*old(self)).contains(m)))),
            },
    {
        if !matches!(self.state, SessionState::Connected) {
            return Err(ClientError::NotConnected);
        }
        if !crate::topic::validate_subscribe_filter(filter) {
            return Err(ClientError::InvalidArgument);
        }
        proof {
            crate::wire::lemma_str_bytes_utf8(filter);
        }
        let mid = match self.alloc_mid() {
            Some(m) => m,
            None => {
                return Err(ClientError::DeliveryFailed);
            },
        };
        let packet = Packet::Unsubscribe(
            UnsubscribePacket {
                packet_id: mid,
                filters: vec![crate::wire::slice_to_vec_u8(filter.as_bytes())],
                properties: PropertyList::new(),
            },
        );
        proof {
            assert(packet@->Unsubscribe_0.properties =~= Seq::<
                crate::properties::PropertyV,
            >::empty());
            lemma_engine_unsubscribe_wf(packet@->Unsubscribe_0, self.version);
        }
        let ghost q0 = self.out_queue@;
        self.out_queue.push(packet);
        let ghost pu0 = self.pending_unsubs@;
        self.pending_unsubs.push(
            PendingUnsub { mid, filter: crate::wire::slice_to_vec_u8(filter.as_bytes()) },
        );
        self.last_send = now;
        proof {
            assert(self.out_queue@.take(q0.len() as int) =~= q0);
            assert(self.pending_unsubs@.take(pu0.len() as int) =~= pu0);
            let a = delivery_mids(self.outbound@);
            let b = pending_sub_mids(self.pending_subs@);
            let c = pending_unsub_mids(pu0);
            lemma_mids_ok_insert(a, b, c, mid);
            assert(pending_unsub_mids(self.pending_unsubs@) =~= c.push(mid));
            assert(in_flight_mids(*self) =~= a + b + c.push(mid));
        }
        Ok(mid)
    }

    /// The index of the delivery carrying `m`, if any.
    #[verifier::loop_isolation(false)]
    fn find_delivery(&self, m: u16) -> (r: Option<usize>)
        requires
            self.wf(),
        ensures
            match r {
                Some(i) => has_delivery(self.outbound@, m) && i == delivery_idx(self.outbound@, m)
                    && i < self.outbound@.len() && self.outbound@[i as int].mid == m,
                None => !has_delivery(self.outbound@, m),
            },
    {
        proof {
            let all = in_flight_mids(*self);
            assert(forall|i: int|
                0 <= i < self.outbound@.len() ==> all[i] == (#[trigger] self.outbound@[i]).mid);
        }
        let mut i: usize = 0;
        while i < self.outbound.len()
            invariant
                i <= self.outbound@.len(),
                forall|j: int| 0 <= j < i ==> (#[trigger] self.outbound@[j]).mid != m,
            decreases self.outbound@.len() - i,
        {
            if self.outbound[i].mid == m {
                proof {
                    let k = delivery_idx(self.outbound@, m);
                    assert(self.outbound@[k].mid == m);
                    assert(in_flight_mids(*self)[k] == m && in_flight_mids(*self)[i as int] == m);
                }
                return Some(i);
            }
            i = i + 1;
        }
        None
    }

    /// Takes the broker's answer to CONNECT. In `Connecting`, code zero
    /// completes the handshake and code anything else ends the attempt;
    /// the outcome is reported as an event either way. In any other state
    /// the packet is ignored.
    pub fn handle_connack(&mut self, session_present: bool, code: u8)
        requires
            old(self).wf(),
        ensures
            final(self).wf(),
            connack_post(*old(self), *final(self), session_present, code),
    {
        if !matches!(self.state, SessionState::Connecting) {
            return ;
        }
        self.state = if code == 0 {
            SessionState::Connected
        } else {
            SessionState::Disconnected
        };
        self.ping_outstanding = false;
        self.events.push(Event::ConnackReceived { session_present, code });
    }

    /// Takes an inbound PUBLISH. At QoS 0 the message is surfaced at once;
    /// at QoS 1 it is surfaced and a PUBACK queued; at QoS 2 the packet
    /// identifier is checked against the not-yet-released set, the message
    /// is surfaced only on first sight, and a PUBREC is queued either way
    /// — a duplicate PUBLISH before the PUBREL therefore reaches the
    /// application exactly once. Ignored unless connected or when the
    /// identifier is missing or zero at QoS above zero.
    pub fn handle_publish(&mut self, p: PublishPacket, now: u64)
        requires
            old(self).wf(),
        ensures
            final(self).wf(),
            publish_post(*old(self), *final(self), p, now),
    {
        if !matches!(self.state, SessionState::Connected) {
            return ;
        }
        match p.qos {
            QoS::AtMostOnce => {
                self.events.push(
                    Event::Message {
                        mid: 0,
                        topic: p.topic,
                        payload: p.payload,
                        qos: p.qos,
                        retain: p.retain,
                    },
                );
            },
            QoS::AtLeastOnce => {
                let m = match p.packet_id {
                    Some(m) => m,
                    None => {
                        return ;
                    },
                };
                if m == 0 {
                    return ;
                }
                let ack = Packet::Puback(
                    AckPacket { packet_id: m, reason: 0, properties: PropertyList::new() },
                );
                proof {
                    assert(ack@->Puback_0.properties =~= Seq::<
                        crate::properties::PropertyV,
                    >::empty());
                    lemma_engine_ack_wf(
                        ack@->Puback_0,
                        self.version,
                        crate::types::PacketKind::Puback,
                    );
                }
                let ghost q0 = self.out_queue@;
                self.out_queue.push(ack);
                self.last_send = now;
                self.events.push(
                    Event::Message {
                        mid: m,
                        topic: p.topic,
                        payload: p.payload,
                        qos: p.qos,
                        retain: p.retain,
                    },
                );
                proof {
                    assert(self.out_queue@.take(q0.len() as int) =~= q0);
                }
            },
            QoS::ExactlyOnce => {
                let m = match p.packet_id {
                    Some(m) => m,
                    None => {
                        return ;
                    },
                };
                if m == 0 {
                    return ;
                }
                let mut seen = false;
                let ghost ib0 = self.inbound_qos2@;
                let mut i: usize = 0;
                while i < self.inbound_qos2.len()
                    invariant
                        i <= self.inbound_qos2@.len(),
                        self.inbound_qos2@ == ib0,
                        seen == (exists|j: int| 0 <= j < i && ib0[j] == m),
                    decreases self.inbound_qos2@.len() - i,
                {
                    if self.inbound_qos2[i] == m {
                        seen = true;
                    }
                    i = i + 1;
                }
                proof {
                    if seen {
                        assert(ib0.contains(m));
                    }
                    if ib0.contains(m) {
                        let w = choose|w: int| 0 <= w < ib0.len() && ib0[w] == m;
                        assert(seen);
                    }
                }
                let ack = Packet::Pubrec(
                    AckPacket { packet_id: m, reason: 0, properties: PropertyList::new() },
                );
                proof {
                    assert(ack@->Pubrec_0.properties =~= Seq::<
                        crate::properties::PropertyV,
                    >::empty());
                    lemma_engine_ack_wf(
                        ack@->Pubrec_0,
                        self.version,
                        crate::types::PacketKind::Pubrec,
                    );
                }
                let ghost q0 = self.out_queue@;
                self.out_queue.push(ack);
                self.last_send = now;
                if !seen {
                    self.inbound_qos2.push(m);
                    self.events.push(
                        Event::Message {
                            mid: m,
                            topic: p.topic,
                            payload: p.payload,
                            qos: p.qos,
                            retain: p.retain,
                        },
                    );
                }
                proof {
                    assert(self.out_queue@.take(q0.len() as int) =~= q0);
                }
            },
        }
    }

    /// Resolves a delivery waiting at `stage` under identifier `mid`: the
    /// delivery leaves the in-flight set and the publish is reported done.
    /// Unknown identifiers and stage mismatches are ignored, as the
    /// acknowledgement may be a late duplicate.
    fn resolve_delivery(&mut self, mid: u16, stage: DeliveryStage)
        requires
            old(self).wf(),
        ensures
            final(self).wf(),
            resolve_post(*old(self), *final(self), mid, stage),
    {
        let i = match self.find_delivery(mid) {
            Some(i) => i,
            None => {
                return ;
            },
        };
        if self.outbound[i].stage != stage {
            return ;
        }
        let ghost ob0 = self.outbound@;
        self.outbound.remove(i);
        self.events.push(Event::PublishDone { mid });
        proof {
            let a = delivery_mids(ob0);
            let b = pending_sub_mids(self.pending_subs@);
            let c = pending_unsub_mids(self.pending_unsubs@);
            lemma_mids_ok_remove(a, b, c, i as int);
            assert(delivery_mids(self.outbound@) =~= a.remove(i as int));
            assert(in_flight_mids(*self) =~= a.remove(i as int) + b + c);
        }
    }

    /// Takes a PUBACK: completes the QoS 1 delivery carrying `mid`.
    pub fn handle_puback(&mut self, mid: u16)
        requires
            old(self).wf(),
        ensures
            final(self).wf(),
            resolve_post(*old(self), *final(self), mid, DeliveryStage::AwaitPuback),
    {
        self.resolve_delivery(mid, DeliveryStage::AwaitPuback)
    }

    /// Takes a PUBCOMP: completes the QoS 2 delivery carrying `mid`.
    pub fn handle_pubcomp(&mut self, mid: u16)
        requires
            old(self).wf(),
        ensures
            final(self).wf(),
            resolve_post(*old(self), *final(self), mid, DeliveryStage::AwaitPubcomp),
    {
        self.resolve_delivery(mid, DeliveryStage::AwaitPubcomp)
    }

    /// Takes a PUBREC: advances the QoS 2 delivery carrying `mid` to its
    /// release step, rearms its retry timer, and queues the PUBREL.
    pub fn handle_pubrec(&mut self, mid: u16, now: u64)
        requires
            old(self).wf(),
        ensures
            final(self).wf(),
            pubrec_post(*old(self), *final(self), mid, now),
    {
        let i = match self.find_delivery(mid) {
            Some(i) => i,
            None => {
                return ;
            },
        };
        if self.outbound[i].stage != DeliveryStage::AwaitPubrec {
            return ;
        }
        let deadline = sat_add(now, self.retry_interval);
        let ghost ob0 = self.outbound@;
        let o = self.outbound.remove(i);
        self.outbound.insert(
            i,
            Delivery {
                mid: o.mid,
                qos: o.qos,
                stage: DeliveryStage::AwaitPubcomp,
                topic: o.topic,
                payload: o.payload,
                retain: o.retain,
                deadline,
                retries: 0,
            },
        );
        let rel = Packet::Pubrel(
            AckPacket { packet_id: mid, reason: 0, properties: PropertyList::new() },
        );
        proof {
            assert(mid != 0) by {
                assert(in_flight_mids(*old(self))[i as int] == mid);
            }
            assert(rel@->Pubrel_0.properties =~= Seq::<crate::properties::PropertyV>::empty());
            lemma_engine_ack_wf(rel@->Pubrel_0, self.version, crate::types::PacketKind::Pubrel);
        }
        let ghost q0 = self.out_queue@;
        self.out_queue.push(rel);
        self.last_send = now;
        proof {
            assert(self.outbound@ =~= ob0.update(i as int, self.outbound@[i as int]));
            assert(delivery_mids(self.outbound@) =~= delivery_mids(ob0));
            assert(in_flight_mids(*self) =~= in_flight_mids(*old(self)));
            assert(self.out_queue@.take(q0.len() as int) =~= q0);
        }
    }

    /// Takes a PUBREL: releases the inbound QoS 2 identifier, ending the
    /// window in which duplicates of that PUBLISH are suppressed, and
    /// queues the PUBCOMP. A PUBREL for an unknown identifier is still
    /// answered, as the broker may be retrying a completed exchange; a
    /// zero identifier is ignored.
    pub fn handle_pubrel(&mut self, mid: u16, now: u64)
        requires
            old(self).wf(),
        ensures
            final(self).wf(),
            pubrel_post(*old(self), *final(self), mid, now),
    {
        if mid == 0 {
            return ;
        }
        let ghost ib0 = self.inbound_qos2@;
        let mut found: Option<usize> = None;
        let mut i: usize = 0;
        while i < self.inbound_qos2.len()
            invariant
                i <= self.inbound_qos2@.len(),
                self.inbound_qos2@ == ib0,
                match found {
                    Some(k) => k < ib0.len() && ib0[k as int] == mid,
                    None => forall|j: int| 0 <= j < i ==> ib0[j] != mid,
                },
            decreases self.inbound_qos2@.len() - i,
        {
            if matches!(found, None) && self.inbound_qos2[i] == mid {
                found = Some(i);
            }
            i = i + 1;
        }
        match found {
            Some(k) => {
                self.inbound_qos2.remove(k);
                proof {
                    let w = u16_idx(ib0, mid);
                    assert(ib0.contains(mid)) by {
                        assert(ib0[k as int] == mid);
                    }
                    assert(ib0[w] == mid);
                    assert(w == k as int);
                }
            },
            None => {
                proof {
                    if ib0.contains(mid) {
                        let w = choose|w: int| 0 <= w < ib0.len() && ib0[w] == mid;
                        assert(false);
                    }
                }
            },
        }
        let comp = Packet::Pubcomp(
            AckPacket { packet_id: mid, reason: 0, properties: PropertyList::new() },
        );
        proof {
            assert(comp@->Pubcomp_0.properties =~= Seq::<crate::properties::PropertyV>::empty());
            lemma_engine_ack_wf(comp@->Pubcomp_0, self.version, crate::types::PacketKind::Pubcomp);
        }
        let ghost q0 = self.out_queue@;
        self.out_queue.push(comp);
        self.last_send = now;
        proof {
            assert(self.out_queue@.take(q0.len() as int) =~= q0);
        }
    }

    /// Takes a SUBACK: retires the pending subscribe carrying `mid`,
    /// records the first code as the granted level of the subscription
    /// that request created, and reports the full code list. Ignored for
    /// unknown identifiers or an empty code list.
    pub fn handle_suback(&mut self, mid: u16, codes: Vec<u8>)
        requires
            old(self).wf(),
        ensures
            final(self).wf(),
            suback_post(*old(self), *final(self), mid, codes),
    {
        if codes.len() == 0 {
            return ;
        }
        let ghost ps0 = self.pending_subs@;
        let mut found: Option<usize> = None;
        let mut i: usize = 0;
        while i < self.pending_subs.len()
            invariant
                i <= self.pending_subs@.len(),
                self.pending_subs@ == ps0,
                match found {
                    Some(k) => k < ps0.len() && ps0[k as int].mid == mid,
                    None => forall|j: int| 0 <= j < i ==> (#[trigger] ps0[j]).mid != mid,
                },
            decreases self.pending_subs@.len() - i,
        {
            if matches!(found, None) && self.pending_subs[i].mid == mid {
                found = Some(i);
            }
            i = i + 1;
        }
        let k = match found {
            Some(k) => k,
            None => {
                proof {
                    if has_pending_sub(ps0, mid) {
                        let w = choose|w: int| 0 <= w < ps0.len() && (#[trigger] ps0[w]).mid == mid;
                        assert(false);
                    }
                }
                return ;
            },
        };
        proof {
            let w = pending_sub_idx(ps0, mid);
            assert(has_pending_sub(ps0, mid)) by {
                assert(ps0[k as int].mid == mid);
            }
            assert(ps0[w].mid == mid);
            assert(w == k as int) by {
                if w != k as int {
                    let all = in_flight_mids(*old(self));
                    let dn = old(self).outbound@.len() as int;
                    assert(all[dn + w] == mid && all[dn + k as int] == mid);
                }
            }
        }
        let entry = self.pending_subs.remove(k);
        let si = entry.sub_index;
        assert(si < self.subscriptions@.len()) by {
            assert(ps0[k as int].sub_index < old(self).subscriptions@.len());
        }
        let ghost sub0 = self.subscriptions@;
        let o = self.subscriptions.remove(si);
        let c0 = codes[0];
        self.subscriptions.insert(
            si,
            Subscription {
                filter: o.filter,
                requested_qos: o.requested_qos,
                granted: Some(c0),
                active: o.active,
            },
        );
        self.events.push(Event::SubscribeDone { mid, codes });
        proof {
            assert(self.subscriptions@ =~= sub0.update(si as int, self.subscriptions@[si as int]));
            let a = delivery_mids(self.outbound@);
            let b = pending_sub_mids(ps0);
            let c = pending_unsub_mids(self.pending_unsubs@);
            lemma_mids_ok_remove(a, b, c, k as int);
            assert(pending_sub_mids(self.pending_subs@) =~= b.remove(k as int));
            assert(in_flight_mids(*self) =~= a + b.remove(k as int) + c);
        }
    }

    /// Takes an UNSUBACK: retires the pending unsubscribe carrying `mid`
    /// and deactivates every subscription whose filter it named. Ignored
    /// for unknown identifiers.
    pub fn handle_unsuback(&mut self, mid: u16)
        requires
            old(self).wf(),
        ensures
            final(self).wf(),
            unsuback_post(*old(self), *final(self), mid),
    {
        let ghost pu0 = self.pending_unsubs@;
        let mut found: Option<usize> = None;
        let mut i: usize = 0;
        while i < self.pending_unsubs.len()
            invariant
                i <= self.pending_unsubs@.len(),
                self.pending_unsubs@ == pu0,
                match found {
                    Some(k) => k < pu0.len() && pu0[k as int].mid == mid,
                    None => forall|j: int| 0 <= j < i ==> (#[trigger] pu0[j]).mid != mid,
                },
            decreases self.pending_unsubs@.len() - i,
        {
            if matches!(found, None) && self.pending_unsubs[i].mid == mid {
                found = Some(i);
            }
            i = i + 1;
        }
        let k = match found {
            Some(k) => k,
            None => {
                proof {
                    if has_pending_unsub(pu0, mid) {
                        let w = choose|w: int| 0 <= w < pu0.len() && (#[trigger] pu0[w]).mid == mid;
                        assert(false);
                    }
                }
                return ;
            },
        };
        proof {
            let w = pending_unsub_idx(pu0, mid);
            assert(has_pending_unsub(pu0, mid)) by {
                assert(pu0[k as int].mid == mid);
            }
            assert(pu0[w].mid == mid);
            assert(w == k as int) by {
                if w != k as int {
                    let all = in_flight_mids(*old(self));
                    let dn = old(self).outbound@.len() as int;
                    let sn = old(self).pending_subs@.len() as int;
                    assert(all[dn + sn + w] == mid && all[dn + sn + k as int] == mid);
                }
            }
        }
        let entry = self.pending_unsubs.remove(k);
        let ghost sub0 = self.subscriptions@;
        let mut j: usize = 0;
        while j < self.subscriptions.len()
            invariant
                j <= self.subscriptions@.len(),
                *self == (Session {
                    pending_unsubs: self.pending_unsubs,
                    subscriptions: self.subscriptions,
                    ..*old(self)
                }),
                self.pending_unsubs@ == pu0.remove(k as int),
                self.subscriptions@.len() == sub0.len(),
                forall|l: int|
                    0 <= l < j ==> ({
                        let o = #[trigger] sub0[l];
                        self.subscriptions@[l] == Subscription {
                            filter: o.filter,
                            requested_qos: o.requested_qos,
                            granted: o.granted,
                            active: o.active && o.filter@ != entry.filter@,
                        }
                    }),
                forall|l: int| j <= l < sub0.len() ==> self.subscriptions@[l] == sub0[l],
            decreases self.subscriptions@.len() - j,
        {
            let ghost scur = self.subscriptions@;
            let matches_filter = bytes_eq(&self.subscriptions[j].filter, &entry.filter);
            if matches_filter && self.subscriptions[j].active {
                let o = self.subscriptions.remove(j);
                self.subscriptions.insert(
                    j,
                    Subscription {
                        filter: o.filter,
                        requested_qos: o.requested_qos,
                        granted: o.granted,
                        active: false,
                    },
                );
                proof {
                    assert(self.subscriptions@ =~= scur.update(
                        j as int,
                        self.subscriptions@[j as int],
                    ));
                }
            }
            j = j + 1;
        }
        self.events.push(Event::UnsubscribeDone { mid });
        proof {
            let a = delivery_mids(self.outbound@);
            let b = pending_sub_mids(self.pending_subs@);
            let c = pending_unsub_mids(pu0);
            lemma_mids_ok_remove(a, b, c, k as int);
            assert(pending_unsub_mids(self.pending_unsubs@) =~= c.remove(k as int));
            assert(in_flight_mids(*self) =~= a + b + c.remove(k as int));
        }
    }

    /// Takes a PINGRESP: the broker is alive, the outstanding ping is
    /// answered.
    pub fn handle_pingresp(&mut self)
        requires
            old(self).wf(),
        ensures
            final(self).wf(),
            *final(self) == (Session { ping_outstanding: false, ..*old(self) }),
    {
        self.ping_outstanding = false;
    }

    /// Takes a DISCONNECT from the broker: the session ends, pending
    /// requests are abandoned, and — on a clean session — the in-flight
    /// deliveries too. Ignored when already disconnected.
    pub fn handle_server_disconnect(&mut self)
        requires
            old(self).wf(),
        ensures
            final(self).wf(),
            old(self).state == SessionState::Disconnected ==> *final(self) == *old(self),
            old(self).state != SessionState::Disconnected ==> teardown_post(
                *old(self),
                *final(self),
                ClientError::Disconnected,
            ),
    {
        self.transport_failed(ClientError::Disconnected);
    }

    /// Routes one decoded packet to its handler; each arm's outcome is the
    /// handler's own postcondition. Packets a broker never sends to a
    /// client — CONNECT, SUBSCRIBE, UNSUBSCRIBE, PINGREQ — leave the
    /// session unchanged.
    #[verifier::spinoff_prover]
    #[verifier::rlimit(100)]
    pub fn handle_packet(&mut self, p: Packet, now: u64)
        requires
            old(self).wf(),
        ensures
            final(self).wf(),
            match p {
                Packet::Connack(c) => connack_post(
                    *old(self),
                    *final(self),
                    c.session_present,
                    c.code,
                ),
                Packet::Publish(pp) => publish_post(*old(self), *final(self), pp, now),
                Packet::Puback(a) => resolve_post(
                    *old(self),
                    *final(self),
                    a.packet_id,
                    DeliveryStage::AwaitPuback,
                ),
                Packet::Pubrec(a) => pubrec_post(*old(self), *final(self), a.packet_id, now),
                Packet::Pubrel(a) => pubrel_post(*old(self), *final(self), a.packet_id, now),
                Packet::Pubcomp(a) => resolve_post(
                    *old(self),
                    *final(self),
                    a.packet_id,
                    DeliveryStage::AwaitPubcomp,
                ),
                Packet::Suback(s) => suback_post(*old(self), *final(self), s.packet_id, s.codes),
                Packet::Unsuback(u) => unsuback_post(*old(self), *final(self), u.packet_id),
                Packet::Pingresp => *final(self) == (Session {
                    ping_outstanding: false,
                    ..*old(self)
                }),
                Packet::Disconnect(_) => ({
                    &&& (old(self).state == SessionState::Disconnected ==> *final(self) == *old(
                        self,
                    ))
                    &&& (old(self).state != SessionState::Disconnected ==> teardown_post(
                        *old(self),
                        *final(self),
                        ClientError::Disconnected,
                    ))
                }),
                Packet::Pingreq => *final(self) == *old(self),
                Packet::Connect(_) => *final(self) == *old(self),
                Packet::Subscribe(_) => *final(self) == *old(self),
                Packet::Unsubscribe(_) => *final(self) == *old(self),
            },
    {
        match p {
            Packet::Connack(c) => self.handle_connack(c.session_present, c.code),
            Packet::Publish(pp) => self.handle_publish(pp, now),
            Packet::Puback(a) => self.handle_puback(a.packet_id),
            Packet::Pubrec(a) => self.handle_pubrec(a.packet_id, now),
            Packet::Pubrel(a) => self.handle_pubrel(a.packet_id, now),
            Packet::Pubcomp(a) => self.handle_pubcomp(a.packet_id),
            Packet::Suback(s) => self.handle_suback(s.packet_id, s.codes),
            Packet::Unsuback(u) => self.handle_unsuback(u.packet_id),
            Packet::Pingresp => self.handle_pingresp(),
            Packet::Disconnect(_) => self.handle_server_disconnect(),
            Packet::Pingreq => {},
            Packet::Connect(_) => {},
            Packet::Subscribe(_) => {},
            Packet::Unsubscribe(_) => {},
        }
    }

    /// Drives the keepalive machinery. While connected with a non-zero
    /// interval, a PINGREQ is queued as soon as the interval has passed
    /// since the last send; an unanswered PINGREQ past its window is a
    /// fatal timeout that tears the session down. While connecting, a
    /// CONNACK that fails to arrive by the connect deadline ends the
    /// attempt.
    pub fn poll_keepalive(&mut self, now: u64)
        requires
            old(self).wf(),
        ensures
            final(self).wf(),
            old(self).state == SessionState::Connecting && now < old(self).connect_deadline
                ==> *final(self) == *old(self),
            old(self).state == SessionState::Connecting && now >= old(self).connect_deadline
                ==> teardown_post(*old(self), *final(self), ClientError::SocketError),
            old(self).state == SessionState::Connected && old(self).keepalive > 0 && !old(
                self,
            ).ping_outstanding && now >= sat_add_spec(
                old(self).last_send,
                (old(self).keepalive as u64 * 1000) as u64,
            ) ==> ({
                &&& *final(self) == (Session {
                    out_queue: final(self).out_queue,
                    last_send: now,
                    ping_outstanding: true,
                    ping_deadline: sat_add_spec(now, (old(self).keepalive as u64 * 1000) as u64),
                    ..*old(self)
                })
                &&& final(self).out_queue@ == old(self).out_queue@.push(Packet::Pingreq)
            }),
            old(self).state == SessionState::Connected && old(self).keepalive > 0 && !old(
                self,
            ).ping_outstanding && now < sat_add_spec(
                old(self).last_send,
                (old(self).keepalive as u64 * 1000) as u64,
            ) ==> *final(self) == *old(self),
            old(self).state == SessionState::Connected && old(self).keepalive > 0 && old(
                self,
            ).ping_outstanding && now >= old(self).ping_deadline ==> teardown_post(
                *old(self),
                *final(self),
                ClientError::SocketError,
            ),
            old(self).state == SessionState::Connected && old(self).keepalive > 0 && old(
                self,
            ).ping_outstanding && now < old(self).ping_deadline ==> *final(self) == *old(self),
            old(self).state == SessionState::Connected && old(self).keepalive == 0 ==> *final(self)
                == *old(self),
            (old(self).state == SessionState::Disconnected || old(self).state
                == SessionState::Disconnecting) ==> *final(self) == *old(self),
    {
        match self.state {
            SessionState::Connecting => {
                if now >= self.connect_deadline {
                    self.transport_failed(ClientError::SocketError);
                }
            },
            SessionState::Connected => {
                if self.keepalive == 0 {
                    return ;
                }
                let window = (self.keepalive as u64) * 1000;
                if self.ping_outstanding {
                    if now >= self.ping_deadline {
                        self.transport_failed(ClientError::SocketError);
                    }
                } else {
                    if now >= sat_add(self.last_send, window) {
                        proof {
                            assert(Packet::Pingreq@.wf(self.version));
                        }
                        self.out_queue.push(Packet::Pingreq);
                        self.last_send = now;
                        self.ping_outstanding = true;
                        self.ping_deadline = sat_add(now, window);
                    }
                }
            },
            _ => {},
        }
    }

    /// Drives the per-delivery retry timers: every delivery past its
    /// deadline is resent with the DUP flag — the same PUBLISH, or the
    /// PUBREL of its release step — under the same identifier, until its
    /// retry budget is spent; then it is abandoned and reported failed.
    #[verifier::rlimit(100)]
    pub fn poll_retries(&mut self, now: u64)
        requires
            old(self).wf(),
        ensures
            final(self).wf(),
            *final(self) == (Session {
                outbound: final(self).outbound,
                out_queue: final(self).out_queue,
                events: final(self).events,
                ..*old(self)
            }),
            final(self).outbound@ == retry_sweep(
                old(self).outbound@,
                now,
                old(self).retry_limit,
                old(self).retry_interval,
            ),
            final(self).events@ == old(self).events@ + retry_failures(
                old(self).outbound@,
                now,
                old(self).retry_limit,
            ),
            final(self).out_queue@.take(old(self).out_queue@.len() as int) == old(
                self,
            ).out_queue@,
            final(self).out_queue@.len() == old(self).out_queue@.len() + retry_resend_sources(
                old(self).outbound@,
                now,
                old(self).retry_limit,
            ).len(),
            forall|j: int|
                0 <= j < retry_resend_sources(old(self).outbound@, now, old(self).retry_limit).len()
                    ==> resend_matches(
                    #[trigger] final(self).out_queue@[old(self).out_queue@.len() + j],
                    retry_resend_sources(old(self).outbound@, now, old(self).retry_limit)[j],
                ),
    {
        let limit = self.retry_limit;
        let interval = self.retry_interval;
        let ghost ob0 = self.outbound@;
        let ghost q0 = self.out_queue@;
        let ghost ev0 = self.events@;
        let mut kept: Vec<Delivery> = Vec::new();
        let mut old_deliveries: Vec<Delivery> = Vec::new();
        core::mem::swap(&mut old_deliveries, &mut self.outbound);
        proof {
            assert(ob0.take(0) =~= Seq::<Delivery>::empty());
            assert(retry_sweep(Seq::<Delivery>::empty(), now, limit, interval) =~= Seq::<
                Delivery,
            >::empty());
            assert(retry_failures(Seq::<Delivery>::empty(), now, limit) =~= Seq::<Event>::empty());
            assert(kept@ =~= retry_sweep(ob0.take(0), now, limit, interval));
            assert(self.events@ =~= ev0 + retry_failures(ob0.take(0), now, limit));
        }
        let ghost i: int = 0;
        while old_deliveries.len() > 0
            invariant
                old(self).wf(),
                ob0 == old(self).outbound@,
                q0 == old(self).out_queue@,
                ev0 == old(self).events@,
                limit == old(self).retry_limit,
                interval == old(self).retry_interval,
                0 <= i <= ob0.len(),
                old_deliveries@ == ob0.skip(i),
                self.outbound@.len() == 0,
                *self == (Session {
                    outbound: self.outbound,
                    out_queue: self.out_queue,
                    events: self.events,
                    ..*old(self)
                }),
                kept@ == retry_sweep(ob0.take(i), now, limit, interval),
                self.events@ == ev0 + retry_failures(ob0.take(i), now, limit),
                self.out_queue@.take(q0.len() as int) == q0,
                self.out_queue@.len() == q0.len() + retry_resend_sources(
                    ob0.take(i),
                    now,
                    limit,
                ).len(),
                forall|j: int|
                    0 <= j < retry_resend_sources(ob0.take(i), now, limit).len()
                        ==> resend_matches(
                        #[trigger] self.out_queue@[q0.len() + j],
                        retry_resend_sources(ob0.take(i), now, limit)[j],
                    ),
                queue_wf(self.out_queue@, old(self).version),
            decreases old_deliveries@.len(),
        {
            proof {
                assert(ob0.take(i + 1) =~= ob0.take(i).push(ob0[i]));
                lemma_retry_sweep_push(ob0.take(i), ob0[i], now, limit, interval);
                assert(ob0.skip(i)[0] == ob0[i]);
                assert(ob0.skip(i).remove(0) =~= ob0.skip(i + 1));
                assert(valid_topic_spec(ob0[i].topic@) && utf8_ok(ob0[i].topic@)
                    && ob0[i].payload@.len() <= MAX_PAYLOAD && (ob0[i].qos == QoS::AtLeastOnce
                    || ob0[i].qos == QoS::ExactlyOnce));
            }
            let d = old_deliveries.remove(0);
            assert(d == ob0[i]);
            if now < d.deadline {
                kept.push(d);
                proof {
                    assert(kept@ =~= retry_sweep(ob0.take(i), now, limit, interval) + seq![
                        ob0[i],
                    ]);
                }
            } else if d.retries < limit {
                let resend: Packet = if matches!(d.stage, DeliveryStage::AwaitPubcomp) {
                    let rel = Packet::Pubrel(
                        AckPacket { packet_id: d.mid, reason: 0, properties: PropertyList::new() },
                    );
                    proof {
                        assert(in_flight_mids(*old(self))[i] == ob0[i].mid);
                        assert(rel@->Pubrel_0.properties =~= Seq::<
                            crate::properties::PropertyV,
                        >::empty());
                        lemma_engine_ack_wf(
                            rel@->Pubrel_0,
                            self.version,
                            crate::types::PacketKind::Pubrel,
                        );
                    }
                    rel
                } else {
                    let pp = Packet::Publish(
                        PublishPacket {
                            topic: crate::wire::slice_to_vec_u8(d.topic.as_slice()),
                            payload: crate::wire::slice_to_vec_u8(d.payload.as_slice()),
                            qos: d.qos,
                            retain: d.retain,
                            dup: true,
                            packet_id: Some(d.mid),
                            properties: PropertyList::new(),
                        },
                    );
                    proof {
                        assert(in_flight_mids(*old(self))[i] == ob0[i].mid);
                        assert(pp@->Publish_0.properties =~= Seq::<
                            crate::properties::PropertyV,
                        >::empty());
                        lemma_engine_publish_wf(pp@->Publish_0, self.version);
                    }
                    pp
                };
                proof {
                    assert(resend_matches(resend, ob0[i])) by {
                        if ob0[i].stage == DeliveryStage::AwaitPubcomp {
                            assert(resend@->Pubrel_0.properties.len() == 0);
                        } else {
                            assert(resend@->Publish_0.properties.len() == 0);
                        }
                    }
                }
                let ghost qpre = self.out_queue@;
                self.out_queue.push(resend);
                proof {
                    assert(self.out_queue@.take(q0.len() as int) =~= q0);
                    assert(self.out_queue@[qpre.len() as int] == resend);
                    assert(forall|k: int| 0 <= k < qpre.len() ==> self.out_queue@[k] == qpre[k]);
                }
                let nd = Delivery {
                    mid: d.mid,
                    qos: d.qos,
                    stage: d.stage,
                    topic: d.topic,
                    payload: d.payload,
                    retain: d.retain,
                    deadline: sat_add(now, interval),
                    retries: d.retries + 1,
                };
                kept.push(nd);
                proof {
                    assert(retry_step(ob0[i], now, limit, interval) == Some(nd));
                    assert(kept@ =~= retry_sweep(ob0.take(i), now, limit, interval) + seq![nd]);
                }
            } else {
                self.events.push(
                    Event::PublishFailed { mid: d.mid, reason: ClientError::DeliveryFailed },
                );
                proof {
                    assert(self.events@ =~= ev0 + retry_failures(ob0.take(i + 1), now, limit));
                    assert(kept@ =~= retry_sweep(ob0.take(i + 1), now, limit, interval));
                }
            }
            proof {
                i = i + 1;
            }
        }
        proof {
            assert(i == ob0.len());
            assert(ob0.take(ob0.len() as int) =~= ob0);
        }

        core::mem::swap(&mut kept, &mut self.outbound);
        proof {
            lemma_poll_retries_wf(*old(self), *self, now);
        }
    }
}

/// After a retry sweep the session invariant still holds: surviving
/// deliveries keep their identity fields and their identifiers remain a
/// distinct subset of the reserved set.
#[verifier::spinoff_prover]
#[verifier::rlimit(100)]
proof fn lemma_poll_retries_wf(pre: Session, post: Session, now: u64)
    requires
        pre.wf(),
        post == (Session {
            outbound: post.outbound,
            out_queue: post.out_queue,
            events: post.events,
            ..pre
        }),
        post.outbound@ == retry_sweep(pre.outbound@, now, pre.retry_limit, pre.retry_interval),
        queue_wf(post.out_queue@, pre.version),
    ensures
        post.wf(),
{
    let ob0 = pre.outbound@;
    let limit = pre.retry_limit;
    let interval = pre.retry_interval;
    let sw = retry_sweep(ob0, now, limit, interval);
    let a0 = delivery_mids(ob0);
    let b = pending_sub_mids(post.pending_subs@);
    let c = pending_unsub_mids(post.pending_unsubs@);
    assert(forall|x: int, y: int| 0 <= x < y < ob0.len() ==> ob0[x].mid != ob0[y].mid) by {
        assert(forall|x: int|
            0 <= x < ob0.len() ==> in_flight_mids(pre)[x] == (#[trigger] ob0[x]).mid);
    }
    lemma_retry_sweep_fields(ob0, now, limit, interval);
    assert forall|m: u16| delivery_mids(sw).contains(m) implies a0.contains(m) by {
        lemma_retry_sweep_contains(ob0, now, limit, interval, m);
    }
    assert(forall|x: int, y: int|
        0 <= x < y < delivery_mids(sw).len() ==> delivery_mids(sw)[x] != delivery_mids(sw)[y]) by {
        assert(forall|x: int| 0 <= x < sw.len() ==> delivery_mids(sw)[x] == (#[trigger] sw[x]).mid);
    }
    lemma_mids_ok_shrink(delivery_mids(sw), a0, b, c);
    assert(in_flight_mids(post) =~= delivery_mids(sw) + b + c);
    assert forall|x: int| 0 <= x < post.outbound@.len() implies valid_topic_spec(
        (#[trigger] post.outbound@[x]).topic@,
    ) && utf8_ok(post.outbound@[x].topic@) && post.outbound@[x].payload@.len() <= MAX_PAYLOAD && (
    post.outbound@[x].qos == QoS::AtLeastOnce || post.outbound@[x].qos == QoS::ExactlyOnce) && (
    post.outbound@[x].stage == DeliveryStage::AwaitPuback <==> post.outbound@[x].qos
        == QoS::AtLeastOnce) by {
        let j = choose|j: int|
            0 <= j < ob0.len() && ({
                let nd = sw[x];
                let o = #[trigger] ob0[j];
                nd.mid == o.mid && nd.qos == o.qos && nd.stage == o.stage && nd.topic == o.topic
                    && nd.payload == o.payload && nd.retain == o.retain
            });
    }
}

/// Whether the byte slice holds a NUL byte, which MQTT forbids inside
/// its UTF-8 encoded strings.
fn contains_nul(b: &[u8]) -> (r: bool)
    ensures
        r == b@.contains(0u8),
{
    let mut i: usize = 0;
    while i < b.len()
        invariant
            i <= b@.len(),
            forall|j: int| 0 <= j < i ==> b@[j] != 0,
        decreases b@.len() - i,
    {
        if b[i] == 0 {
            assert(b@.contains(0u8)) by {
                assert(b@[i as int] == 0);
            }
            return true;
        }
        i = i + 1;
    }
    proof {
        if b@.contains(0u8) {
            let w = choose|w: int| 0 <= w < b@.len() && b@[w] == 0;
            assert(false);
        }
    }
    false
}

/// Byte-wise equality of two byte vectors.
fn bytes_eq(a: &Vec<u8>, b: &Vec<u8>) -> (r: bool)
    ensures
        r == (a@ == b@),
{
    if a.len() != b.len() {
        return false;
    }
    let mut i: usize = 0;
    while i < a.len()
        invariant
            i <= a@.len(),
            a@.len() == b@.len(),
            forall|j: int| 0 <= j < i ==> a@[j] == b@[j],
        decreases a@.len() - i,
    {
        if a[i] != b[i] {
            return false;
        }
        i = i + 1;
    }
    proof {
        assert(a@ =~= b@);
    }
    true
}



/// Identifiers of concurrently in-flight deliveries and requests are
/// pairwise distinct and never zero: the session invariant keeps every
/// reserved identifier unique until its handshake resolves.
pub proof fn lemma_in_flight_mids_distinct(s: &Session)
    requires
        s.wf(),
    ensures
        forall|i: int, j: int|
            0 <= i < j < in_flight_mids(*s).len() ==> in_flight_mids(*s)[i] != in_flight_mids(
                *s,
            )[j],
        forall|i: int| 0 <= i < in_flight_mids(*s).len() ==> in_flight_mids(*s)[i] != 0,
{
}

/// An inbound QoS 2 PUBLISH delivered twice under one identifier before
/// the PUBREL completes surfaces exactly one message: the second step of
/// the deduplication filter never emits, and the first emits whenever the
/// identifier is new.
pub proof fn lemma_qos2_exactly_once(inbound: Seq<u16>, m: u16)
    ensures
        !(qos2_dedup_step(inbound, m).0, qos2_dedup_step(qos2_dedup_step(inbound, m).0, m).1).1,
        !inbound.contains(m) ==> qos2_dedup_step(inbound, m).1,
        qos2_dedup_step(qos2_dedup_step(inbound, m).0, m).0 == qos2_dedup_step(inbound, m).0,
{
    let i1 = qos2_dedup_step(inbound, m).0;
    assert(i1.contains(m)) by {
        if !inbound.contains(m) {
            assert(i1 == inbound.push(m));
            assert(i1[inbound.len() as int] == m);
        }
    }
}



/// `a + b`, stopping at the largest representable time.
pub fn sat_add(a: u64, b: u64) -> (r: u64)
    ensures
        r == sat_add_spec(a, b),
{
    if a > u64::MAX - b {
        u64::MAX
    } else {
        a + b
    }
}

/// Saturating addition on timestamps.
pub open spec fn sat_add_spec(a: u64, b: u64) -> u64 {
    if a + b > u64::MAX {
        u64::MAX
    } else {
        (a + b) as u64
    }
}

/// A fresh copy of a stored will, with its empty property list.
fn copy_will(w: &Will) -> (r: Will)
    requires
        w.properties@.len() == 0,
    ensures
        r.topic@ == w.topic@,
        r.payload@ == w.payload@,
        r.qos == w.qos,
        r.retain == w.retain,
        r.properties@.len() == 0,
        r.properties@ == w.properties@,
{
    let r = Will {
        topic: crate::wire::slice_to_vec_u8(w.topic.as_slice()),
        payload: crate::wire::slice_to_vec_u8(w.payload.as_slice()),
        qos: w.qos,
        retain: w.retain,
        properties: PropertyList::new(),
    };
    proof {
        assert(r.properties@ =~= w.properties@);
    }
    r
}

/// A fresh copy of an optional stored byte string.
fn copy_opt_bytes(o: &Option<Vec<u8>>) -> (r: Option<Vec<u8>>)
    ensures
        match (o, &r) {
            (Some(a), Some(b)) => a@ == b@,
            (None, None) => true,
            _ => false,
        },
{
    match o {
        Some(b) => Some(crate::wire::slice_to_vec_u8(b.as_slice())),
        None => None,
    }
}

/// Inserting a fresh, non-zero identifier at the end of any of the three
/// segments keeps the reserved identifiers non-zero and distinct.
proof fn lemma_mids_ok_insert(a: Seq<u16>, b: Seq<u16>, c: Seq<u16>, x: u16)
    requires
        mids_ok(a + b + c),
        x != 0,
        !(a + b + c).contains(x),
    ensures
        mids_ok(a.push(x) + b + c),
        mids_ok(a + b.push(x) + c),
        mids_ok(a + b + c.push(x)),
{
    let o = a + b + c;
    let an = a.len() as int;
    let bn = b.len() as int;
    let cn = c.len() as int;
    assert(forall|i: int| 0 <= i < o.len() ==> o[i] != x) by {
        assert(forall|i: int| 0 <= i < o.len() && o[i] == x ==> o.contains(x));
    }
    let s1 = a.push(x) + b + c;
    assert(forall|i: int| 0 <= i < an ==> s1[i] == o[i]);
    assert(s1[an] == x);
    assert(forall|i: int| an < i < s1.len() ==> s1[i] == o[i - 1]);
    assert(mids_ok(s1));
    let s2 = a + b.push(x) + c;
    assert(forall|i: int| 0 <= i < an + bn ==> s2[i] == o[i]);
    assert(s2[an + bn] == x);
    assert(forall|i: int| an + bn < i < s2.len() ==> s2[i] == o[i - 1]);
    assert(mids_ok(s2));
    let s3 = a + b + c.push(x);
    assert(forall|i: int| 0 <= i < an + bn + cn ==> s3[i] == o[i]);
    assert(s3[an + bn + cn] == x);
    assert(mids_ok(s3));
}

/// Removing one element from any of the three segments keeps the reserved
/// identifiers non-zero and distinct.
proof fn lemma_mids_ok_remove(a: Seq<u16>, b: Seq<u16>, c: Seq<u16>, k: int)
    requires
        mids_ok(a + b + c),
    ensures
        0 <= k < a.len() ==> mids_ok(a.remove(k) + b + c),
        0 <= k < b.len() ==> mids_ok(a + b.remove(k) + c),
        0 <= k < c.len() ==> mids_ok(a + b + c.remove(k)),
{
    let o = a + b + c;
    let an = a.len() as int;
    let bn = b.len() as int;
    if 0 <= k < a.len() {
        let s = a.remove(k) + b + c;
        assert(forall|i: int| 0 <= i < k ==> s[i] == o[i]);
        assert(forall|i: int| k <= i < s.len() ==> s[i] == o[i + 1]);
        assert(mids_ok(s));
    }
    if 0 <= k < b.len() {
        let s = a + b.remove(k) + c;
        assert(forall|i: int| 0 <= i < an + k ==> s[i] == o[i]);
        assert(forall|i: int| an + k <= i < s.len() ==> s[i] == o[i + 1]);
        assert(mids_ok(s));
    }
    if 0 <= k < c.len() {
        let s = a + b + c.remove(k);
        assert(forall|i: int| 0 <= i < an + bn + k ==> s[i] == o[i]);
        assert(forall|i: int| an + bn + k <= i < s.len() ==> s[i] == o[i + 1]);
        assert(mids_ok(s));
    }
}

/// Clearing the second and third segments keeps the rest distinct.
proof fn lemma_mids_ok_segments(a: Seq<u16>, b: Seq<u16>, c: Seq<u16>)
    requires
        mids_ok(a + b + c),
    ensures
        mids_ok(a + Seq::<u16>::empty() + Seq::<u16>::empty()),
        mids_ok(Seq::<u16>::empty() + Seq::<u16>::empty() + Seq::<u16>::empty()),
        mids_ok(a),
    {
    let o = a + b + c;
    assert(forall|i: int| 0 <= i < a.len() ==> a[i] == o[i]);
    assert(mids_ok(a));
    assert(a + Seq::<u16>::empty() + Seq::<u16>::empty() =~= a);
    assert((Seq::<u16>::empty() + Seq::<u16>::empty() + Seq::<u16>::empty()).len() == 0);
}


/// What reserving a packet identifier does: `m` is non-zero and free, the
/// monotonic scan took the first free identifier at or after `next_mid` in
/// wrap order (every identifier between `next_mid` and `m`, wrapping at
/// 65535 and skipping zero, is still in flight), and the counter moves to
/// `m`'s successor.
pub open spec fn mid_scan_post(pre: Session, post: Session, m: u16) -> bool {
    &&& m != 0
    &&& !in_flight_mids(pre).contains(m)
    &&& (m >= pre.next_mid ==> forall|c: u16|
        pre.next_mid <= c < m ==> in_flight_mids(pre).contains(c))
    &&& (m < pre.next_mid ==> (forall|c: u16|
        pre.next_mid <= c ==> in_flight_mids(pre).contains(c)) && (forall|c: u16|
        1 <= c < m ==> in_flight_mids(pre).contains(c)))
    &&& post.next_mid == (if m == 65535 {
        1u16
    } else {
        (m + 1) as u16
    })
}

/// What a failure teardown does: the session lands in `Disconnected`,
/// pending subscribes and unsubscribes are abandoned with a `Disconnected`
/// outcome, a clean session drops its deliveries and its inbound QoS 2
/// filter while a persistent one keeps them for the next connect, and the
/// teardown reason is reported last.
pub open spec fn teardown_post(pre: Session, post: Session, reason: ClientError) -> bool {
    &&& post == (Session {
        state: post.state,
        events: post.events,
        outbound: post.outbound,
        pending_subs: post.pending_subs,
        pending_unsubs: post.pending_unsubs,
        inbound_qos2: post.inbound_qos2,
        ping_outstanding: post.ping_outstanding,
        ..pre
    })
    &&& post.state == SessionState::Disconnected
    &&& !post.ping_outstanding
    &&& post.events@ == pre.events@ + (if pre.clean_session {
        delivery_fail_events(pre.outbound@)
    } else {
        Seq::<Event>::empty()
    }) + sub_fail_events(pre.pending_subs@) + unsub_fail_events(pre.pending_unsubs@) + seq![
        Event::Disconnected { reason },
    ]
    &&& post.outbound@ == (if pre.clean_session {
        Seq::<Delivery>::empty()
    } else {
        pre.outbound@
    })
    &&& post.pending_subs@.len() == 0
    &&& post.pending_unsubs@.len() == 0
    &&& post.inbound_qos2@ == (if pre.clean_session {
        Seq::<u16>::empty()
    } else {
        pre.inbound_qos2@
    })
}

/// The delivery-abandoned events of a teardown, in delivery order.
pub open spec fn delivery_fail_events(ds: Seq<Delivery>) -> Seq<Event> {
    ds.map_values(
        |d: Delivery| Event::PublishFailed { mid: d.mid, reason: ClientError::Disconnected },
    )
}

/// The subscribe-abandoned events of a teardown, in request order.
pub open spec fn sub_fail_events(ps: Seq<PendingSub>) -> Seq<Event> {
    ps.map_values(
        |p: PendingSub| Event::RequestFailed { mid: p.mid, reason: ClientError::Disconnected },
    )
}

/// The unsubscribe-abandoned events of a teardown, in request order.
pub open spec fn unsub_fail_events(ps: Seq<PendingUnsub>) -> Seq<Event> {
    ps.map_values(
        |p: PendingUnsub| Event::RequestFailed { mid: p.mid, reason: ClientError::Disconnected },
    )
}

/// A CONNECT packet built from a session's stored configuration is well
/// formed and fits a remaining-length field.
proof fn lemma_connect_packet_wf(c: crate::codec::ConnectV, v: Version)
    requires
        c.client_id.len() <= 65535,
        utf8_ok(c.client_id),
        c.client_id.len() == 0 ==> c.clean_session,
        c.username matches Some(u) ==> u.len() <= 65535 && utf8_ok(u),
        c.password matches Some(p) ==> p.len() <= 65535,
        c.password is Some ==> c.username is Some,
        c.will matches Some(w) ==> valid_topic_spec(w.topic) && utf8_ok(w.topic) && w.payload.len()
            <= 65535 && w.properties.len() == 0,
        c.properties.len() == 0,
    ensures
        crate::codec::PacketV::Connect(c).wf(v),
{
    lemma_empty_prop_block_len(c.properties);
    match c.will {
        Some(w) => {
            lemma_empty_prop_block_len(w.properties);
            assert(crate::codec::enc_will(c.will, v).len() <= 131076);
        },
        None => {
            assert(crate::codec::enc_will(c.will, v).len() == 0);
        },
    }
    assert(crate::codec::enc_connect_body(c, v).len() <= VARINT_MAX);
}


/// What taking a CONNACK does: while connecting, the outcome event is
/// queued and code zero connects the session, anything else ends the
/// attempt; in any other state the packet is ignored.
pub open spec fn connack_post(pre: Session, post: Session, session_present: bool, code: u8) -> bool {
    &&& (pre.state != SessionState::Connecting ==> post == pre)
    &&& (pre.state == SessionState::Connecting ==> ({
        &&& post == (Session {
            state: post.state,
            events: post.events,
            ping_outstanding: false,
            ..pre
        })
        &&& post.events@ == pre.events@.push(Event::ConnackReceived { session_present, code })
        &&& post.state == (if code == 0 {
            SessionState::Connected
        } else {
            SessionState::Disconnected
        })
    }))
}

/// What taking an inbound PUBLISH does, by QoS: surface at once, surface
/// and acknowledge, or deduplicate against the inbound QoS 2 filter and
/// acknowledge with PUBREC either way. Ignored unless connected, or when
/// the identifier is missing or zero at QoS above zero.
pub open spec fn publish_post(pre: Session, post: Session, p: PublishPacket, now: u64) -> bool {
    &&& (pre.state != SessionState::Connected ==> post == pre)
    &&& (pre.state == SessionState::Connected && p.qos == QoS::AtMostOnce ==> ({
        &&& post == (Session { events: post.events, ..pre })
        &&& post.events@ == pre.events@.push(
            Event::Message {
                mid: 0,
                topic: p.topic,
                payload: p.payload,
                qos: p.qos,
                retain: p.retain,
            },
        )
    }))
    &&& (pre.state == SessionState::Connected && p.qos != QoS::AtMostOnce && (p.packet_id is None
        || p.packet_id == Some(0u16)) ==> post == pre)
    &&& (pre.state == SessionState::Connected && p.qos == QoS::AtLeastOnce && (
    p.packet_id matches Some(m) && m != 0) ==> ({
        let m = p.packet_id->0;
        &&& post == (Session {
            events: post.events,
            out_queue: post.out_queue,
            last_send: now,
            ..pre
        })
        &&& post.events@ == pre.events@.push(
            Event::Message {
                mid: m,
                topic: p.topic,
                payload: p.payload,
                qos: p.qos,
                retain: p.retain,
            },
        )
        &&& post.out_queue@.len() == pre.out_queue@.len() + 1
        &&& post.out_queue@.take(pre.out_queue@.len() as int) == pre.out_queue@
        &&& (post.out_queue@.last() matches Packet::Puback(a) && a.packet_id == m && a.reason == 0
            && a.properties@.len() == 0)
    }))
    &&& (pre.state == SessionState::Connected && p.qos == QoS::ExactlyOnce && (
    p.packet_id matches Some(m) && m != 0) ==> ({
        let m = p.packet_id->0;
        let step = qos2_dedup_step(pre.inbound_qos2@, m);
        &&& post == (Session {
            events: post.events,
            out_queue: post.out_queue,
            inbound_qos2: post.inbound_qos2,
            last_send: now,
            ..pre
        })
        &&& post.inbound_qos2@ == step.0
        &&& (step.1 ==> post.events@ == pre.events@.push(
            Event::Message {
                mid: m,
                topic: p.topic,
                payload: p.payload,
                qos: p.qos,
                retain: p.retain,
            },
        ))
        &&& (!step.1 ==> post.events@ == pre.events@)
        &&& post.out_queue@.len() == pre.out_queue@.len() + 1
        &&& post.out_queue@.take(pre.out_queue@.len() as int) == pre.out_queue@
        &&& (post.out_queue@.last() matches Packet::Pubrec(a) && a.packet_id == m && a.reason == 0
            && a.properties@.len() == 0)
    }))
}

/// What resolving an acknowledgement does: the delivery waiting at
/// `stage` under `mid` leaves the in-flight set and the publish is
/// reported done; unknown identifiers and stage mismatches are ignored.
pub open spec fn resolve_post(pre: Session, post: Session, mid: u16, stage: DeliveryStage) -> bool {
    &&& (!(has_delivery(pre.outbound@, mid) && pre.outbound@[delivery_idx(pre.outbound@, mid)].stage
        == stage) ==> post == pre)
    &&& ((has_delivery(pre.outbound@, mid) && pre.outbound@[delivery_idx(pre.outbound@, mid)].stage
        == stage) ==> ({
        &&& post == (Session { outbound: post.outbound, events: post.events, ..pre })
        &&& post.outbound@ == pre.outbound@.remove(delivery_idx(pre.outbound@, mid))
        &&& post.events@ == pre.events@.push(Event::PublishDone { mid })
    }))
}

/// What taking a PUBREC does: the QoS 2 delivery under `mid` advances to
/// its release step with a fresh retry budget and the PUBREL is queued;
/// otherwise the packet is ignored.
pub open spec fn pubrec_post(pre: Session, post: Session, mid: u16, now: u64) -> bool {
    &&& (!(has_delivery(pre.outbound@, mid) && pre.outbound@[delivery_idx(pre.outbound@, mid)].stage
        == DeliveryStage::AwaitPubrec) ==> post == pre)
    &&& ((has_delivery(pre.outbound@, mid) && pre.outbound@[delivery_idx(pre.outbound@, mid)].stage
        == DeliveryStage::AwaitPubrec) ==> ({
        let i = delivery_idx(pre.outbound@, mid);
        let o = pre.outbound@[i];
        &&& post == (Session {
            outbound: post.outbound,
            out_queue: post.out_queue,
            last_send: now,
            ..pre
        })
        &&& post.outbound@ == pre.outbound@.update(
            i,
            Delivery {
                mid: o.mid,
                qos: o.qos,
                stage: DeliveryStage::AwaitPubcomp,
                topic: o.topic,
                payload: o.payload,
                retain: o.retain,
                deadline: sat_add_spec(now, pre.retry_interval),
                retries: 0,
            },
        )
        &&& post.out_queue@.len() == pre.out_queue@.len() + 1
        &&& post.out_queue@.take(pre.out_queue@.len() as int) == pre.out_queue@
        &&& (post.out_queue@.last() matches Packet::Pubrel(a) && a.packet_id == mid && a.reason == 0
            && a.properties@.len() == 0)
    }))
}

/// What taking a PUBREL does: the inbound QoS 2 identifier is released and
/// the PUBCOMP queued — also for unknown identifiers, which may be the
/// broker retrying a completed exchange; a zero identifier is ignored.
pub open spec fn pubrel_post(pre: Session, post: Session, mid: u16, now: u64) -> bool {
    &&& (mid == 0 ==> post == pre)
    &&& (mid != 0 ==> ({
        &&& post == (Session {
            inbound_qos2: post.inbound_qos2,
            out_queue: post.out_queue,
            last_send: now,
            ..pre
        })
        &&& (has_u16(pre.inbound_qos2@, mid) ==> post.inbound_qos2@ == pre.inbound_qos2@.remove(
            u16_idx(pre.inbound_qos2@, mid),
        ))
        &&& (!has_u16(pre.inbound_qos2@, mid) ==> post.inbound_qos2@ == pre.inbound_qos2@)
        &&& post.out_queue@.len() == pre.out_queue@.len() + 1
        &&& post.out_queue@.take(pre.out_queue@.len() as int) == pre.out_queue@
        &&& (post.out_queue@.last() matches Packet::Pubcomp(a) && a.packet_id == mid && a.reason
            == 0 && a.properties@.len() == 0)
    }))
}

/// What taking a SUBACK does: the pending subscribe under `mid` is
/// retired, the first code becomes the granted level of the subscription
/// it created, and the full code list is reported; ignored for unknown
/// identifiers or an empty code list.
pub open spec fn suback_post(pre: Session, post: Session, mid: u16, codes: Vec<u8>) -> bool {
    &&& (!(has_pending_sub(pre.pending_subs@, mid) && codes@.len() >= 1) ==> post == pre)
    &&& ((has_pending_sub(pre.pending_subs@, mid) && codes@.len() >= 1) ==> ({
        let i = pending_sub_idx(pre.pending_subs@, mid);
        let si = pre.pending_subs@[i].sub_index as int;
        let o = pre.subscriptions@[si];
        &&& post == (Session {
            pending_subs: post.pending_subs,
            subscriptions: post.subscriptions,
            events: post.events,
            ..pre
        })
        &&& post.pending_subs@ == pre.pending_subs@.remove(i)
        &&& post.subscriptions@ == pre.subscriptions@.update(
            si,
            Subscription {
                filter: o.filter,
                requested_qos: o.requested_qos,
                granted: Some(codes@[0]),
                active: o.active,
            },
        )
        &&& post.events@ == pre.events@.push(Event::SubscribeDone { mid, codes })
    }))
}

/// What taking an UNSUBACK does: the pending unsubscribe under `mid` is
/// retired and every subscription whose filter it named goes inactive;
/// ignored for unknown identifiers.
pub open spec fn unsuback_post(pre: Session, post: Session, mid: u16) -> bool {
    &&& (!has_pending_unsub(pre.pending_unsubs@, mid) ==> post == pre)
    &&& (has_pending_unsub(pre.pending_unsubs@, mid) ==> ({
        let i = pending_unsub_idx(pre.pending_unsubs@, mid);
        let f = pre.pending_unsubs@[i].filter;
        &&& post == (Session {
            pending_unsubs: post.pending_unsubs,
            subscriptions: post.subscriptions,
            events: post.events,
            ..pre
        })
        &&& post.pending_unsubs@ == pre.pending_unsubs@.remove(i)
        &&& post.subscriptions@.len() == pre.subscriptions@.len()
        &&& (forall|j: int|
            0 <= j < pre.subscriptions@.len() ==> ({
                let o = #[trigger] pre.subscriptions@[j];
                post.subscriptions@[j] == Subscription {
                    filter: o.filter,
                    requested_qos: o.requested_qos,
                    granted: o.granted,
                    active: o.active && o.filter@ != f@,
                }
            }))
        &&& post.events@ == pre.events@.push(Event::UnsubscribeDone { mid })
    }))
}

/// A PUBLISH packet built by the session is well formed: the topic was
/// validated, the payload bounded, and the properties are empty.
proof fn lemma_engine_publish_wf(pp: crate::codec::PublishV, v: Version)
    requires
        valid_topic_spec(pp.topic),
        utf8_ok(pp.topic),
        pp.qos == QoS::AtMostOnce <==> pp.packet_id is None,
        pp.packet_id matches Some(id) ==> id != 0,
        pp.qos == QoS::AtMostOnce ==> !pp.dup,
        pp.properties.len() == 0,
        pp.payload.len() <= MAX_PAYLOAD,
    ensures
        crate::codec::PacketV::Publish(pp).wf(v),
{
    lemma_empty_prop_block_len(pp.properties);
    assert(crate::codec::enc_publish_body(pp, v).len() <= VARINT_MAX);
}

/// A single-filter SUBSCRIBE built by the session is well formed.
proof fn lemma_engine_subscribe_wf(sp: crate::codec::SubscribeV, v: Version)
    requires
        sp.packet_id != 0,
        sp.requests.len() == 1,
        valid_filter_spec(sp.requests[0].filter),
        utf8_ok(sp.requests[0].filter),
        !sp.requests[0].no_local,
        !sp.requests[0].retain_as_published,
        sp.requests[0].retain_handling == 0,
        sp.properties.len() == 0,
    ensures
        crate::codec::PacketV::Subscribe(sp).wf(v),
{
    lemma_empty_prop_block_len(sp.properties);
    assert(sp.requests[0].wf(v));
    let r = sp.requests[0];
    assert(sp.requests.skip(1) =~= Seq::<crate::codec::SubRequestV>::empty());
    assert(crate::codec::enc_sub_reqs(sp.requests.skip(1)) =~= Seq::<u8>::empty());
    assert(crate::codec::enc_sub_reqs(sp.requests) =~= crate::codec::enc_sub_req(r));
    assert(crate::codec::enc_sub_req(r).len() == 3 + r.filter.len());
    assert(crate::codec::enc_subscribe_body(sp, v).len() <= VARINT_MAX);
}

/// A single-filter UNSUBSCRIBE built by the session is well formed.
proof fn lemma_engine_unsubscribe_wf(up: crate::codec::UnsubscribeV, v: Version)
    requires
        up.packet_id != 0,
        up.filters.len() == 1,
        valid_filter_spec(up.filters[0]),
        utf8_ok(up.filters[0]),
        up.properties.len() == 0,
    ensures
        crate::codec::PacketV::Unsubscribe(up).wf(v),
{
    lemma_empty_prop_block_len(up.properties);
    assert(up.filters.skip(1) =~= Seq::<Seq<u8>>::empty());
    assert(crate::codec::enc_filters(up.filters.skip(1)) =~= Seq::<u8>::empty());
    assert(crate::codec::enc_filters(up.filters) =~= crate::wire::enc_bin(up.filters[0]));
    assert(crate::codec::enc_unsubscribe_body(up, v).len() <= VARINT_MAX);
}

/// A bare acknowledgement built by the session (reason zero, no
/// properties) is well formed for any handshake kind.
proof fn lemma_engine_ack_wf(a: crate::codec::AckV, v: Version, kind: crate::types::PacketKind)
    requires
        a.packet_id != 0,
        a.reason == 0,
        a.properties.len() == 0,
    ensures
        a.wf(v, kind),
        crate::codec::enc_ack_body(a, v).len() <= VARINT_MAX,
{
    lemma_empty_prop_block_len(a.properties);
}

/// Whether some delivery carries the identifier `m`.
pub open spec fn has_delivery(ds: Seq<Delivery>, m: u16) -> bool {
    exists|i: int| 0 <= i < ds.len() && (#[trigger] ds[i]).mid == m
}

/// The index of the delivery carrying `m` (unique while the session
/// invariant holds).
pub open spec fn delivery_idx(ds: Seq<Delivery>, m: u16) -> int {
    choose|i: int| 0 <= i < ds.len() && (#[trigger] ds[i]).mid == m
}

/// Whether the inbound QoS 2 filter holds `m`.
pub open spec fn has_u16(s: Seq<u16>, m: u16) -> bool {
    s.contains(m)
}

/// The index of `m` in the inbound filter.
pub open spec fn u16_idx(s: Seq<u16>, m: u16) -> int {
    choose|i: int| 0 <= i < s.len() && s[i] == m
}

/// Whether some pending subscribe carries `m`, and its index.
pub open spec fn has_pending_sub(ps: Seq<PendingSub>, m: u16) -> bool {
    exists|i: int| 0 <= i < ps.len() && (#[trigger] ps[i]).mid == m
}

/// The index of the pending subscribe carrying `m`.
pub open spec fn pending_sub_idx(ps: Seq<PendingSub>, m: u16) -> int {
    choose|i: int| 0 <= i < ps.len() && (#[trigger] ps[i]).mid == m
}

/// Whether some pending unsubscribe carries `m`, and its index.
pub open spec fn has_pending_unsub(ps: Seq<PendingUnsub>, m: u16) -> bool {
    exists|i: int| 0 <= i < ps.len() && (#[trigger] ps[i]).mid == m
}

/// The index of the pending unsubscribe carrying `m`.
pub open spec fn pending_unsub_idx(ps: Seq<PendingUnsub>, m: u16) -> int {
    choose|i: int| 0 <= i < ps.len() && (#[trigger] ps[i]).mid == m
}

/// What happens to one delivery when the clock reads `now`: left alone
/// before its deadline, rearmed with one more retry spent while budget
/// remains, and dropped once the budget is gone.
pub open spec fn retry_step(d: Delivery, now: u64, limit: u32, interval: u64) -> Option<Delivery> {
    if now < d.deadline {
        Some(d)
    } else if d.retries < limit {
        Some(
            Delivery {
                mid: d.mid,
                qos: d.qos,
                stage: d.stage,
                topic: d.topic,
                payload: d.payload,
                retain: d.retain,
                deadline: sat_add_spec(now, interval),
                retries: (d.retries + 1) as u32,
            },
        )
    } else {
        None
    }
}

/// The deliveries left after a retry sweep, in order.
pub open spec fn retry_sweep(ds: Seq<Delivery>, now: u64, limit: u32, interval: u64) -> Seq<
    Delivery,
>
    decreases ds.len(),
{
    if ds.len() == 0 {
        Seq::empty()
    } else {
        (match retry_step(ds[0], now, limit, interval) {
            Some(nd) => seq![nd],
            None => Seq::empty(),
        }) + retry_sweep(ds.skip(1), now, limit, interval)
    }
}

/// The abandonment events a retry sweep emits, in delivery order.
pub open spec fn retry_failures(ds: Seq<Delivery>, now: u64, limit: u32) -> Seq<Event>
    decreases ds.len(),
{
    if ds.len() == 0 {
        Seq::empty()
    } else {
        (if now >= ds[0].deadline && ds[0].retries >= limit {
            seq![
                Event::PublishFailed { mid: ds[0].mid, reason: ClientError::DeliveryFailed },
            ]
        } else {
            Seq::empty()
        }) + retry_failures(ds.skip(1), now, limit)
    }
}

/// The deliveries a retry sweep resends, in order: those past their
/// deadline with retry budget left.
pub open spec fn retry_resend_sources(ds: Seq<Delivery>, now: u64, limit: u32) -> Seq<Delivery>
    decreases ds.len(),
{
    if ds.len() == 0 {
        Seq::empty()
    } else {
        (if now >= ds[0].deadline && ds[0].retries < limit {
            seq![ds[0]]
        } else {
            Seq::empty()
        }) + retry_resend_sources(ds.skip(1), now, limit)
    }
}

/// The packet a retry puts on the wire for delivery `d`: the same PUBLISH
/// under the same identifier with the DUP flag set, or — once the release
/// step is reached — the PUBREL for that identifier.
pub open spec fn resend_matches(q: Packet, d: Delivery) -> bool {
    if d.stage == DeliveryStage::AwaitPubcomp {
        q matches Packet::Pubrel(a) && a.packet_id == d.mid && a.reason == 0 && a.properties@.len()
            == 0
    } else {
        q matches Packet::Publish(pp) && pp.packet_id == Some(d.mid) && pp.dup && pp.topic@
            == d.topic@ && pp.payload@ == d.payload@ && pp.qos == d.qos && pp.retain == d.retain
            && pp.properties@.len() == 0
    }
}

/// Sweeping one more delivery appends its outcome.
proof fn lemma_retry_sweep_push(ds: Seq<Delivery>, d: Delivery, now: u64, limit: u32, interval: u64)
    ensures
        retry_sweep(ds.push(d), now, limit, interval) == retry_sweep(ds, now, limit, interval)
            + (match retry_step(d, now, limit, interval) {
            Some(nd) => seq![nd],
            None => Seq::<Delivery>::empty(),
        }),
        retry_failures(ds.push(d), now, limit) == retry_failures(ds, now, limit) + (if now
            >= d.deadline && d.retries >= limit {
            seq![Event::PublishFailed { mid: d.mid, reason: ClientError::DeliveryFailed }]
        } else {
            Seq::<Event>::empty()
        }),
        retry_resend_sources(ds.push(d), now, limit) == retry_resend_sources(ds, now, limit) + (
        if now >= d.deadline && d.retries < limit {
            seq![d]
        } else {
            Seq::<Delivery>::empty()
        }),
    decreases ds.len(),
{
    if ds.len() == 0 {
        assert(ds.push(d)[0] == d);
        assert(ds.push(d).skip(1) =~= Seq::<Delivery>::empty());
        assert(retry_sweep(Seq::<Delivery>::empty(), now, limit, interval) =~= Seq::<
            Delivery,
        >::empty());
        assert(retry_failures(Seq::<Delivery>::empty(), now, limit) =~= Seq::<Event>::empty());
        assert(retry_sweep(ds.push(d), now, limit, interval) =~= retry_sweep(
            ds,
            now,
            limit,
            interval,
        ) + (match retry_step(d, now, limit, interval) {
            Some(nd) => seq![nd],
            None => Seq::<Delivery>::empty(),
        }));
        assert(retry_failures(ds.push(d), now, limit) =~= retry_failures(ds, now, limit) + (if now
            >= d.deadline && d.retries >= limit {
            seq![Event::PublishFailed { mid: d.mid, reason: ClientError::DeliveryFailed }]
        } else {
            Seq::<Event>::empty()
        }));
        assert(retry_resend_sources(Seq::<Delivery>::empty(), now, limit) =~= Seq::<
            Delivery,
        >::empty());
        assert(retry_resend_sources(ds.push(d), now, limit) =~= retry_resend_sources(
            ds,
            now,
            limit,
        ) + (if now >= d.deadline && d.retries < limit {
            seq![d]
        } else {
            Seq::<Delivery>::empty()
        }));
    } else {
        assert(ds.push(d).skip(1) =~= ds.skip(1).push(d));
        lemma_retry_sweep_push(ds.skip(1), d, now, limit, interval);
        assert(retry_sweep(ds.push(d), now, limit, interval) =~= retry_sweep(
            ds,
            now,
            limit,
            interval,
        ) + (match retry_step(d, now, limit, interval) {
            Some(nd) => seq![nd],
            None => Seq::<Delivery>::empty(),
        }));
        assert(retry_failures(ds.push(d), now, limit) =~= retry_failures(ds, now, limit) + (if now
            >= d.deadline && d.retries >= limit {
            seq![Event::PublishFailed { mid: d.mid, reason: ClientError::DeliveryFailed }]
        } else {
            Seq::<Event>::empty()
        }));
        assert(retry_resend_sources(ds.push(d), now, limit) =~= retry_resend_sources(
            ds,
            now,
            limit,
        ) + (if now >= d.deadline && d.retries < limit {
            seq![d]
        } else {
            Seq::<Delivery>::empty()
        }));
    }
}

/// A retry sweep keeps every surviving delivery's identity fields and
/// keeps the identifiers a distinct subset of what they were.
proof fn lemma_retry_sweep_fields(ds: Seq<Delivery>, now: u64, limit: u32, interval: u64)
    ensures
        forall|i: int|
            0 <= i < retry_sweep(ds, now, limit, interval).len() ==> (exists|j: int|
                0 <= j < ds.len() && ({
                    let n = #[trigger] retry_sweep(ds, now, limit, interval)[i];
                    let o = #[trigger] ds[j];
                    n.mid == o.mid && n.qos == o.qos && n.stage == o.stage && n.topic == o.topic
                        && n.payload == o.payload && n.retain == o.retain
                })),
        (forall|i: int, j: int| 0 <= i < j < ds.len() ==> ds[i].mid != ds[j].mid) ==> (forall|
            i: int,
            j: int,
        |
            0 <= i < j < retry_sweep(ds, now, limit, interval).len() ==> retry_sweep(
                ds,
                now,
                limit,
                interval,
            )[i].mid != retry_sweep(ds, now, limit, interval)[j].mid),
    decreases ds.len(),
{
    if ds.len() > 0 {
        let tail = ds.skip(1);
        lemma_retry_sweep_fields(tail, now, limit, interval);
        let sw = retry_sweep(ds, now, limit, interval);
        let swt = retry_sweep(tail, now, limit, interval);
        assert(forall|i: int| 0 <= i < tail.len() ==> tail[i] == ds[i + 1]);
        match retry_step(ds[0], now, limit, interval) {
            Some(nd) => {
                assert(sw == seq![nd] + swt);
                assert(sw[0] == nd);
                assert(forall|i: int| 1 <= i < sw.len() ==> sw[i] == swt[i - 1]);
                assert forall|i: int| #![trigger sw[i]] 0 <= i < sw.len() implies (exists|j: int|
                    0 <= j < ds.len() && ({
                        let n = sw[i];
                        let o = #[trigger] ds[j];
                        n.mid == o.mid && n.qos == o.qos && n.stage == o.stage && n.topic == o.topic
                            && n.payload == o.payload && n.retain == o.retain
                    })) by {
                    if i == 0 {
                        assert(sw[0].mid == ds[0].mid && sw[0].qos == ds[0].qos && sw[0].stage
                            == ds[0].stage && sw[0].topic == ds[0].topic && sw[0].payload
                            == ds[0].payload && sw[0].retain == ds[0].retain);
                    } else {
                        let j = choose|j: int|
                            0 <= j < tail.len() && ({
                                let n = swt[i - 1];
                                let o = #[trigger] tail[j];
                                n.mid == o.mid && n.qos == o.qos && n.stage == o.stage && n.topic
                                    == o.topic && n.payload == o.payload && n.retain == o.retain
                            });
                        assert(ds[j + 1] == tail[j]);
                    }
                }
            },
            None => {
                assert(sw =~= swt);
                assert forall|i: int| #![trigger sw[i]] 0 <= i < sw.len() implies (exists|j: int|
                    0 <= j < ds.len() && ({
                        let n = sw[i];
                        let o = #[trigger] ds[j];
                        n.mid == o.mid && n.qos == o.qos && n.stage == o.stage && n.topic == o.topic
                            && n.payload == o.payload && n.retain == o.retain
                    })) by {
                    let j = choose|j: int|
                        0 <= j < tail.len() && ({
                            let n = swt[i];
                            let o = #[trigger] tail[j];
                            n.mid == o.mid && n.qos == o.qos && n.stage == o.stage && n.topic
                                == o.topic && n.payload == o.payload && n.retain == o.retain
                        });
                    assert(ds[j + 1] == tail[j]);
                }
            },
        }
    }
}

/// Every identifier surviving a sweep was a delivery identifier before.
proof fn lemma_retry_sweep_contains(ds: Seq<Delivery>, now: u64, limit: u32, interval: u64, m: u16)
    requires
        delivery_mids(retry_sweep(ds, now, limit, interval)).contains(m),
    ensures
        delivery_mids(ds).contains(m),
{
    lemma_retry_sweep_fields(ds, now, limit, interval);
    let sw = retry_sweep(ds, now, limit, interval);
    let i = choose|i: int| 0 <= i < sw.len() && delivery_mids(sw)[i] == m;
    assert(sw[i].mid == m);
    let j = choose|j: int|
        0 <= j < ds.len() && ({
            let n = sw[i];
            let o = #[trigger] ds[j];
            n.mid == o.mid && n.qos == o.qos && n.stage == o.stage && n.topic == o.topic
                && n.payload == o.payload && n.retain == o.retain
        });
    assert(delivery_mids(ds)[j] == m);
}

/// Replacing the delivery segment by one with a distinct subset of its
/// identifiers keeps the reserved identifiers distinct.
proof fn lemma_mids_ok_shrink(a2: Seq<u16>, a: Seq<u16>, b: Seq<u16>, c: Seq<u16>)
    requires
        mids_ok(a + b + c),
        forall|i: int, j: int| 0 <= i < j < a2.len() ==> a2[i] != a2[j],
        forall|m: u16| a2.contains(m) ==> a.contains(m),
    ensures
        mids_ok(a2 + b + c),
{
    let o = a + b + c;
    let s = a2 + b + c;
    let an = a.len() as int;
    let a2n = a2.len() as int;
    assert forall|i: int| 0 <= i < s.len() implies s[i] != 0 by {
        if i < a2n {
            assert(a2.contains(a2[i]));
            let j = choose|j: int| 0 <= j < a.len() && a[j] == a2[i];
            assert(o[j] == a2[i]);
        } else {
            assert(s[i] == o[i - a2n + an]);
        }
    }
    assert forall|i: int, j: int| 0 <= i < j < s.len() implies s[i] != s[j] by {
        if i < a2n && j < a2n {
        } else if i < a2n && j >= a2n {
            assert(a2.contains(a2[i]));
            let k = choose|k: int| 0 <= k < a.len() && a[k] == a2[i];
            assert(o[k] == s[i]);
            assert(s[j] == o[j - a2n + an]);
        } else {
            assert(s[i] == o[i - a2n + an]);
            assert(s[j] == o[j - a2n + an]);
        }
    }
}

/// An empty property block is one byte on the wire: a zero length.
pub proof fn lemma_empty_prop_block_len(ps: Seq<crate::properties::PropertyV>)
    requires
        ps.len() == 0,
    ensures
        crate::properties::enc_props(ps).len() == 0,
        crate::properties::enc_prop_block(ps).len() == 1,
        crate::codec::enc_props_for(ps, Version::V311).len() == 0,
        crate::codec::enc_props_for(ps, Version::V5).len() == 1,
{
    assert(crate::properties::enc_props(ps).len() == 0);
    assert(crate::varint::varint_encode(0).len() == 1);
}

} // verus!
