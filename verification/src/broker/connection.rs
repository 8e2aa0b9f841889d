//! The decisions of one client connection: what to tell the broker and what
//! to write back for each packet the client sends, and how to turn the
//! broker's messages into packets.  The I/O layer performs the actions.

use crate::broker::engine::{BrokerToClientMessage, BrokerToClientView};
use crate::broker::session::PendingView;
use crate::packet::connect::{opt_will, ConnAck, ConnAckView, ConnectReason, Will, WillView};
use crate::packet::disconnect::{Disconnect, DisconnectReason, DisconnectView};
use crate::packet::ping::PingResp;
use crate::packet::puback::{AckView, PubAck, PubComp, PubReason, PubRec, PubRel};
use crate::packet::publish::{Publish, PublishView};
use crate::packet::subscribe::{
    filter_views, SubAck, SubAckReason, SubAckView, SubscriptionFilter, SubscriptionFilterView,
};
use crate::packet::unsubscribe::{string_views, UnsubAck, UnsubAckReason, UnsubAckView};
use crate::packet::{ControlPacket, PacketView};
use crate::version::ProtocolVersion;
use crate::wire::{read_variable_length, spec_read_varint};
use crate::QoS;
use std::collections::HashSet;
use vstd::prelude::*;

verus! {

broadcast use vstd::std_specs::hash::group_hash_axioms;

/// A request a connection sends to the broker for its client.
#[derive(Debug)]
pub enum BrokerRequest {
    Publish {
        topic: String,
        payload: Vec<u8>,
        qos: QoS,
        retain: bool,
        expiry_secs: Option<u32>,
    },
    PubAck(u16),
    PubRec(u16),
    PubRel(u16),
    PubComp(u16),
    Subscribe { filters: Vec<SubscriptionFilter>, subscription_identifier: Option<u32> },
    Unsubscribe { filters: Vec<String> },
}

/// The mathematical value of a [`BrokerRequest`].
pub enum RequestView {
    Publish {
        topic: Seq<char>,
        payload: Seq<u8>,
        qos: QoS,
        retain: bool,
        expiry_secs: Option<u32>,
    },
    PubAck(u16),
    PubRec(u16),
    PubRel(u16),
    PubComp(u16),
    Subscribe { filters: Seq<SubscriptionFilterView>, subscription_identifier: Option<u32> },
    Unsubscribe { filters: Seq<Seq<char>> },
}

impl View for BrokerRequest {
    type V = RequestView;

    open spec fn view(&self) -> RequestView {
        match self {
            BrokerRequest::Publish { topic, payload, qos, retain, expiry_secs } => RequestView::Publish {
                topic: topic@,
                payload: payload@,
                qos: *qos,
                retain: *retain,
                expiry_secs: *expiry_secs,
            },
            BrokerRequest::PubAck(id) => RequestView::PubAck(*id),
            BrokerRequest::PubRec(id) => RequestView::PubRec(*id),
            BrokerRequest::PubRel(id) => RequestView::PubRel(*id),
            BrokerRequest::PubComp(id) => RequestView::PubComp(*id),
            BrokerRequest::Subscribe { filters, subscription_identifier } => RequestView::Subscribe {
                filters: filter_views(filters@),
                subscription_identifier: *subscription_identifier,
            },
            BrokerRequest::Unsubscribe { filters } => RequestView::Unsubscribe {
                filters: string_views(filters@),
            },
        }
    }
}

/// One thing a connection does, in order.
#[derive(Debug)]
pub enum ConnectionAction {
    /// Send a request to the broker.
    Forward(BrokerRequest),
    /// Wait for the broker to answer the request just sent.
    AwaitBroker,
    /// Wait for the broker's granted QoS levels, then write the SUBACK that
    /// [`suback_for`] builds for this packet identifier.
    AwaitSubAck(u16),
    /// Wait for the broker's removal results, then write the UNSUBACK that
    /// [`unsuback_for`] builds for this packet identifier.
    AwaitUnsubAck(u16),
    /// Write a packet to the client.
    Write(ControlPacket),
    /// Close the connection.
    Close,
}

/// The mathematical value of a [`ConnectionAction`].
pub enum ActionView {
    Forward(RequestView),
    AwaitBroker,
    AwaitSubAck(u16),
    AwaitUnsubAck(u16),
    Write(PacketView),
    Close,
}

impl View for ConnectionAction {
    type V = ActionView;

    open spec fn view(&self) -> ActionView {
        match self {
            ConnectionAction::Forward(r) => ActionView::Forward(r@),
            ConnectionAction::AwaitBroker => ActionView::AwaitBroker,
            ConnectionAction::AwaitSubAck(id) => ActionView::AwaitSubAck(*id),
            ConnectionAction::AwaitUnsubAck(id) => ActionView::AwaitUnsubAck(*id),
            ConnectionAction::Write(p) => ActionView::Write(p@),
            ConnectionAction::Close => ActionView::Close,
        }
    }
}

/// The views of a list of actions.
pub open spec fn action_views(s: Seq<ConnectionAction>) -> Seq<ActionView> {
    s.map_values(|a: ConnectionAction| a@)
}

/// A packet that is not allowed at this point of the conversation.
#[derive(Debug, Clone, Copy, PartialEq, Eq, Structural)]
pub enum ProtocolViolation {
    /// A second CONNECT on a connection.
    DuplicateConnect,
    /// The first packet of a connection is not CONNECT.
    ExpectedConnect,
}

/// The plain acknowledgement with reason `Success` and no properties.
pub open spec fn success_ack(id: u16) -> AckView {
    AckView { packet_id: id, reason_code: PubReason::Success, properties: None }
}

/// The request that forwards a PUBLISH to the broker: its topic, payload,
/// QoS, RETAIN flag and message expiry interval.
pub open spec fn publish_request(p: PublishView) -> RequestView {
    RequestView::Publish {
        topic: p.topic,
        payload: p.payload,
        qos: p.qos,
        retain: p.retain,
        expiry_secs: match p.properties {
            Some(pr) => pr.message_expiry_interval,
            None => None,
        },
    }
}

/// The publication of a Will: its topic, payload, QoS, RETAIN flag and
/// message expiry interval.
pub open spec fn will_publish(w: WillView) -> RequestView {
    RequestView::Publish {
        topic: w.topic,
        payload: w.payload,
        qos: w.qos,
        retain: w.retain,
        expiry_secs: match w.properties {
            Some(pr) => pr.message_expiry_interval,
            None => None,
        },
    }
}

/// The packet identifier of a PUBLISH, 0 when it has none.
pub open spec fn publish_id(p: PublishView) -> u16 {
    match p.packet_id {
        Some(id) => id,
        None => 0,
    }
}

/// What a connection does for an incoming PUBLISH, given the QoS 2 packet
/// identifiers it has already received.  A QoS 2 message whose identifier
/// was seen before is only acknowledged again with PUBREC; otherwise it is
/// forwarded, and QoS 1 is acknowledged with PUBACK, QoS 2 with PUBREC once
/// the broker has taken the message.
pub open spec fn publish_actions(p: PublishView, seen: Set<u16>) -> Seq<ActionView> {
    if p.qos == QoS::ExactlyOnce && seen.contains(publish_id(p)) {
        seq![ActionView::Write(PacketView::PubRec(success_ack(publish_id(p))))]
    } else if p.qos == QoS::AtMostOnce {
        seq![ActionView::Forward(publish_request(p))]
    } else if p.qos == QoS::AtLeastOnce {
        seq![
            ActionView::Forward(publish_request(p)),
            ActionView::Write(PacketView::PubAck(success_ack(publish_id(p)))),
        ]
    } else {
        seq![
            ActionView::Forward(publish_request(p)),
            ActionView::AwaitBroker,
            ActionView::Write(PacketView::PubRec(success_ack(publish_id(p)))),
        ]
    }
}

/// The QoS 2 packet identifiers a connection holds after a packet from its
/// client: a QoS 2 PUBLISH takes its identifier, and PUBREL releases it.
pub open spec fn seen_after(p: PacketView, seen: Set<u16>) -> Set<u16> {
    match p {
        PacketView::Publish(x) => if x.qos == QoS::ExactlyOnce {
            seen.insert(publish_id(x))
        } else {
            seen
        },
        PacketView::PubRel(a) => seen.remove(a.packet_id),
        _ => seen,
    }
}

/// Exactly once: a connection forwards a QoS 2 message to the broker the
/// first time its packet identifier arrives; a repeat before the PUBREL of
/// that identifier is answered with PUBREC alone; once PUBREL has released
/// the identifier, a new message with it is forwarded again.
pub proof fn lemma_qos2_forwarded_once(p: PublishView, q: PublishView, rel: AckView, seen: Set<u16>)
    requires
        p.qos == QoS::ExactlyOnce,
        q.qos == QoS::ExactlyOnce,
        publish_id(q) == publish_id(p),
        rel.packet_id == publish_id(p),
        !seen.contains(publish_id(p)),
    ensures
        publish_actions(p, seen)[0] == ActionView::Forward(publish_request(p)),
        publish_actions(q, seen_after(PacketView::Publish(p), seen)) == seq![
            ActionView::Write(PacketView::PubRec(success_ack(publish_id(p)))),
        ],
        publish_actions(
            q,
            seen_after(PacketView::PubRel(rel), seen_after(PacketView::Publish(p), seen)),
        )[0] == ActionView::Forward(publish_request(q)),
{
    assert(seen.insert(publish_id(p)).remove(publish_id(p)) =~= seen);
}

/// A PUBLISH from the client that is not a repeated QoS 2 message is first
/// forwarded to the broker as a request that carries the packet's own topic,
/// payload, QoS and RETAIN flag, with the message expiry interval of its
/// properties.  At QoS 0 nothing else is done; a QoS 1 message with packet
/// identifier `id` is then acknowledged with PUBACK `id`, and a QoS 2 one,
/// once the broker has taken it, with PUBREC `id`, both with reason Success
/// and no properties.
pub proof fn lemma_publish_forwarded_as_sent(p: PublishView, seen: Set<u16>)
    requires
        !(p.qos == QoS::ExactlyOnce && seen.contains(publish_id(p))),
    ensures
        packet_actions(PacketView::Publish(p), seen).len() >= 1,
        packet_actions(PacketView::Publish(p), seen)[0] matches ActionView::Forward(
            RequestView::Publish { topic, payload, qos, retain, expiry_secs },
        ) && topic == p.topic && payload == p.payload && qos == p.qos && retain == p.retain
            && expiry_secs == (match p.properties {
            Some(pr) => pr.message_expiry_interval,
            None => None::<u32>,
        }),
        p.qos == QoS::AtMostOnce ==> packet_actions(PacketView::Publish(p), seen).len() == 1,
        p.qos == QoS::AtLeastOnce && p.packet_id is Some ==> packet_actions(
            PacketView::Publish(p),
            seen,
        ).len() == 2 && packet_actions(PacketView::Publish(p), seen)[1] == ActionView::Write(
            PacketView::PubAck(
                AckView { packet_id: p.packet_id->0, reason_code: PubReason::Success, properties: None },
            ),
        ),
        p.qos == QoS::ExactlyOnce && p.packet_id is Some ==> packet_actions(
            PacketView::Publish(p),
            seen,
        ).len() == 3 && packet_actions(PacketView::Publish(p), seen)[1] == ActionView::AwaitBroker
            && packet_actions(PacketView::Publish(p), seen)[2] == ActionView::Write(
            PacketView::PubRec(
                AckView { packet_id: p.packet_id->0, reason_code: PubReason::Success, properties: None },
            ),
        ),
{
}

/// A connection answers its client's PUBREL for packet identifier `id` by
/// telling the broker to release `id` and writing PUBCOMP `id` with reason
/// Success and no properties, and a PINGREQ by writing PINGRESP; both leave
/// nothing else to do.
pub proof fn lemma_pubrel_and_ping_answered(a: AckView, seen: Set<u16>)
    ensures
        packet_actions(PacketView::PubRel(a), seen) == seq![
            ActionView::Forward(RequestView::PubRel(a.packet_id)),
            ActionView::Write(
                PacketView::PubComp(
                    AckView { packet_id: a.packet_id, reason_code: PubReason::Success, properties: None },
                ),
            ),
        ],
        packet_actions(PacketView::PingReq, seen) == seq![ActionView::Write(PacketView::PingResp)],
        !seen_after(PacketView::PubRel(a), seen).contains(a.packet_id),
{
}

/// The first subscription identifier among optional properties.
pub open spec fn first_subscription_id(o: Option<crate::properties::PropertiesView>) -> Option<u32> {
    match o {
        Some(pr) => if pr.subscription_identifiers.len() > 0 {
            Some(pr.subscription_identifiers[0])
        } else {
            None
        },
        None => None,
    }
}

/// What a connection does for a packet from its client (CONNECT is handled
/// by the handshake; a second one is a protocol violation).
pub open spec fn packet_actions(p: PacketView, seen: Set<u16>) -> Seq<ActionView> {
    match p {
        PacketView::Publish(x) => publish_actions(x, seen),
        PacketView::PubAck(a) => seq![ActionView::Forward(RequestView::PubAck(a.packet_id))],
        PacketView::PubRec(a) => seq![ActionView::Forward(RequestView::PubRec(a.packet_id))],
        PacketView::PubRel(a) => seq![
            ActionView::Forward(RequestView::PubRel(a.packet_id)),
            ActionView::Write(PacketView::PubComp(success_ack(a.packet_id))),
        ],
        PacketView::PubComp(a) => seq![ActionView::Forward(RequestView::PubComp(a.packet_id))],
        PacketView::Subscribe(s) => seq![
            ActionView::Forward(
                RequestView::Subscribe {
                    filters: s.filters,
                    subscription_identifier: first_subscription_id(s.properties),
                },
            ),
            ActionView::AwaitSubAck(s.packet_id),
        ],
        PacketView::Unsubscribe(u) => seq![
            ActionView::Forward(RequestView::Unsubscribe { filters: u.filters }),
            ActionView::AwaitUnsubAck(u.packet_id),
        ],
        PacketView::PingReq => seq![ActionView::Write(PacketView::PingResp)],
        _ => Seq::empty(),
    }
}

/// The state of one client connection.
pub struct ConnectionState {
    pub client_id: String,
    pub version: ProtocolVersion,
    pub keep_alive: u16,
    /// Packet identifiers of QoS 2 messages already received.
    pub received_qos2_packet_ids: HashSet<u16>,
    /// The client's Last Will, from its CONNECT: published for it when the
    /// connection ends without DISCONNECT.
    pub will: Option<Will>,
}

impl ConnectionState {
    /// A connection before its handshake: no client id, MQTT 3.1.1, no
    /// keep-alive, nothing received.
    pub fn new() -> (r: Self)
        ensures
            r.client_id@.len() == 0,
            r.version == ProtocolVersion::V311,
            r.keep_alive == 0,
            r.received_qos2_packet_ids@ == Set::<u16>::empty(),
            r.will is None,
    {
        ConnectionState {
            client_id: String::new(),
            version: ProtocolVersion::V311,
            keep_alive: 0,
            received_qos2_packet_ids: HashSet::new(),
            will: None,
        }
    }

    /// Decide what to do with a packet from the client.
    pub fn process_packet(&mut self, packet: ControlPacket) -> (r: Result<
        Vec<ConnectionAction>,
        ProtocolViolation,
    >)
        ensures
            packet@ is Connect ==> r == Err::<Vec<ConnectionAction>, ProtocolViolation>(
                ProtocolViolation::DuplicateConnect,
            ) && final(self).received_qos2_packet_ids@ == old(self).received_qos2_packet_ids@,
            !(packet@ is Connect) ==> (r matches Ok(v) && action_views(v@) == packet_actions(
                packet@,
                old(self).received_qos2_packet_ids@,
            )),
            !(packet@ is Connect) ==> final(self).received_qos2_packet_ids@ == seen_after(
                packet@,
                old(self).received_qos2_packet_ids@,
            ),
            final(self).will == if packet@ is Disconnect {
                None::<Will>
            } else {
                old(self).will
            },
            final(self).client_id == old(self).client_id,
            final(self).version == old(self).version,
            final(self).keep_alive == old(self).keep_alive,
    {
        let mut out: Vec<ConnectionAction> = Vec::new();
        match packet {
            ControlPacket::Connect(_) => {
                return Err(ProtocolViolation::DuplicateConnect);
            },
            ControlPacket::Publish(p) => {
                return Ok(self.handle_incoming_publish(p));
            },
            ControlPacket::PubAck(a) => {
                out.push(ConnectionAction::Forward(BrokerRequest::PubAck(a.packet_id)));
            },
            ControlPacket::PubRec(a) => {
                out.push(ConnectionAction::Forward(BrokerRequest::PubRec(a.packet_id)));
            },
            ControlPacket::PubRel(a) => {
                self.received_qos2_packet_ids.remove(&a.packet_id);
                out.push(ConnectionAction::Forward(BrokerRequest::PubRel(a.packet_id)));
                out.push(ConnectionAction::Write(ControlPacket::PubComp(PubComp::success(a.packet_id))));
            },
            ControlPacket::PubComp(a) => {
                out.push(ConnectionAction::Forward(BrokerRequest::PubComp(a.packet_id)));
            },
            ControlPacket::Subscribe(s) => {
                let subscription_identifier = match &s.properties {
                    Some(pr) => if pr.subscription_identifiers.len() > 0 {
                        Some(pr.subscription_identifiers[0])
                    } else {
                        None
                    },
                    None => None,
                };
                let packet_id = s.packet_id;
                out.push(ConnectionAction::Forward(BrokerRequest::Subscribe { filters: s.filters, subscription_identifier }));
                out.push(ConnectionAction::AwaitSubAck(packet_id));
            },
            ControlPacket::Unsubscribe(u) => {
                let packet_id = u.packet_id;
                out.push(ConnectionAction::Forward(BrokerRequest::Unsubscribe { filters: u.filters }));
                out.push(ConnectionAction::AwaitUnsubAck(packet_id));
            },
            ControlPacket::PingReq(_) => {
                out.push(ConnectionAction::Write(ControlPacket::PingResp(PingResp)));
            },
            ControlPacket::Disconnect(_) => {
                self.will = None;
            },
            _ => {},
        }
        assert(action_views(out@) =~= packet_actions(packet@, old(self).received_qos2_packet_ids@));
        Ok(out)
    }

    /// Decide what to do with an incoming PUBLISH.
    fn handle_incoming_publish(&mut self, p: Publish) -> (r: Vec<ConnectionAction>)
        ensures
            action_views(r@) == publish_actions(p@, old(self).received_qos2_packet_ids@),
            final(self).received_qos2_packet_ids@ == if p.qos == QoS::ExactlyOnce {
                old(self).received_qos2_packet_ids@.insert(publish_id(p@))
            } else {
                old(self).received_qos2_packet_ids@
            },
            final(self).will == old(self).will,
            final(self).client_id == old(self).client_id,
            final(self).version == old(self).version,
            final(self).keep_alive == old(self).keep_alive,
    {
        let ghost pv = p@;
        let ghost seen = self.received_qos2_packet_ids@;
        let packet_id = match p.packet_id {
            Some(id) => id,
            None => 0,
        };
        let mut out: Vec<ConnectionAction> = Vec::new();
        if p.qos == QoS::ExactlyOnce {
            if self.received_qos2_packet_ids.contains(&packet_id) {
                out.push(ConnectionAction::Write(ControlPacket::PubRec(PubRec::success(packet_id))));
                assert(seen.insert(packet_id) =~= seen);
                assert(action_views(out@) =~= publish_actions(pv, seen));
                return out;
            }
            self.received_qos2_packet_ids.insert(packet_id);
        }
        let expiry_secs = match &p.properties {
            Some(pr) => pr.message_expiry_interval,
            None => None,
        };
        let qos = p.qos;
        let request = BrokerRequest::Publish {
            topic: p.topic,
            payload: p.payload,
            qos,
            retain: p.retain,
            expiry_secs,
        };
        out.push(ConnectionAction::Forward(request));
        if qos == QoS::AtLeastOnce {
            out.push(ConnectionAction::Write(ControlPacket::PubAck(PubAck::success(packet_id))));
        } else if qos == QoS::ExactlyOnce {
            out.push(ConnectionAction::AwaitBroker);
            out.push(ConnectionAction::Write(ControlPacket::PubRec(PubRec::success(packet_id))));
        }
        assert(action_views(out@) =~= publish_actions(pv, seen));
        out
    }

    /// What the connection asks of the broker when it ends: the Will, if
    /// the client gave one and has not disconnected normally, published on
    /// its topic with its payload, QoS, RETAIN flag and message expiry.
    pub fn will_request(&self) -> (r: Option<BrokerRequest>)
        ensures
            match opt_will(self.will) {
                Some(w) => r matches Some(q) && q@ == will_publish(w),
                None => r is None,
            },
    {
        match &self.will {
            Some(w) => {
                let expiry_secs = match &w.properties {
                    Some(pr) => pr.message_expiry_interval,
                    None => None,
                };
                Some(BrokerRequest::Publish {
                    topic: w.topic.clone(),
                    payload: w.payload.clone(),
                    qos: w.qos,
                    retain: w.retain,
                    expiry_secs,
                })
            },
            None => None,
        }
    }

    /// Turn a message of the broker into actions: a PUBLISH (with a packet
    /// identifier for QoS 1 and 2, without properties), a PUBREL, or for a
    /// client taken over by a new connection a DISCONNECT (MQTT 5.0 only)
    /// and the end of the connection.
    pub fn on_broker_message(&self, msg: BrokerToClientMessage) -> (r: Vec<ConnectionAction>)
        ensures
            action_views(r@) == broker_message_actions(msg@, self.version),
    {
        let mut out: Vec<ConnectionAction> = Vec::new();
        match msg {
            BrokerToClientMessage::Publish(p) => {
                let packet_id = if p.qos == QoS::AtMostOnce {
                    None
                } else {
                    Some(p.packet_id)
                };
                let publish = Publish {
                    dup: p.dup,
                    qos: p.qos,
                    retain: p.retain,
                    topic: p.topic,
                    packet_id,
                    payload: p.payload,
                    properties: None,
                };
                out.push(ConnectionAction::Write(ControlPacket::Publish(publish)));
            },
            BrokerToClientMessage::PubRel(id) => {
                out.push(ConnectionAction::Write(ControlPacket::PubRel(PubRel::success(id))));
            },
            BrokerToClientMessage::DisconnectGracefully => {
                if self.version.is_v5() {
                    let d = Disconnect {
                        reason_code: DisconnectReason::SessionTakenOver,
                        properties: None,
                    };
                    out.push(ConnectionAction::Write(ControlPacket::Disconnect(d)));
                }
                out.push(ConnectionAction::Close);
            },
        }
        assert(action_views(out@) =~= broker_message_actions(msg@, self.version));
        out
    }
}

/// The PUBLISH a queued message is sent as.
pub open spec fn pending_packet(p: PendingView) -> PublishView {
    PublishView {
        dup: p.dup,
        qos: p.qos,
        retain: p.retain,
        topic: p.topic,
        packet_id: if p.qos == QoS::AtMostOnce {
            None
        } else {
            Some(p.packet_id)
        },
        payload: p.payload,
        properties: None,
    }
}

/// What a connection does with a message of the broker.
pub open spec fn broker_message_actions(m: BrokerToClientView, ver: ProtocolVersion) -> Seq<ActionView> {
    match m {
        BrokerToClientView::Publish(p) => seq![ActionView::Write(PacketView::Publish(pending_packet(p)))],
        BrokerToClientView::PubRel(id) => seq![ActionView::Write(PacketView::PubRel(success_ack(id)))],
        BrokerToClientView::DisconnectGracefully => if ver == ProtocolVersion::V500 {
            seq![
                ActionView::Write(
                    PacketView::Disconnect(
                        DisconnectView {
                            reason_code: DisconnectReason::SessionTakenOver,
                            properties: None,
                        },
                    ),
                ),
                ActionView::Close,
            ]
        } else {
            seq![ActionView::Close]
        },
    }
}

/// The SUBACK reason that grants a QoS level.
pub open spec fn granted(q: QoS) -> SubAckReason {
    match q {
        QoS::AtMostOnce => SubAckReason::GrantedQoS0,
        QoS::AtLeastOnce => SubAckReason::GrantedQoS1,
        QoS::ExactlyOnce => SubAckReason::GrantedQoS2,
    }
}

/// The SUBACK for the QoS levels the broker granted, one reason each.
pub fn suback_for(packet_id: u16, qoses: &Vec<QoS>) -> (r: SubAck)
    ensures
        r@ == (SubAckView {
            packet_id,
            reason_codes: qoses@.map_values(|q: QoS| granted(q)),
            properties: None,
        }),
{
    let mut reason_codes: Vec<SubAckReason> = Vec::new();
    let mut i: usize = 0;
    while i < qoses.len()
        invariant
            i <= qoses@.len(),
            reason_codes@ =~= qoses@.take(i as int).map_values(|q: QoS| granted(q)),
        decreases qoses@.len() - i,
    {
        let r = match qoses[i] {
            QoS::AtMostOnce => SubAckReason::GrantedQoS0,
            QoS::AtLeastOnce => SubAckReason::GrantedQoS1,
            QoS::ExactlyOnce => SubAckReason::GrantedQoS2,
        };
        reason_codes.push(r);
        i = i + 1;
        assert(reason_codes@ =~= qoses@.take(i as int).map_values(|q: QoS| granted(q)));
    }
    assert(qoses@.take(i as int) =~= qoses@);
    SubAck { packet_id, reason_codes, properties: None }
}

/// The UNSUBACK reason for whether a subscription was removed.
pub open spec fn unsub_reason(removed: bool) -> UnsubAckReason {
    if removed {
        UnsubAckReason::Success
    } else {
        UnsubAckReason::NoSubscriptionExisted
    }
}

/// The UNSUBACK for the broker's removal results, one reason each.
pub fn unsuback_for(packet_id: u16, results: &Vec<bool>) -> (r: UnsubAck)
    ensures
        r@ == (UnsubAckView {
            packet_id,
            reason_codes: results@.map_values(|b: bool| unsub_reason(b)),
            properties: None,
        }),
{
    let mut reason_codes: Vec<UnsubAckReason> = Vec::new();
    let mut i: usize = 0;
    while i < results.len()
        invariant
            i <= results@.len(),
            reason_codes@ =~= results@.take(i as int).map_values(|b: bool| unsub_reason(b)),
        decreases results@.len() - i,
    {
        let r = if results[i] {
            UnsubAckReason::Success
        } else {
            UnsubAckReason::NoSubscriptionExisted
        };
        reason_codes.push(r);
        i = i + 1;
        assert(reason_codes@ =~= results@.take(i as int).map_values(|b: bool| unsub_reason(b)));
    }
    assert(results@.take(i as int) =~= results@);
    UnsubAck { packet_id, reason_codes, properties: None }
}

/// The CONNACK for the broker's answer to a CONNECT: accepted (with
/// whether a session was present), refused by authentication
/// (`NotAuthorized`), or no answer at all (`ServerUnavailable`); and whether
/// the connection goes on.
pub fn connack_for(answer: Option<Result<bool, String>>) -> (r: (ConnAck, bool))
    ensures
        r.0@ == (ConnAckView {
            session_present: answer matches Some(Ok(true)),
            reason_code: match answer {
                Some(Ok(_)) => ConnectReason::Success,
                Some(Err(_)) => ConnectReason::NotAuthorized,
                None => ConnectReason::ServerUnavailable,
            },
            properties: None,
        }),
        r.1 == (answer matches Some(Ok(_))),
{
    match answer {
        Some(Ok(present)) => (
            ConnAck { session_present: present, reason_code: ConnectReason::Success, properties: None },
            true,
        ),
        Some(Err(_)) => (
            ConnAck { session_present: false, reason_code: ConnectReason::NotAuthorized, properties: None },
            false,
        ),
        None => (
            ConnAck {
                session_present: false,
                reason_code: ConnectReason::ServerUnavailable,
                properties: None,
            },
            false,
        ),
    }
}

/// The first packet of a connection must be CONNECT.
pub fn expect_connect(packet: ControlPacket) -> (r: Result<crate::packet::connect::Connect, ProtocolViolation>)
    ensures
        match packet@ {
            PacketView::Connect(c) => r matches Ok(x) && x@ == c,
            _ => r == Err::<crate::packet::connect::Connect, ProtocolViolation>(
                ProtocolViolation::ExpectedConnect,
            ),
        },
{
    match packet {
        ControlPacket::Connect(c) => Ok(c),
        _ => Err(ProtocolViolation::ExpectedConnect),
    }
}

/// How long a connection waits for bytes before giving up on its client:
/// one and a half keep-alive periods, or a day without keep-alive.
pub fn read_timeout_secs(keep_alive: u16) -> (r: u64)
    ensures
        r == if keep_alive > 0 {
            (keep_alive * 3 / 2) as u64
        } else {
            86400
        },
{
    if keep_alive > 0 {
        (keep_alive as u64 * 3) / 2
    } else {
        3600 * 24
    }
}

/// The protocol level a buffer announces while the first CONNECT arrives:
/// once a whole CONNECT frame is present whose level byte (the seventh body
/// byte) lies in the buffer, that byte decoded as a version.
pub open spec fn spec_peek_level(s: Seq<u8>) -> Option<u8> {
    if s.len() < 2 || s[0] / 16 != 1 {
        None
    } else {
        match spec_read_varint(s.skip(1)) {
            Err(_) => None,
            Ok((len, n)) => if s.len() < 1 + n + len || s.len() <= 1 + n + 6 {
                None
            } else {
                Some(s[1 + n + 6])
            },
        }
    }
}

/// The protocol level of the first CONNECT, read ahead of decoding it.
pub fn peek_connect_level(buf: &[u8]) -> (r: Option<u8>)
    ensures
        r == spec_peek_level(buf@),
{
    if buf.len() < 2 || buf[0] / 16 != 1 {
        return None;
    }
    let tail = &buf[1..buf.len()];
    assert(tail@ =~= buf@.skip(1));
    match read_variable_length(tail) {
        Ok((len, n)) => {
            if buf.len() - 1 - n < len || buf.len() <= 1 + n + 6 {
                None
            } else {
                Some(buf[1 + n + 6])
            }
        },
        Err(_) => None,
    }
}

} // verus!
