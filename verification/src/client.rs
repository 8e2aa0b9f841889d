//! The decisions of the MQTT client: the packets it sends for each
//! request, what it answers to the broker's packets, and which waiting
//! request an acknowledgement completes.  The I/O layer performs the
//! actions and keeps the callers waiting.

use crate::packet::connect::{Connect, ConnectReason, ConnectView};
use crate::packet::disconnect::Disconnect;
use crate::packet::puback::{AckView, PubAck, PubComp, PubReason, PubRec, PubRel};
use crate::packet::publish::{Publish, PublishView};
use crate::packet::subscribe::{RetainHandling, Subscribe, SubscribeView, SubscriptionFilter, SubscriptionFilterView};
use crate::packet::unsubscribe::{Unsubscribe, UnsubscribeView};
use crate::packet::{ControlPacket, PacketView};
use crate::properties::{opt_bin, opt_str};
use crate::broker::session::next_id;
use crate::topic::str_eq;
use crate::version::ProtocolVersion;
use crate::QoS;
use vstd::prelude::*;

verus! {

/// A message the client received.
#[derive(Debug, Clone)]
pub struct PublishMessage {
    pub topic: String,
    pub payload: Vec<u8>,
    pub qos: QoS,
    pub retain: bool,
}

/// The mathematical value of a [`PublishMessage`].
pub struct MessageView {
    pub topic: Seq<char>,
    pub payload: Seq<u8>,
    pub qos: QoS,
    pub retain: bool,
}

impl View for PublishMessage {
    type V = MessageView;

    open spec fn view(&self) -> MessageView {
        MessageView { topic: self.topic@, payload: self.payload@, qos: self.qos, retain: self.retain }
    }
}

/// Settings of a client connection.
#[derive(Debug, Clone)]
pub struct ClientBuilder {
    pub host: String,
    pub port: u16,
    pub client_id: String,
    pub clean_start: bool,
    pub keep_alive: u16,
    pub username: Option<String>,
    pub password: Option<Vec<u8>>,
    pub version: ProtocolVersion,
}

impl ClientBuilder {
    /// Settings for a broker at `host:port`: empty client id, clean start,
    /// 60 s keep-alive, no credentials, MQTT 5.0.
    pub fn new(host: String, port: u16) -> (r: Self)
        ensures
            r.host@ == host@,
            r.port == port,
            r.client_id@.len() == 0,
            r.clean_start,
            r.keep_alive == 60,
            r.username is None,
            r.password is None,
            r.version == ProtocolVersion::V500,
    {
        ClientBuilder {
            host,
            port,
            client_id: String::new(),
            clean_start: true,
            keep_alive: 60,
            username: None,
            password: None,
            version: ProtocolVersion::V500,
        }
    }

    /// Set the client identifier.
    pub fn client_id(self, id: String) -> (r: Self)
        ensures
            r.client_id@ == id@,
            r.host == self.host,
            r.port == self.port,
            r.clean_start == self.clean_start,
            r.keep_alive == self.keep_alive,
            r.username == self.username,
            r.password == self.password,
            r.version == self.version,
    {
        ClientBuilder { client_id: id, ..self }
    }

    /// Set whether the session starts clean.
    pub fn clean_start(self, clean: bool) -> (r: Self)
        ensures
            r.clean_start == clean,
            r.host == self.host,
            r.port == self.port,
            r.client_id == self.client_id,
            r.keep_alive == self.keep_alive,
            r.username == self.username,
            r.password == self.password,
            r.version == self.version,
    {
        ClientBuilder { clean_start: clean, ..self }
    }

    /// Set the keep-alive interval in seconds.
    pub fn keep_alive(self, interval: u16) -> (r: Self)
        ensures
            r.keep_alive == interval,
            r.host == self.host,
            r.port == self.port,
            r.client_id == self.client_id,
            r.clean_start == self.clean_start,
            r.username == self.username,
            r.password == self.password,
            r.version == self.version,
    {
        ClientBuilder { keep_alive: interval, ..self }
    }

    /// Set the user name and password.
    pub fn credentials(self, username: String, password: Vec<u8>) -> (r: Self)
        ensures
            r.username == Some(username),
            r.password == Some(password),
            r.host == self.host,
            r.port == self.port,
            r.client_id == self.client_id,
            r.clean_start == self.clean_start,
            r.keep_alive == self.keep_alive,
            r.version == self.version,
    {
        ClientBuilder { username: Some(username), password: Some(password), ..self }
    }

    /// Set the protocol version.
    pub fn version(self, ver: ProtocolVersion) -> (r: Self)
        ensures
            r.version == ver,
            r.host == self.host,
            r.port == self.port,
            r.client_id == self.client_id,
            r.clean_start == self.clean_start,
            r.keep_alive == self.keep_alive,
            r.username == self.username,
            r.password == self.password,
    {
        ClientBuilder { version: ver, ..self }
    }
}

/// A request of the client that waits for the broker's acknowledgement.
#[derive(Debug, Clone, Copy, PartialEq, Eq, Structural, Hash)]
pub enum Waiting {
    /// A SUBSCRIBE waits for its SUBACK.
    Subscribe,
    /// An UNSUBSCRIBE waits for its UNSUBACK.
    Unsubscribe,
    /// A QoS 1 PUBLISH waits for its PUBACK.
    PubAck,
    /// A QoS 2 PUBLISH waits for its PUBCOMP.
    PubComp,
}

/// One thing the client does, in order.
#[derive(Debug)]
pub enum ClientAction {
    /// Hand a received message to the application.
    Deliver(PublishMessage),
    /// Write a packet to the broker.
    Write(ControlPacket),
    /// The waiting request of this kind is done.
    Complete(Waiting),
}

/// The mathematical value of a [`ClientAction`].
pub enum ClientActionView {
    Deliver(MessageView),
    Write(PacketView),
    Complete(Waiting),
}

impl View for ClientAction {
    type V = ClientActionView;

    open spec fn view(&self) -> ClientActionView {
        match self {
            ClientAction::Deliver(m) => ClientActionView::Deliver(m@),
            ClientAction::Write(p) => ClientActionView::Write(p@),
            ClientAction::Complete(w) => ClientActionView::Complete(*w),
        }
    }
}

/// The views of a list of actions.
pub open spec fn client_action_views(s: Seq<ClientAction>) -> Seq<ClientActionView> {
    s.map_values(|a: ClientAction| a@)
}

/// The plain acknowledgement with reason `Success` and no properties.
pub open spec fn plain_ack(id: u16) -> AckView {
    AckView { packet_id: id, reason_code: PubReason::Success, properties: None }
}

/// The outcome of the handshake: the broker's answer to CONNECT.
#[derive(Debug, Clone, Copy, PartialEq, Eq, Structural)]
pub enum HandshakeOutcome {
    /// CONNACK with `Success`.
    Accepted,
    /// CONNACK with another reason.
    Rejected(ConnectReason),
    /// Some other packet came first.
    Unexpected,
}

/// The state of a client connection.
pub struct ClientState {
    pub version: ProtocolVersion,
    pub client_id: String,
    pub clean_start: bool,
    pub keep_alive: u16,
    pub username: Option<String>,
    pub password: Option<Vec<u8>>,
    /// The next outgoing packet identifier.
    pub next_packet_id: u16,
    /// The packet identifier each waiting request waits with.
    pub pending_sub: Option<u16>,
    pub pending_unsub: Option<u16>,
    pub pending_puback: Option<u16>,
    pub pending_pubrec: Option<u16>,
}

/// Where the client's waiting requests stand: (subscribe, unsubscribe,
/// QoS 1 publish, QoS 2 publish).
pub type PendingView = (Option<u16>, Option<u16>, Option<u16>, Option<u16>);

/// The waiting request an acknowledgement with identifier `id` completes,
/// if the request waits with that identifier.
pub open spec fn completes(pending: Option<u16>, id: u16) -> bool {
    pending == Some(id)
}

/// What the client does with a packet from the broker.
pub open spec fn client_packet_actions(p: PacketView, w: PendingView) -> Seq<ClientActionView> {
    match p {
        PacketView::Publish(x) => seq![
            ClientActionView::Deliver(
                MessageView { topic: x.topic, payload: x.payload, qos: x.qos, retain: x.retain },
            ),
        ] + if x.qos == QoS::AtLeastOnce {
            seq![
                ClientActionView::Write(
                    PacketView::PubAck(
                        plain_ack(
                            match x.packet_id {
                                Some(id) => id,
                                None => 0,
                            },
                        ),
                    ),
                ),
            ]
        } else if x.qos == QoS::ExactlyOnce {
            seq![
                ClientActionView::Write(
                    PacketView::PubRec(
                        plain_ack(
                            match x.packet_id {
                                Some(id) => id,
                                None => 0,
                            },
                        ),
                    ),
                ),
            ]
        } else {
            Seq::empty()
        },
        PacketView::PubAck(a) => if completes(w.2, a.packet_id) {
            seq![ClientActionView::Complete(Waiting::PubAck)]
        } else {
            Seq::empty()
        },
        PacketView::PubRec(a) => seq![ClientActionView::Write(PacketView::PubRel(plain_ack(a.packet_id)))],
        PacketView::PubRel(a) => seq![ClientActionView::Write(PacketView::PubComp(plain_ack(a.packet_id)))],
        PacketView::PubComp(a) => if completes(w.3, a.packet_id) {
            seq![ClientActionView::Complete(Waiting::PubComp)]
        } else {
            Seq::empty()
        },
        PacketView::SubAck(a) => if completes(w.0, a.packet_id) {
            seq![ClientActionView::Complete(Waiting::Subscribe)]
        } else {
            Seq::empty()
        },
        PacketView::UnsubAck(a) => if completes(w.1, a.packet_id) {
            seq![ClientActionView::Complete(Waiting::Unsubscribe)]
        } else {
            Seq::empty()
        },
        _ => Seq::empty(),
    }
}

/// An incoming PUBLISH is delivered to the application with its own topic,
/// payload, QoS and RETAIN flag.  A QoS 1 message with packet identifier
/// `id` is then answered with PUBACK `id`, a QoS 2 message with PUBREC `id`,
/// both with reason Success and no properties; a QoS 0 message is answered
/// with nothing.
pub proof fn lemma_incoming_publish_answered(x: PublishView, w: PendingView)
    ensures
        client_packet_actions(PacketView::Publish(x), w)[0] == ClientActionView::Deliver(
            MessageView { topic: x.topic, payload: x.payload, qos: x.qos, retain: x.retain },
        ),
        x.qos == QoS::AtMostOnce ==> client_packet_actions(PacketView::Publish(x), w).len() == 1,
        x.qos == QoS::AtLeastOnce && x.packet_id is Some ==> client_packet_actions(
            PacketView::Publish(x),
            w,
        ).len() == 2 && client_packet_actions(PacketView::Publish(x), w)[1]
            == ClientActionView::Write(
            PacketView::PubAck(
                AckView {
                    packet_id: x.packet_id->0,
                    reason_code: PubReason::Success,
                    properties: None,
                },
            ),
        ),
        x.qos == QoS::ExactlyOnce && x.packet_id is Some ==> client_packet_actions(
            PacketView::Publish(x),
            w,
        ).len() == 2 && client_packet_actions(PacketView::Publish(x), w)[1]
            == ClientActionView::Write(
            PacketView::PubRec(
                AckView {
                    packet_id: x.packet_id->0,
                    reason_code: PubReason::Success,
                    properties: None,
                },
            ),
        ),
{
}

/// The client's half of the QoS 2 handshakes: a PUBREC from the broker for
/// packet identifier `id` is answered with PUBREL `id`, and a PUBREL with
/// PUBCOMP `id`, both with reason Success and no properties, and nothing
/// else is done.
pub proof fn lemma_qos2_handshake_answered(a: AckView, w: PendingView)
    ensures
        client_packet_actions(PacketView::PubRec(a), w) == seq![
            ClientActionView::Write(
                PacketView::PubRel(
                    AckView { packet_id: a.packet_id, reason_code: PubReason::Success, properties: None },
                ),
            ),
        ],
        client_packet_actions(PacketView::PubRel(a), w) == seq![
            ClientActionView::Write(
                PacketView::PubComp(
                    AckView { packet_id: a.packet_id, reason_code: PubReason::Success, properties: None },
                ),
            ),
        ],
{
}

/// The waiting requests after a packet from the broker: a completed one
/// stops waiting.
pub open spec fn pending_after(p: PacketView, w: PendingView) -> PendingView {
    match p {
        PacketView::PubAck(a) => if completes(w.2, a.packet_id) {
            (w.0, w.1, None, w.3)
        } else {
            w
        },
        PacketView::PubComp(a) => if completes(w.3, a.packet_id) {
            (w.0, w.1, w.2, None)
        } else {
            w
        },
        PacketView::SubAck(a) => if completes(w.0, a.packet_id) {
            (None, w.1, w.2, w.3)
        } else {
            w
        },
        PacketView::UnsubAck(a) => if completes(w.1, a.packet_id) {
            (w.0, None, w.2, w.3)
        } else {
            w
        },
        _ => w,
    }
}

impl ClientState {
    /// Where the waiting requests stand.
    pub open spec fn pending(&self) -> PendingView {
        (self.pending_sub, self.pending_unsub, self.pending_puback, self.pending_pubrec)
    }

    /// The state of a new connection with these settings: identifiers start
    /// at 1, nothing waits.
    pub fn new(settings: &ClientBuilder) -> (r: Self)
        ensures
            r.version == settings.version,
            r.client_id@ == settings.client_id@,
            r.clean_start == settings.clean_start,
            r.keep_alive == settings.keep_alive,
            opt_str(r.username) == opt_str(settings.username),
            opt_bin(r.password) == opt_bin(settings.password),
            r.next_packet_id == 1,
            r.pending() == (None::<u16>, None::<u16>, None::<u16>, None::<u16>),
    {
        let username = match &settings.username {
            Some(u) => Some(u.clone()),
            None => None,
        };
        let password = match &settings.password {
            Some(p) => Some(p.clone()),
            None => None,
        };
        ClientState {
            version: settings.version,
            client_id: settings.client_id.clone(),
            clean_start: settings.clean_start,
            keep_alive: settings.keep_alive,
            username,
            password,
            next_packet_id: 1,
            pending_sub: None,
            pending_unsub: None,
            pending_puback: None,
            pending_pubrec: None,
        }
    }

    /// The CONNECT the client opens with: its settings, no Will, no
    /// properties.
    pub fn connect_packet(&self) -> (r: Connect)
        ensures
            r@ == (ConnectView {
                client_id: self.client_id@,
                clean_start: self.clean_start,
                keep_alive: self.keep_alive,
                username: opt_str(self.username),
                password: opt_bin(self.password),
                will: None,
                properties: None,
            }),
    {
        let username = match &self.username {
            Some(u) => Some(u.clone()),
            None => None,
        };
        let password = match &self.password {
            Some(p) => Some(p.clone()),
            None => None,
        };
        Connect {
            client_id: self.client_id.clone(),
            clean_start: self.clean_start,
            keep_alive: self.keep_alive,
            username,
            password,
            will: None,
            properties: None,
        }
    }

    /// Hand out the next packet identifier: 1, 2, ... 65535, then 1 again.
    pub fn get_next_packet_id(&mut self) -> (r: u16)
        ensures
            r == old(self).next_packet_id,
            final(self).next_packet_id == next_id(old(self).next_packet_id),
            final(self).pending() == old(self).pending(),
            final(self).version == old(self).version,
    {
        let id = self.next_packet_id;
        if self.next_packet_id == u16::MAX {
            self.next_packet_id = 1;
        } else {
            self.next_packet_id = self.next_packet_id + 1;
        }
        id
    }

    /// The PUBLISH for a message the application sends.  QoS 1 and 2 take a
    /// packet identifier and wait (for PUBACK, respectively PUBCOMP); QoS 0
    /// is done once written.
    pub fn publish_packet(&mut self, topic: String, payload: Vec<u8>, qos: QoS, retain: bool) -> (r: Publish)
        ensures
            r@ == (PublishView {
                dup: false,
                qos,
                retain,
                topic: topic@,
                packet_id: if qos == QoS::AtMostOnce {
                    None
                } else {
                    Some(old(self).next_packet_id)
                },
                payload: payload@,
                properties: None,
            }),
            final(self).next_packet_id == if qos == QoS::AtMostOnce {
                old(self).next_packet_id
            } else {
                next_id(old(self).next_packet_id)
            },
            final(self).pending() == if qos == QoS::AtLeastOnce {
                (old(self).pending().0, old(self).pending().1, Some(old(self).next_packet_id), old(self).pending().3)
            } else if qos == QoS::ExactlyOnce {
                (old(self).pending().0, old(self).pending().1, old(self).pending().2, Some(old(self).next_packet_id))
            } else {
                old(self).pending()
            },
            final(self).version == old(self).version,
    {
        let packet_id = if qos == QoS::AtMostOnce {
            None
        } else {
            Some(self.get_next_packet_id())
        };
        if qos == QoS::AtLeastOnce {
            self.pending_puback = packet_id;
        } else if qos == QoS::ExactlyOnce {
            self.pending_pubrec = packet_id;
        }
        Publish { dup: false, qos, retain, topic, packet_id, payload, properties: None }
    }

    /// The SUBSCRIBE for one topic filter with default options; it waits
    /// for its SUBACK.
    pub fn subscribe_packet(&mut self, filter: String, qos: QoS) -> (r: Subscribe)
        ensures
            r@ == (SubscribeView {
                packet_id: old(self).next_packet_id,
                filters: seq![
                    SubscriptionFilterView {
                        topic_filter: filter@,
                        qos,
                        no_local: false,
                        retain_as_published: false,
                        retain_handling: RetainHandling::SendOnSubscribe,
                    },
                ],
                properties: None,
            }),
            final(self).next_packet_id == next_id(old(self).next_packet_id),
            final(self).pending() == (Some(old(self).next_packet_id), old(self).pending().1, old(self).pending().2, old(self).pending().3),
            final(self).version == old(self).version,
    {
        let packet_id = self.get_next_packet_id();
        let f = SubscriptionFilter {
            topic_filter: filter,
            qos,
            no_local: false,
            retain_as_published: false,
            retain_handling: RetainHandling::SendOnSubscribe,
        };
        let ghost fv = f@;
        let mut filters: Vec<SubscriptionFilter> = Vec::new();
        filters.push(f);
        self.pending_sub = Some(packet_id);
        let r = Subscribe { packet_id, filters, properties: None };
        assert(r@.filters =~= seq![fv]);
        r
    }

    /// The UNSUBSCRIBE for one topic filter; it waits for its UNSUBACK.
    pub fn unsubscribe_packet(&mut self, filter: String) -> (r: Unsubscribe)
        ensures
            r@ == (UnsubscribeView { packet_id: old(self).next_packet_id, filters: seq![filter@], properties: None }),
            final(self).next_packet_id == next_id(old(self).next_packet_id),
            final(self).pending() == (old(self).pending().0, Some(old(self).next_packet_id), old(self).pending().2, old(self).pending().3),
            final(self).version == old(self).version,
    {
        let packet_id = self.get_next_packet_id();
        let ghost fv = filter@;
        let mut filters: Vec<String> = Vec::new();
        filters.push(filter);
        self.pending_unsub = Some(packet_id);
        let r = Unsubscribe { packet_id, filters, properties: None };
        assert(r@.filters =~= seq![fv]);
        r
    }

    /// Decide what to do with a packet from the broker.
    pub fn process_packet(&mut self, packet: ControlPacket) -> (r: Vec<ClientAction>)
        ensures
            client_action_views(r@) == client_packet_actions(packet@, old(self).pending()),
            final(self).pending() == pending_after(packet@, old(self).pending()),
            final(self).next_packet_id == old(self).next_packet_id,
            final(self).version == old(self).version,
    {
        let mut out: Vec<ClientAction> = Vec::new();
        match packet {
            ControlPacket::Publish(p) => {
                let packet_id = match p.packet_id {
                    Some(id) => id,
                    None => 0,
                };
                let qos = p.qos;
                out.push(ClientAction::Deliver(PublishMessage { topic: p.topic, payload: p.payload, qos, retain: p.retain }));
                if qos == QoS::AtLeastOnce {
                    out.push(ClientAction::Write(ControlPacket::PubAck(PubAck::success(packet_id))));
                } else if qos == QoS::ExactlyOnce {
                    out.push(ClientAction::Write(ControlPacket::PubRec(PubRec::success(packet_id))));
                }
            },
            ControlPacket::PubAck(a) => {
                if self.pending_puback == Some(a.packet_id) {
                    self.pending_puback = None;
                    out.push(ClientAction::Complete(Waiting::PubAck));
                }
            },
            ControlPacket::PubRec(a) => {
                out.push(ClientAction::Write(ControlPacket::PubRel(PubRel::success(a.packet_id))));
            },
            ControlPacket::PubRel(a) => {
                out.push(ClientAction::Write(ControlPacket::PubComp(PubComp::success(a.packet_id))));
            },
            ControlPacket::PubComp(a) => {
                if self.pending_pubrec == Some(a.packet_id) {
                    self.pending_pubrec = None;
                    out.push(ClientAction::Complete(Waiting::PubComp));
                }
            },
            ControlPacket::SubAck(a) => {
                if self.pending_sub == Some(a.packet_id) {
                    self.pending_sub = None;
                    out.push(ClientAction::Complete(Waiting::Subscribe));
                }
            },
            ControlPacket::UnsubAck(a) => {
                if self.pending_unsub == Some(a.packet_id) {
                    self.pending_unsub = None;
                    out.push(ClientAction::Complete(Waiting::Unsubscribe));
                }
            },
            _ => {},
        }
        assert(client_action_views(out@) =~= client_packet_actions(packet@, old(self).pending()));
        out
    }
}

/// What a PUBLISH the application sends waits for before the application
/// is answered: nothing at QoS 0 (it is done once written), PUBACK at
/// QoS 1, PUBCOMP at QoS 2.
pub fn publish_waits_for(qos: QoS) -> (r: Option<Waiting>)
    ensures
        r == match qos {
            QoS::AtMostOnce => None::<Waiting>,
            QoS::AtLeastOnce => Some(Waiting::PubAck),
            QoS::ExactlyOnce => Some(Waiting::PubComp),
        },
{
    match qos {
        QoS::AtMostOnce => None,
        QoS::AtLeastOnce => Some(Waiting::PubAck),
        QoS::ExactlyOnce => Some(Waiting::PubComp),
    }
}

/// The DISCONNECT the client ends with.
pub fn disconnect_packet() -> (r: Disconnect)
    ensures
        r@ == (crate::packet::disconnect::DisconnectView {
            reason_code: crate::packet::disconnect::DisconnectReason::NormalDisconnection,
            properties: None,
        }),
{
    Disconnect::normal()
}

/// The broker's answer to CONNECT.
pub fn handshake_outcome(packet: &ControlPacket) -> (r: HandshakeOutcome)
    ensures
        match packet@ {
            PacketView::ConnAck(a) => if a.reason_code == ConnectReason::Success {
                r == HandshakeOutcome::Accepted
            } else {
                r == HandshakeOutcome::Rejected(a.reason_code)
            },
            _ => r == HandshakeOutcome::Unexpected,
        },
{
    match packet {
        ControlPacket::ConnAck(a) => {
            if a.reason_code.is_success() {
                HandshakeOutcome::Accepted
            } else {
                HandshakeOutcome::Rejected(a.reason_code)
            }
        },
        _ => HandshakeOutcome::Unexpected,
    }
}

/// How often the client pings: every keep-alive period, or once a day
/// without keep-alive.
pub fn ping_interval_secs(keep_alive: u16) -> (r: u64)
    ensures
        r == if keep_alive > 0 {
            keep_alive as u64
        } else {
            86400
        },
{
    if keep_alive > 0 {
        keep_alive as u64
    } else {
        3600 * 24
    }
}

/// The protocol version a command line asks for: "3" or "3.1.1" is MQTT
/// 3.1.1, anything else MQTT 5.0.
pub fn version_from_arg(arg: &str) -> (r: ProtocolVersion)
    ensures
        r == if arg@ == "3"@ || arg@ == "3.1.1"@ {
            ProtocolVersion::V311
        } else {
            ProtocolVersion::V500
        },
{
    if str_eq(arg, "3") || str_eq(arg, "3.1.1") {
        ProtocolVersion::V311
    } else {
        ProtocolVersion::V500
    }
}

/// The QoS level a command line asks for: 1 and 2 are themselves, any
/// other number is QoS 0.
pub fn qos_from_arg(n: u8) -> (r: QoS)
    ensures
        r == if n == 1 {
            QoS::AtLeastOnce
        } else if n == 2 {
            QoS::ExactlyOnce
        } else {
            QoS::AtMostOnce
        },
{
    match n {
        1 => QoS::AtLeastOnce,
        2 => QoS::ExactlyOnce,
        _ => QoS::AtMostOnce,
    }
}

} // verus!
