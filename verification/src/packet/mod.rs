//! All MQTT control packet types.
//!
//! MQTT 3.1.1 defines 14 packet types; MQTT 5.0 adds AUTH.

pub mod auth;
pub mod connect;
pub mod disconnect;
pub mod ping;
pub mod puback;
pub mod publish;
pub mod suback;
pub mod subscribe;
pub mod unsuback;
pub mod unsubscribe;

pub use auth::Auth;
pub use connect::{ConnAck, Connect, ConnectReason, Will};
pub use disconnect::Disconnect;
pub use ping::{PingReq, PingResp};
pub use puback::{PubAck, PubComp, PubRec, PubRel};
pub use publish::Publish;
pub use suback::SubAck;
pub use subscribe::{RetainHandling, Subscribe, SubscriptionFilter};
pub use unsuback::UnsubAck;
pub use unsubscribe::Unsubscribe;

use crate::properties::{Properties, PropertiesView};
use vstd::prelude::*;
use auth::AuthView;
use connect::{ConnAckView, ConnectView};
use disconnect::DisconnectView;
use puback::AckView;
use publish::PublishView;
use subscribe::{SubAckView, SubscribeView};
use unsubscribe::{UnsubAckView, UnsubscribeView};

verus! {

/// The view of optional properties.
pub open spec fn opt_props(o: Option<Properties>) -> Option<PropertiesView> {
    match o {
        Some(p) => Some(p@),
        None => None,
    }
}

/// A fully decoded MQTT control packet (either version).
#[derive(Debug, Clone, PartialEq)]
pub enum ControlPacket {
    Connect(Connect),
    ConnAck(ConnAck),
    Publish(Publish),
    PubAck(PubAck),
    PubRec(PubRec),
    PubRel(PubRel),
    PubComp(PubComp),
    Subscribe(Subscribe),
    SubAck(SubAck),
    Unsubscribe(Unsubscribe),
    UnsubAck(UnsubAck),
    PingReq(PingReq),
    PingResp(PingResp),
    Disconnect(Disconnect),
    /// MQTT 5.0 only.
    Auth(Auth),
}

/// The mathematical value of a [`ControlPacket`].
pub enum PacketView {
    Connect(ConnectView),
    ConnAck(ConnAckView),
    Publish(PublishView),
    PubAck(AckView),
    PubRec(AckView),
    PubRel(AckView),
    PubComp(AckView),
    Subscribe(SubscribeView),
    SubAck(SubAckView),
    Unsubscribe(UnsubscribeView),
    UnsubAck(UnsubAckView),
    PingReq,
    PingResp,
    Disconnect(DisconnectView),
    Auth(AuthView),
}

impl View for ControlPacket {
    type V = PacketView;

    open spec fn view(&self) -> PacketView {
        match self {
            ControlPacket::Connect(p) => PacketView::Connect(p@),
            ControlPacket::ConnAck(p) => PacketView::ConnAck(p@),
            ControlPacket::Publish(p) => PacketView::Publish(p@),
            ControlPacket::PubAck(p) => PacketView::PubAck(p@),
            ControlPacket::PubRec(p) => PacketView::PubRec(p@),
            ControlPacket::PubRel(p) => PacketView::PubRel(p@),
            ControlPacket::PubComp(p) => PacketView::PubComp(p@),
            ControlPacket::Subscribe(p) => PacketView::Subscribe(p@),
            ControlPacket::SubAck(p) => PacketView::SubAck(p@),
            ControlPacket::Unsubscribe(p) => PacketView::Unsubscribe(p@),
            ControlPacket::UnsubAck(p) => PacketView::UnsubAck(p@),
            ControlPacket::PingReq(_) => PacketView::PingReq,
            ControlPacket::PingResp(_) => PacketView::PingResp,
            ControlPacket::Disconnect(p) => PacketView::Disconnect(p@),
            ControlPacket::Auth(p) => PacketView::Auth(p@),
        }
    }
}

/// The name of a packet's type, as the specification writes it.
pub open spec fn packet_type_name_of(p: PacketView) -> Seq<char> {
    match p {
        PacketView::Connect(_) => "CONNECT"@,
        PacketView::ConnAck(_) => "CONNACK"@,
        PacketView::Publish(_) => "PUBLISH"@,
        PacketView::PubAck(_) => "PUBACK"@,
        PacketView::PubRec(_) => "PUBREC"@,
        PacketView::PubRel(_) => "PUBREL"@,
        PacketView::PubComp(_) => "PUBCOMP"@,
        PacketView::Subscribe(_) => "SUBSCRIBE"@,
        PacketView::SubAck(_) => "SUBACK"@,
        PacketView::Unsubscribe(_) => "UNSUBSCRIBE"@,
        PacketView::UnsubAck(_) => "UNSUBACK"@,
        PacketView::PingReq => "PINGREQ"@,
        PacketView::PingResp => "PINGRESP"@,
        PacketView::Disconnect(_) => "DISCONNECT"@,
        PacketView::Auth(_) => "AUTH"@,
    }
}

impl ControlPacket {
    /// The name of this packet's type ("CONNECT", "PUBLISH", ...).
    pub fn packet_type_name(&self) -> (r: &'static str)
        ensures
            r@ == packet_type_name_of(self@),
    {
        match self {
            ControlPacket::Connect(_) => "CONNECT",
            ControlPacket::ConnAck(_) => "CONNACK",
            ControlPacket::Publish(_) => "PUBLISH",
            ControlPacket::PubAck(_) => "PUBACK",
            ControlPacket::PubRec(_) => "PUBREC",
            ControlPacket::PubRel(_) => "PUBREL",
            ControlPacket::PubComp(_) => "PUBCOMP",
            ControlPacket::Subscribe(_) => "SUBSCRIBE",
            ControlPacket::SubAck(_) => "SUBACK",
            ControlPacket::Unsubscribe(_) => "UNSUBSCRIBE",
            ControlPacket::UnsubAck(_) => "UNSUBACK",
            ControlPacket::PingReq(_) => "PINGREQ",
            ControlPacket::PingResp(_) => "PINGRESP",
            ControlPacket::Disconnect(_) => "DISCONNECT",
            ControlPacket::Auth(_) => "AUTH",
        }
    }
}

} // verus!
