//! PUBLISH packet.

use crate::packet::opt_props;
use crate::properties::{Properties, PropertiesView};
use crate::QoS;
use vstd::prelude::*;

verus! {

/// PUBLISH packet: carries an application message from client to broker or
/// from broker to client.
#[derive(Debug, Clone, PartialEq)]
pub struct Publish {
    /// DUP flag: a re-delivery of an earlier QoS 1/2 message.
    pub dup: bool,
    /// Quality of Service of this message.
    pub qos: QoS,
    /// RETAIN flag: the broker keeps this as the last known value of the topic.
    pub retain: bool,
    /// The topic the message is published on.
    pub topic: String,
    /// Packet identifier, present only for QoS 1 and 2.
    pub packet_id: Option<u16>,
    /// Application message payload.
    pub payload: Vec<u8>,
    /// MQTT 5.0 PUBLISH properties (`None` for 3.1.1).
    pub properties: Option<Properties>,
}

/// The mathematical value of a [`Publish`].
pub struct PublishView {
    pub dup: bool,
    pub qos: QoS,
    pub retain: bool,
    pub topic: Seq<char>,
    pub packet_id: Option<u16>,
    pub payload: Seq<u8>,
    pub properties: Option<PropertiesView>,
}

impl View for Publish {
    type V = PublishView;

    open spec fn view(&self) -> PublishView {
        PublishView {
            dup: self.dup,
            qos: self.qos,
            retain: self.retain,
            topic: self.topic@,
            packet_id: self.packet_id,
            payload: self.payload@,
            properties: opt_props(self.properties),
        }
    }
}

impl Publish {
    /// A simple QoS 0 publish (no packet identifier).
    pub fn new(topic: String, payload: Vec<u8>) -> (r: Self)
        ensures
            r@ == (PublishView {
                dup: false,
                qos: QoS::AtMostOnce,
                retain: false,
                topic: topic@,
                packet_id: None,
                payload: payload@,
                properties: None,
            }),
    {
        Self {
            dup: false,
            qos: QoS::AtMostOnce,
            retain: false,
            topic,
            packet_id: None,
            payload,
            properties: None,
        }
    }
}

} // verus!
