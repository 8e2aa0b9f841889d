//! SUBSCRIBE and SUBACK packets.

use crate::packet::opt_props;
use crate::properties::{Properties, PropertiesView};
use crate::QoS;
use vstd::prelude::*;

verus! {

/// SUBSCRIBE packet: the client asks for messages on topic filters.
#[derive(Debug, Clone, PartialEq)]
pub struct Subscribe {
    /// Packet identifier (must be non-zero).
    pub packet_id: u16,
    /// One or more topic filters with their requested QoS.
    pub filters: Vec<SubscriptionFilter>,
    /// MQTT 5.0 SUBSCRIBE properties (`None` for 3.1.1).
    pub properties: Option<Properties>,
}

/// A single topic filter within a SUBSCRIBE packet.
#[derive(Debug, Clone, PartialEq)]
pub struct SubscriptionFilter {
    /// The topic filter (may contain `+` or `#`).
    pub topic_filter: String,
    /// Maximum QoS the client wishes to receive.
    pub qos: QoS,
    /// MQTT 5.0: do not forward this client's own messages back to it.
    pub no_local: bool,
    /// MQTT 5.0: keep the publisher's RETAIN flag on forwarded messages.
    pub retain_as_published: bool,
    /// MQTT 5.0: when retained messages are sent for this subscription.
    pub retain_handling: RetainHandling,
}

/// MQTT 5.0 retain handling options of a subscription.
#[derive(Debug, Clone, Copy, PartialEq, Eq, Structural)]
pub enum RetainHandling {
    /// 0: send retained messages at subscription time.
    SendOnSubscribe,
    /// 1: send retained messages only for a new subscription.
    SendOnNewSubscription,
    /// 2: do not send retained messages at subscription time.
    DoNotSend,
}

/// The wire number of a retain handling option.
pub open spec fn retain_handling_code(r: RetainHandling) -> u8 {
    match r {
        RetainHandling::SendOnSubscribe => 0,
        RetainHandling::SendOnNewSubscription => 1,
        RetainHandling::DoNotSend => 2,
    }
}

/// The retain handling option a wire number decodes to; unknown numbers
/// decode to `SendOnSubscribe`.
pub open spec fn retain_handling_from_code(v: u8) -> RetainHandling {
    if v == 1 {
        RetainHandling::SendOnNewSubscription
    } else if v == 2 {
        RetainHandling::DoNotSend
    } else {
        RetainHandling::SendOnSubscribe
    }
}

impl RetainHandling {
    /// Decode a wire number; unknown numbers become `SendOnSubscribe`.
    pub fn from_u8(v: u8) -> (r: Self)
        ensures
            r == retain_handling_from_code(v),
    {
        match v {
            1 => Self::SendOnNewSubscription,
            2 => Self::DoNotSend,
            _ => Self::SendOnSubscribe,
        }
    }

    /// The wire number of this option.
    pub fn as_u8(self) -> (r: u8)
        ensures
            r == retain_handling_code(self),
    {
        match self {
            Self::SendOnSubscribe => 0,
            Self::SendOnNewSubscription => 1,
            Self::DoNotSend => 2,
        }
    }
}

impl Default for RetainHandling {
    fn default() -> (r: Self)
        ensures
            r == RetainHandling::SendOnSubscribe,
    {
        RetainHandling::SendOnSubscribe
    }
}

/// Decoding the wire number of a retain handling option gives it back.
pub proof fn lemma_retain_handling_roundtrip(r: RetainHandling)
    ensures
        retain_handling_from_code(retain_handling_code(r)) == r,
{
}

/// The mathematical value of a [`SubscriptionFilter`].
pub struct SubscriptionFilterView {
    pub topic_filter: Seq<char>,
    pub qos: QoS,
    pub no_local: bool,
    pub retain_as_published: bool,
    pub retain_handling: RetainHandling,
}

impl View for SubscriptionFilter {
    type V = SubscriptionFilterView;

    open spec fn view(&self) -> SubscriptionFilterView {
        SubscriptionFilterView {
            topic_filter: self.topic_filter@,
            qos: self.qos,
            no_local: self.no_local,
            retain_as_published: self.retain_as_published,
            retain_handling: self.retain_handling,
        }
    }
}

/// The views of a sequence of subscription filters.
pub open spec fn filter_views(s: Seq<SubscriptionFilter>) -> Seq<SubscriptionFilterView> {
    s.map_values(|f: SubscriptionFilter| f@)
}

/// The mathematical value of a [`Subscribe`].
pub struct SubscribeView {
    pub packet_id: u16,
    pub filters: Seq<SubscriptionFilterView>,
    pub properties: Option<PropertiesView>,
}

impl View for Subscribe {
    type V = SubscribeView;

    open spec fn view(&self) -> SubscribeView {
        SubscribeView {
            packet_id: self.packet_id,
            filters: filter_views(self.filters@),
            properties: opt_props(self.properties),
        }
    }
}

impl SubscriptionFilter {
    /// A simple subscription filter (3.1.1 style, no 5.0 options).
    pub fn new(topic_filter: String, qos: QoS) -> (r: Self)
        ensures
            r@ == (SubscriptionFilterView {
                topic_filter: topic_filter@,
                qos,
                no_local: false,
                retain_as_published: false,
                retain_handling: RetainHandling::SendOnSubscribe,
            }),
    {
        Self {
            topic_filter,
            qos,
            no_local: false,
            retain_as_published: false,
            retain_handling: RetainHandling::SendOnSubscribe,
        }
    }
}

/// SUBACK packet: the broker acknowledges a SUBSCRIBE.
#[derive(Debug, Clone, PartialEq)]
pub struct SubAck {
    /// Packet identifier matching the SUBSCRIBE.
    pub packet_id: u16,
    /// One reason code per filter of the SUBSCRIBE, in the same order.
    pub reason_codes: Vec<SubAckReason>,
    /// MQTT 5.0 SUBACK properties (`None` for 3.1.1).
    pub properties: Option<Properties>,
}

/// The mathematical value of a [`SubAck`].
pub struct SubAckView {
    pub packet_id: u16,
    pub reason_codes: Seq<SubAckReason>,
    pub properties: Option<PropertiesView>,
}

impl View for SubAck {
    type V = SubAckView;

    open spec fn view(&self) -> SubAckView {
        SubAckView {
            packet_id: self.packet_id,
            reason_codes: self.reason_codes@,
            properties: opt_props(self.properties),
        }
    }
}

/// Reason codes for each filter in a SUBACK.
#[derive(Debug, Clone, Copy, PartialEq, Eq, Structural)]
pub enum SubAckReason {
    /// 0x00: granted QoS 0.
    GrantedQoS0,
    /// 0x01: granted QoS 1.
    GrantedQoS1,
    /// 0x02: granted QoS 2.
    GrantedQoS2,
    /// 0x80: unspecified error, subscription rejected.
    UnspecifiedError,
    /// 0x83: implementation specific error.
    ImplementationSpecificError,
    /// 0x87: not authorized.
    NotAuthorized,
    /// 0x8F: topic filter invalid.
    TopicFilterInvalid,
    /// 0x91: packet identifier in use.
    PacketIdentifierInUse,
    /// 0x97: quota exceeded.
    QuotaExceeded,
    /// 0x9E: shared subscriptions not supported.
    SharedSubscriptionsNotSupported,
    /// 0xA1: subscription identifiers not supported.
    SubscriptionIdentifiersNotSupported,
    /// 0xA2: wildcard subscriptions not supported.
    WildcardSubscriptionsNotSupported,
}

/// The wire code of a SubAckReason.
pub open spec fn suback_reason_code(r: SubAckReason) -> u8 {
    match r {
        SubAckReason::GrantedQoS0 => 0x00,
        SubAckReason::GrantedQoS1 => 0x01,
        SubAckReason::GrantedQoS2 => 0x02,
        SubAckReason::UnspecifiedError => 0x80,
        SubAckReason::ImplementationSpecificError => 0x83,
        SubAckReason::NotAuthorized => 0x87,
        SubAckReason::TopicFilterInvalid => 0x8F,
        SubAckReason::PacketIdentifierInUse => 0x91,
        SubAckReason::QuotaExceeded => 0x97,
        SubAckReason::SharedSubscriptionsNotSupported => 0x9E,
        SubAckReason::SubscriptionIdentifiersNotSupported => 0xA1,
        SubAckReason::WildcardSubscriptionsNotSupported => 0xA2,
    }
}

/// The SubAckReason a wire code decodes to; unknown codes decode to `UnspecifiedError`.
pub open spec fn suback_reason_from_code(v: u8) -> SubAckReason {
    if v == 0x00 {
        SubAckReason::GrantedQoS0
    } else if v == 0x01 {
        SubAckReason::GrantedQoS1
    } else if v == 0x02 {
        SubAckReason::GrantedQoS2
    } else if v == 0x83 {
        SubAckReason::ImplementationSpecificError
    } else if v == 0x87 {
        SubAckReason::NotAuthorized
    } else if v == 0x8F {
        SubAckReason::TopicFilterInvalid
    } else if v == 0x91 {
        SubAckReason::PacketIdentifierInUse
    } else if v == 0x97 {
        SubAckReason::QuotaExceeded
    } else if v == 0x9E {
        SubAckReason::SharedSubscriptionsNotSupported
    } else if v == 0xA1 {
        SubAckReason::SubscriptionIdentifiersNotSupported
    } else if v == 0xA2 {
        SubAckReason::WildcardSubscriptionsNotSupported
    } else {
        SubAckReason::UnspecifiedError
    }
}

impl SubAckReason {
    /// Decode a wire code; unknown codes decode to `UnspecifiedError`.
    pub fn from_u8(v: u8) -> (r: Self)
        ensures
            r == suback_reason_from_code(v),
    {
        match v {
            0x00 => Self::GrantedQoS0,
            0x01 => Self::GrantedQoS1,
            0x02 => Self::GrantedQoS2,
            0x80 => Self::UnspecifiedError,
            0x83 => Self::ImplementationSpecificError,
            0x87 => Self::NotAuthorized,
            0x8F => Self::TopicFilterInvalid,
            0x91 => Self::PacketIdentifierInUse,
            0x97 => Self::QuotaExceeded,
            0x9E => Self::SharedSubscriptionsNotSupported,
            0xA1 => Self::SubscriptionIdentifiersNotSupported,
            0xA2 => Self::WildcardSubscriptionsNotSupported,
            _ => Self::UnspecifiedError,
        }
    }

    /// The wire code of this reason.
    pub fn as_u8(self) -> (r: u8)
        ensures
            r == suback_reason_code(self),
    {
        match self {
            Self::GrantedQoS0 => 0x00,
            Self::GrantedQoS1 => 0x01,
            Self::GrantedQoS2 => 0x02,
            Self::UnspecifiedError => 0x80,
            Self::ImplementationSpecificError => 0x83,
            Self::NotAuthorized => 0x87,
            Self::TopicFilterInvalid => 0x8F,
            Self::PacketIdentifierInUse => 0x91,
            Self::QuotaExceeded => 0x97,
            Self::SharedSubscriptionsNotSupported => 0x9E,
            Self::SubscriptionIdentifiersNotSupported => 0xA1,
            Self::WildcardSubscriptionsNotSupported => 0xA2,
        }
    }
}

/// Decoding the wire code of a SubAckReason gives it back.
pub proof fn lemma_suback_reason_roundtrip(r: SubAckReason)
    ensures
        suback_reason_from_code(suback_reason_code(r)) == r,
{
}

/// The QoS a SUBACK reason grants, if it grants one.
pub open spec fn granted_qos_of(r: SubAckReason) -> Option<QoS> {
    match r {
        SubAckReason::GrantedQoS0 => Some(QoS::AtMostOnce),
        SubAckReason::GrantedQoS1 => Some(QoS::AtLeastOnce),
        SubAckReason::GrantedQoS2 => Some(QoS::ExactlyOnce),
        _ => None,
    }
}

impl SubAckReason {
    /// The QoS this reason grants, if it is a success.
    pub fn granted_qos(self) -> (r: Option<QoS>)
        ensures
            r == granted_qos_of(self),
    {
        match self {
            Self::GrantedQoS0 => Some(QoS::AtMostOnce),
            Self::GrantedQoS1 => Some(QoS::AtLeastOnce),
            Self::GrantedQoS2 => Some(QoS::ExactlyOnce),
            _ => None,
        }
    }

    /// True if the subscription was granted.
    pub fn is_success(self) -> (r: bool)
        ensures
            r == granted_qos_of(self) is Some,
    {
        self.granted_qos().is_some()
    }
}

} // verus!
