//! PUBACK, PUBREC, PUBREL and PUBCOMP packets: the QoS 1 handshake
//! (PUBLISH, PUBACK) and the QoS 2 handshake (PUBLISH, PUBREC, PUBREL,
//! PUBCOMP).

use crate::packet::opt_props;
use crate::properties::{Properties, PropertiesView};
use vstd::prelude::*;

verus! {

/// Reason codes of PUBACK, PUBREC, PUBREL and PUBCOMP (MQTT 5.0); MQTT 3.1.1 only uses `Success`, which is not on the wire.
#[derive(Debug, Clone, Copy, PartialEq, Eq, Structural)]
pub enum PubReason {
    /// 0x00: success.
    Success,
    /// 0x10: no matching subscribers.
    NoMatchingSubscribers,
    /// 0x80: unspecified error.
    UnspecifiedError,
    /// 0x83: implementation specific error.
    ImplementationSpecificError,
    /// 0x87: not authorized.
    NotAuthorized,
    /// 0x90: topic name invalid.
    TopicNameInvalid,
    /// 0x91: packet identifier in use.
    PacketIdentifierInUse,
    /// 0x92: packet identifier not found.
    PacketIdentifierNotFound,
    /// 0x97: quota exceeded.
    QuotaExceeded,
    /// 0x99: payload format invalid.
    PayloadFormatInvalid,
}

/// The wire code of a PubReason.
pub open spec fn pub_reason_code(r: PubReason) -> u8 {
    match r {
        PubReason::Success => 0x00,
        PubReason::NoMatchingSubscribers => 0x10,
        PubReason::UnspecifiedError => 0x80,
        PubReason::ImplementationSpecificError => 0x83,
        PubReason::NotAuthorized => 0x87,
        PubReason::TopicNameInvalid => 0x90,
        PubReason::PacketIdentifierInUse => 0x91,
        PubReason::PacketIdentifierNotFound => 0x92,
        PubReason::QuotaExceeded => 0x97,
        PubReason::PayloadFormatInvalid => 0x99,
    }
}

/// The PubReason a wire code decodes to; unknown codes decode to `UnspecifiedError`.
pub open spec fn pub_reason_from_code(v: u8) -> PubReason {
    if v == 0x00 {
        PubReason::Success
    } else if v == 0x10 {
        PubReason::NoMatchingSubscribers
    } else if v == 0x83 {
        PubReason::ImplementationSpecificError
    } else if v == 0x87 {
        PubReason::NotAuthorized
    } else if v == 0x90 {
        PubReason::TopicNameInvalid
    } else if v == 0x91 {
        PubReason::PacketIdentifierInUse
    } else if v == 0x92 {
        PubReason::PacketIdentifierNotFound
    } else if v == 0x97 {
        PubReason::QuotaExceeded
    } else if v == 0x99 {
        PubReason::PayloadFormatInvalid
    } else {
        PubReason::UnspecifiedError
    }
}

impl PubReason {
    /// Decode a wire code; unknown codes decode to `UnspecifiedError`.
    pub fn from_u8(v: u8) -> (r: Self)
        ensures
            r == pub_reason_from_code(v),
    {
        match v {
            0x00 => Self::Success,
            0x10 => Self::NoMatchingSubscribers,
            0x80 => Self::UnspecifiedError,
            0x83 => Self::ImplementationSpecificError,
            0x87 => Self::NotAuthorized,
            0x90 => Self::TopicNameInvalid,
            0x91 => Self::PacketIdentifierInUse,
            0x92 => Self::PacketIdentifierNotFound,
            0x97 => Self::QuotaExceeded,
            0x99 => Self::PayloadFormatInvalid,
            _ => Self::UnspecifiedError,
        }
    }

    /// The wire code of this reason.
    pub fn as_u8(self) -> (r: u8)
        ensures
            r == pub_reason_code(self),
    {
        match self {
            Self::Success => 0x00,
            Self::NoMatchingSubscribers => 0x10,
            Self::UnspecifiedError => 0x80,
            Self::ImplementationSpecificError => 0x83,
            Self::NotAuthorized => 0x87,
            Self::TopicNameInvalid => 0x90,
            Self::PacketIdentifierInUse => 0x91,
            Self::PacketIdentifierNotFound => 0x92,
            Self::QuotaExceeded => 0x97,
            Self::PayloadFormatInvalid => 0x99,
        }
    }
}

impl Default for PubReason {
    fn default() -> (r: Self)
        ensures
            r == PubReason::Success,
    {
        PubReason::Success
    }
}

/// Decoding the wire code of a PubReason gives it back.
pub proof fn lemma_pub_reason_roundtrip(r: PubReason)
    ensures
        pub_reason_from_code(pub_reason_code(r)) == r,
{
}

/// The mathematical value of an acknowledgement packet; the four kinds share
/// one shape.
pub struct AckView {
    pub packet_id: u16,
    pub reason_code: PubReason,
    pub properties: Option<PropertiesView>,
}

/// PUBACK: QoS 1 acknowledgement from receiver to sender.
#[derive(Debug, Clone, PartialEq)]
pub struct PubAck {
    /// Packet identifier matching the original PUBLISH.
    pub packet_id: u16,
    /// Reason code (MQTT 5.0 only; always `Success` for 3.1.1).
    pub reason_code: PubReason,
    /// MQTT 5.0 properties (`None` for 3.1.1).
    pub properties: Option<Properties>,
}

impl View for PubAck {
    type V = AckView;

    open spec fn view(&self) -> AckView {
        AckView {
            packet_id: self.packet_id,
            reason_code: self.reason_code,
            properties: opt_props(self.properties),
        }
    }
}

impl PubAck {
    /// A simple success acknowledgement (valid for both versions).
    pub fn success(packet_id: u16) -> (r: Self)
        ensures
            r@ == (AckView { packet_id, reason_code: PubReason::Success, properties: None }),
    {
        Self { packet_id, reason_code: PubReason::Success, properties: None }
    }
}

/// PUBREC: QoS 2 step 1, the receiver confirms it received the PUBLISH.
#[derive(Debug, Clone, PartialEq)]
pub struct PubRec {
    /// Packet identifier matching the original PUBLISH.
    pub packet_id: u16,
    /// Reason code (MQTT 5.0 only; always `Success` for 3.1.1).
    pub reason_code: PubReason,
    /// MQTT 5.0 properties (`None` for 3.1.1).
    pub properties: Option<Properties>,
}

impl View for PubRec {
    type V = AckView;

    open spec fn view(&self) -> AckView {
        AckView {
            packet_id: self.packet_id,
            reason_code: self.reason_code,
            properties: opt_props(self.properties),
        }
    }
}

impl PubRec {
    /// A simple success acknowledgement (valid for both versions).
    pub fn success(packet_id: u16) -> (r: Self)
        ensures
            r@ == (AckView { packet_id, reason_code: PubReason::Success, properties: None }),
    {
        Self { packet_id, reason_code: PubReason::Success, properties: None }
    }
}

/// PUBREL: QoS 2 step 2, the sender confirms it received the PUBREC.
#[derive(Debug, Clone, PartialEq)]
pub struct PubRel {
    /// Packet identifier matching the original PUBLISH.
    pub packet_id: u16,
    /// Reason code (MQTT 5.0 only; always `Success` for 3.1.1).
    pub reason_code: PubReason,
    /// MQTT 5.0 properties (`None` for 3.1.1).
    pub properties: Option<Properties>,
}

impl View for PubRel {
    type V = AckView;

    open spec fn view(&self) -> AckView {
        AckView {
            packet_id: self.packet_id,
            reason_code: self.reason_code,
            properties: opt_props(self.properties),
        }
    }
}

impl PubRel {
    /// A simple success acknowledgement (valid for both versions).
    pub fn success(packet_id: u16) -> (r: Self)
        ensures
            r@ == (AckView { packet_id, reason_code: PubReason::Success, properties: None }),
    {
        Self { packet_id, reason_code: PubReason::Success, properties: None }
    }
}

/// PUBCOMP: QoS 2 step 3, the receiver confirms delivery is complete.
#[derive(Debug, Clone, PartialEq)]
pub struct PubComp {
    /// Packet identifier matching the original PUBLISH.
    pub packet_id: u16,
    /// Reason code (MQTT 5.0 only; always `Success` for 3.1.1).
    pub reason_code: PubReason,
    /// MQTT 5.0 properties (`None` for 3.1.1).
    pub properties: Option<Properties>,
}

impl View for PubComp {
    type V = AckView;

    open spec fn view(&self) -> AckView {
        AckView {
            packet_id: self.packet_id,
            reason_code: self.reason_code,
            properties: opt_props(self.properties),
        }
    }
}

impl PubComp {
    /// A simple success acknowledgement (valid for both versions).
    pub fn success(packet_id: u16) -> (r: Self)
        ensures
            r@ == (AckView { packet_id, reason_code: PubReason::Success, properties: None }),
    {
        Self { packet_id, reason_code: PubReason::Success, properties: None }
    }
}

} // verus!
