//! UNSUBSCRIBE and UNSUBACK packets.

use crate::packet::opt_props;
use crate::properties::{Properties, PropertiesView};
use vstd::prelude::*;

verus! {

/// UNSUBSCRIBE packet: the client asks to remove subscriptions.
#[derive(Debug, Clone, PartialEq)]
pub struct Unsubscribe {
    /// Packet identifier (must be non-zero).
    pub packet_id: u16,
    /// Topic filters to unsubscribe from.
    pub filters: Vec<String>,
    /// MQTT 5.0 UNSUBSCRIBE properties (`None` for 3.1.1).
    pub properties: Option<Properties>,
}

/// UNSUBACK packet: the broker acknowledges an UNSUBSCRIBE.
#[derive(Debug, Clone, PartialEq)]
pub struct UnsubAck {
    /// Packet identifier matching the UNSUBSCRIBE.
    pub packet_id: u16,
    /// MQTT 5.0: one reason code per filter.
    pub reason_codes: Vec<UnsubAckReason>,
    /// MQTT 5.0 UNSUBACK properties (`None` for 3.1.1).
    pub properties: Option<Properties>,
}

/// The characters of a sequence of strings.
pub open spec fn string_views(s: Seq<String>) -> Seq<Seq<char>> {
    s.map_values(|x: String| x@)
}

/// The mathematical value of an [`Unsubscribe`].
pub struct UnsubscribeView {
    pub packet_id: u16,
    pub filters: Seq<Seq<char>>,
    pub properties: Option<PropertiesView>,
}

/// The mathematical value of an [`UnsubAck`].
pub struct UnsubAckView {
    pub packet_id: u16,
    pub reason_codes: Seq<UnsubAckReason>,
    pub properties: Option<PropertiesView>,
}

impl View for Unsubscribe {
    type V = UnsubscribeView;

    open spec fn view(&self) -> UnsubscribeView {
        UnsubscribeView {
            packet_id: self.packet_id,
            filters: string_views(self.filters@),
            properties: opt_props(self.properties),
        }
    }
}

impl View for UnsubAck {
    type V = UnsubAckView;

    open spec fn view(&self) -> UnsubAckView {
        UnsubAckView {
            packet_id: self.packet_id,
            reason_codes: self.reason_codes@,
            properties: opt_props(self.properties),
        }
    }
}

/// Reason codes for each filter in an UNSUBACK (MQTT 5.0).
#[derive(Debug, Clone, Copy, PartialEq, Eq, Structural)]
pub enum UnsubAckReason {
    /// 0x00: subscription deleted.
    Success,
    /// 0x11: no subscription existed.
    NoSubscriptionExisted,
    /// 0x80: unspecified error.
    UnspecifiedError,
    /// 0x83: implementation specific error.
    ImplementationSpecificError,
    /// 0x87: not authorized.
    NotAuthorized,
    /// 0x8F: topic filter invalid.
    TopicFilterInvalid,
    /// 0x91: packet identifier in use.
    PacketIdentifierInUse,
}

/// The wire code of a UnsubAckReason.
pub open spec fn unsuback_reason_code(r: UnsubAckReason) -> u8 {
    match r {
        UnsubAckReason::Success => 0x00,
        UnsubAckReason::NoSubscriptionExisted => 0x11,
        UnsubAckReason::UnspecifiedError => 0x80,
        UnsubAckReason::ImplementationSpecificError => 0x83,
        UnsubAckReason::NotAuthorized => 0x87,
        UnsubAckReason::TopicFilterInvalid => 0x8F,
        UnsubAckReason::PacketIdentifierInUse => 0x91,
    }
}

/// The UnsubAckReason a wire code decodes to; unknown codes decode to `UnspecifiedError`.
pub open spec fn unsuback_reason_from_code(v: u8) -> UnsubAckReason {
    if v == 0x00 {
        UnsubAckReason::Success
    } else if v == 0x11 {
        UnsubAckReason::NoSubscriptionExisted
    } else if v == 0x83 {
        UnsubAckReason::ImplementationSpecificError
    } else if v == 0x87 {
        UnsubAckReason::NotAuthorized
    } else if v == 0x8F {
        UnsubAckReason::TopicFilterInvalid
    } else if v == 0x91 {
        UnsubAckReason::PacketIdentifierInUse
    } else {
        UnsubAckReason::UnspecifiedError
    }
}

impl UnsubAckReason {
    /// Decode a wire code; unknown codes decode to `UnspecifiedError`.
    pub fn from_u8(v: u8) -> (r: Self)
        ensures
            r == unsuback_reason_from_code(v),
    {
        match v {
            0x00 => Self::Success,
            0x11 => Self::NoSubscriptionExisted,
            0x80 => Self::UnspecifiedError,
            0x83 => Self::ImplementationSpecificError,
            0x87 => Self::NotAuthorized,
            0x8F => Self::TopicFilterInvalid,
            0x91 => Self::PacketIdentifierInUse,
            _ => Self::UnspecifiedError,
        }
    }

    /// The wire code of this reason.
    pub fn as_u8(self) -> (r: u8)
        ensures
            r == unsuback_reason_code(self),
    {
        match self {
            Self::Success => 0x00,
            Self::NoSubscriptionExisted => 0x11,
            Self::UnspecifiedError => 0x80,
            Self::ImplementationSpecificError => 0x83,
            Self::NotAuthorized => 0x87,
            Self::TopicFilterInvalid => 0x8F,
            Self::PacketIdentifierInUse => 0x91,
        }
    }
}

/// Decoding the wire code of a UnsubAckReason gives it back.
pub proof fn lemma_unsuback_reason_roundtrip(r: UnsubAckReason)
    ensures
        unsuback_reason_from_code(unsuback_reason_code(r)) == r,
{
}

} // verus!
