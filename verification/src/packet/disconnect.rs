//! DISCONNECT packet.
//!
//! In MQTT 3.1.1 DISCONNECT has only a fixed header.  In MQTT 5.0 it carries
//! a reason code and properties, and either side may send it.

use crate::packet::opt_props;
use crate::properties::{Properties, PropertiesView};
use vstd::prelude::*;

verus! {

/// DISCONNECT packet.
#[derive(Debug, Clone, PartialEq)]
pub struct Disconnect {
    /// Reason code (MQTT 5.0 only; normal disconnection for 3.1.1).
    pub reason_code: DisconnectReason,
    /// MQTT 5.0 DISCONNECT properties (`None` for 3.1.1).
    pub properties: Option<Properties>,
}

/// The mathematical value of a [`Disconnect`].
pub struct DisconnectView {
    pub reason_code: DisconnectReason,
    pub properties: Option<PropertiesView>,
}

impl View for Disconnect {
    type V = DisconnectView;

    open spec fn view(&self) -> DisconnectView {
        DisconnectView { reason_code: self.reason_code, properties: opt_props(self.properties) }
    }
}

impl Disconnect {
    /// A normal disconnect (valid for both 3.1.1 and 5.0).
    pub fn normal() -> (r: Self)
        ensures
            r@ == (DisconnectView {
                reason_code: DisconnectReason::NormalDisconnection,
                properties: None,
            }),
    {
        Self { reason_code: DisconnectReason::NormalDisconnection, properties: None }
    }
}

impl Default for Disconnect {
    fn default() -> (r: Self)
        ensures
            r@ == (DisconnectView {
                reason_code: DisconnectReason::NormalDisconnection,
                properties: None,
            }),
    {
        Self::normal()
    }
}

/// Reason codes for DISCONNECT (MQTT 5.0).
#[derive(Debug, Clone, Copy, PartialEq, Eq, Structural)]
pub enum DisconnectReason {
    /// 0x00: normal disconnection.
    NormalDisconnection,
    /// 0x04: disconnect with Will message.
    DisconnectWithWillMessage,
    /// 0x80: unspecified error.
    UnspecifiedError,
    /// 0x81: malformed packet.
    MalformedPacket,
    /// 0x82: protocol error.
    ProtocolError,
    /// 0x83: implementation specific error.
    ImplementationSpecificError,
    /// 0x87: not authorized.
    NotAuthorized,
    /// 0x89: server busy.
    ServerBusy,
    /// 0x8B: server shutting down.
    ServerShuttingDown,
    /// 0x8D: keep alive timeout.
    KeepAliveTimeout,
    /// 0x8E: session taken over.
    SessionTakenOver,
    /// 0x8F: topic filter invalid.
    TopicFilterInvalid,
    /// 0x90: topic name invalid.
    TopicNameInvalid,
    /// 0x93: receive maximum exceeded.
    ReceiveMaximumExceeded,
    /// 0x94: topic alias invalid.
    TopicAliasInvalid,
    /// 0x95: packet too large.
    PacketTooLarge,
    /// 0x96: message rate too high.
    MessageRateTooHigh,
    /// 0x97: quota exceeded.
    QuotaExceeded,
    /// 0x98: administrative action.
    AdministrativeAction,
    /// 0x99: payload format invalid.
    PayloadFormatInvalid,
    /// 0x9A: retain not supported.
    RetainNotSupported,
    /// 0x9B: QoS not supported.
    QoSNotSupported,
    /// 0x9C: use another server.
    UseAnotherServer,
    /// 0x9D: server moved.
    ServerMoved,
    /// 0x9E: shared subscriptions not supported.
    SharedSubscriptionsNotSupported,
    /// 0x9F: connection rate exceeded.
    ConnectionRateExceeded,
    /// 0xA0: maximum connect time.
    MaximumConnectTime,
    /// 0xA1: subscription identifiers not supported.
    SubscriptionIdentifiersNotSupported,
    /// 0xA2: wildcard subscriptions not supported.
    WildcardSubscriptionsNotSupported,
}

/// The wire code of a DisconnectReason.
pub open spec fn disconnect_reason_code(r: DisconnectReason) -> u8 {
    match r {
        DisconnectReason::NormalDisconnection => 0x00,
        DisconnectReason::DisconnectWithWillMessage => 0x04,
        DisconnectReason::UnspecifiedError => 0x80,
        DisconnectReason::MalformedPacket => 0x81,
        DisconnectReason::ProtocolError => 0x82,
        DisconnectReason::ImplementationSpecificError => 0x83,
        DisconnectReason::NotAuthorized => 0x87,
        DisconnectReason::ServerBusy => 0x89,
        DisconnectReason::ServerShuttingDown => 0x8B,
        DisconnectReason::KeepAliveTimeout => 0x8D,
        DisconnectReason::SessionTakenOver => 0x8E,
        DisconnectReason::TopicFilterInvalid => 0x8F,
        DisconnectReason::TopicNameInvalid => 0x90,
        DisconnectReason::ReceiveMaximumExceeded => 0x93,
        DisconnectReason::TopicAliasInvalid => 0x94,
        DisconnectReason::PacketTooLarge => 0x95,
        DisconnectReason::MessageRateTooHigh => 0x96,
        DisconnectReason::QuotaExceeded => 0x97,
        DisconnectReason::AdministrativeAction => 0x98,
        DisconnectReason::PayloadFormatInvalid => 0x99,
        DisconnectReason::RetainNotSupported => 0x9A,
        DisconnectReason::QoSNotSupported => 0x9B,
        DisconnectReason::UseAnotherServer => 0x9C,
        DisconnectReason::ServerMoved => 0x9D,
        DisconnectReason::SharedSubscriptionsNotSupported => 0x9E,
        DisconnectReason::ConnectionRateExceeded => 0x9F,
        DisconnectReason::MaximumConnectTime => 0xA0,
        DisconnectReason::SubscriptionIdentifiersNotSupported => 0xA1,
        DisconnectReason::WildcardSubscriptionsNotSupported => 0xA2,
    }
}

/// The DisconnectReason a wire code decodes to; unknown codes decode to `UnspecifiedError`.
pub open spec fn disconnect_reason_from_code(v: u8) -> DisconnectReason {
    if v == 0x00 {
        DisconnectReason::NormalDisconnection
    } else if v == 0x04 {
        DisconnectReason::DisconnectWithWillMessage
    } else if v == 0x81 {
        DisconnectReason::MalformedPacket
    } else if v == 0x82 {
        DisconnectReason::ProtocolError
    } else if v == 0x83 {
        DisconnectReason::ImplementationSpecificError
    } else if v == 0x87 {
        DisconnectReason::NotAuthorized
    } else if v == 0x89 {
        DisconnectReason::ServerBusy
    } else if v == 0x8B {
        DisconnectReason::ServerShuttingDown
    } else if v == 0x8D {
        DisconnectReason::KeepAliveTimeout
    } else if v == 0x8E {
        DisconnectReason::SessionTakenOver
    } else if v == 0x8F {
        DisconnectReason::TopicFilterInvalid
    } else if v == 0x90 {
        DisconnectReason::TopicNameInvalid
    } else if v == 0x93 {
        DisconnectReason::ReceiveMaximumExceeded
    } else if v == 0x94 {
        DisconnectReason::TopicAliasInvalid
    } else if v == 0x95 {
        DisconnectReason::PacketTooLarge
    } else if v == 0x96 {
        DisconnectReason::MessageRateTooHigh
    } else if v == 0x97 {
        DisconnectReason::QuotaExceeded
    } else if v == 0x98 {
        DisconnectReason::AdministrativeAction
    } else if v == 0x99 {
        DisconnectReason::PayloadFormatInvalid
    } else if v == 0x9A {
        DisconnectReason::RetainNotSupported
    } else if v == 0x9B {
        DisconnectReason::QoSNotSupported
    } else if v == 0x9C {
        DisconnectReason::UseAnotherServer
    } else if v == 0x9D {
        DisconnectReason::ServerMoved
    } else if v == 0x9E {
        DisconnectReason::SharedSubscriptionsNotSupported
    } else if v == 0x9F {
        DisconnectReason::ConnectionRateExceeded
    } else if v == 0xA0 {
        DisconnectReason::MaximumConnectTime
    } else if v == 0xA1 {
        DisconnectReason::SubscriptionIdentifiersNotSupported
    } else if v == 0xA2 {
        DisconnectReason::WildcardSubscriptionsNotSupported
    } else {
        DisconnectReason::UnspecifiedError
    }
}

impl DisconnectReason {
    /// Decode a wire code; unknown codes decode to `UnspecifiedError`.
    pub fn from_u8(v: u8) -> (r: Self)
        ensures
            r == disconnect_reason_from_code(v),
    {
        match v {
            0x00 => Self::NormalDisconnection,
            0x04 => Self::DisconnectWithWillMessage,
            0x80 => Self::UnspecifiedError,
            0x81 => Self::MalformedPacket,
            0x82 => Self::ProtocolError,
            0x83 => Self::ImplementationSpecificError,
            0x87 => Self::NotAuthorized,
            0x89 => Self::ServerBusy,
            0x8B => Self::ServerShuttingDown,
            0x8D => Self::KeepAliveTimeout,
            0x8E => Self::SessionTakenOver,
            0x8F => Self::TopicFilterInvalid,
            0x90 => Self::TopicNameInvalid,
            0x93 => Self::ReceiveMaximumExceeded,
            0x94 => Self::TopicAliasInvalid,
            0x95 => Self::PacketTooLarge,
            0x96 => Self::MessageRateTooHigh,
            0x97 => Self::QuotaExceeded,
            0x98 => Self::AdministrativeAction,
            0x99 => Self::PayloadFormatInvalid,
            0x9A => Self::RetainNotSupported,
            0x9B => Self::QoSNotSupported,
            0x9C => Self::UseAnotherServer,
            0x9D => Self::ServerMoved,
            0x9E => Self::SharedSubscriptionsNotSupported,
            0x9F => Self::ConnectionRateExceeded,
            0xA0 => Self::MaximumConnectTime,
            0xA1 => Self::SubscriptionIdentifiersNotSupported,
            0xA2 => Self::WildcardSubscriptionsNotSupported,
            _ => Self::UnspecifiedError,
        }
    }

    /// The wire code of this reason.
    pub fn as_u8(self) -> (r: u8)
        ensures
            r == disconnect_reason_code(self),
    {
        match self {
            Self::NormalDisconnection => 0x00,
            Self::DisconnectWithWillMessage => 0x04,
            Self::UnspecifiedError => 0x80,
            Self::MalformedPacket => 0x81,
            Self::ProtocolError => 0x82,
            Self::ImplementationSpecificError => 0x83,
            Self::NotAuthorized => 0x87,
            Self::ServerBusy => 0x89,
            Self::ServerShuttingDown => 0x8B,
            Self::KeepAliveTimeout => 0x8D,
            Self::SessionTakenOver => 0x8E,
            Self::TopicFilterInvalid => 0x8F,
            Self::TopicNameInvalid => 0x90,
            Self::ReceiveMaximumExceeded => 0x93,
            Self::TopicAliasInvalid => 0x94,
            Self::PacketTooLarge => 0x95,
            Self::MessageRateTooHigh => 0x96,
            Self::QuotaExceeded => 0x97,
            Self::AdministrativeAction => 0x98,
            Self::PayloadFormatInvalid => 0x99,
            Self::RetainNotSupported => 0x9A,
            Self::QoSNotSupported => 0x9B,
            Self::UseAnotherServer => 0x9C,
            Self::ServerMoved => 0x9D,
            Self::SharedSubscriptionsNotSupported => 0x9E,
            Self::ConnectionRateExceeded => 0x9F,
            Self::MaximumConnectTime => 0xA0,
            Self::SubscriptionIdentifiersNotSupported => 0xA1,
            Self::WildcardSubscriptionsNotSupported => 0xA2,
        }
    }
}

impl Default for DisconnectReason {
    fn default() -> (r: Self)
        ensures
            r == DisconnectReason::NormalDisconnection,
    {
        DisconnectReason::NormalDisconnection
    }
}

/// Decoding the wire code of a DisconnectReason gives it back.
pub proof fn lemma_disconnect_reason_roundtrip(r: DisconnectReason)
    ensures
        disconnect_reason_from_code(disconnect_reason_code(r)) == r,
{
}

} // verus!
