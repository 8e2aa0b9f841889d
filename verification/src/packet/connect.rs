//! CONNECT and CONNACK packets.

use crate::packet::opt_props;
use crate::properties::{opt_bin, opt_str, Properties, PropertiesView};
use crate::QoS;
use vstd::prelude::*;

verus! {

/// CONNECT packet: sent by a client to start a session with the broker.
#[derive(Debug, Clone, PartialEq)]
pub struct Connect {
    /// The client identifier; may be empty (the broker assigns one).
    pub client_id: String,
    /// If `true`, start a fresh session and discard any previous state.
    pub clean_start: bool,
    /// Keep-alive period in seconds; `0` means no keep-alive timeout.
    pub keep_alive: u16,
    /// Optional user name.
    pub username: Option<String>,
    /// Optional password.
    pub password: Option<Vec<u8>>,
    /// Optional Last Will, published by the broker on an unexpected disconnect.
    pub will: Option<Will>,
    /// MQTT 5.0 CONNECT properties (`None` for 3.1.1).
    pub properties: Option<Properties>,
}

/// The Last Will message embedded in a CONNECT packet.
#[derive(Debug, Clone, PartialEq)]
pub struct Will {
    pub topic: String,
    pub payload: Vec<u8>,
    pub qos: QoS,
    pub retain: bool,
    /// MQTT 5.0 Will properties (`None` for 3.1.1).
    pub properties: Option<Properties>,
}

/// CONNACK packet: the broker acknowledges a CONNECT.
#[derive(Debug, Clone, PartialEq)]
pub struct ConnAck {
    /// `true` if the broker restored a previous session.
    pub session_present: bool,
    /// MQTT 3.1.1 return code or MQTT 5.0 reason code.
    pub reason_code: ConnectReason,
    /// MQTT 5.0 CONNACK properties (`None` for 3.1.1).
    pub properties: Option<Properties>,
}

/// The mathematical value of a [`Will`].
pub struct WillView {
    pub topic: Seq<char>,
    pub payload: Seq<u8>,
    pub qos: QoS,
    pub retain: bool,
    pub properties: Option<PropertiesView>,
}

/// The mathematical value of a [`Connect`].
pub struct ConnectView {
    pub client_id: Seq<char>,
    pub clean_start: bool,
    pub keep_alive: u16,
    pub username: Option<Seq<char>>,
    pub password: Option<Seq<u8>>,
    pub will: Option<WillView>,
    pub properties: Option<PropertiesView>,
}

/// The mathematical value of a [`ConnAck`].
pub struct ConnAckView {
    pub session_present: bool,
    pub reason_code: ConnectReason,
    pub properties: Option<PropertiesView>,
}

impl View for Will {
    type V = WillView;

    open spec fn view(&self) -> WillView {
        WillView {
            topic: self.topic@,
            payload: self.payload@,
            qos: self.qos,
            retain: self.retain,
            properties: opt_props(self.properties),
        }
    }
}

/// The view of an optional Will.
pub open spec fn opt_will(o: Option<Will>) -> Option<WillView> {
    match o {
        Some(w) => Some(w@),
        None => None,
    }
}

impl View for Connect {
    type V = ConnectView;

    open spec fn view(&self) -> ConnectView {
        ConnectView {
            client_id: self.client_id@,
            clean_start: self.clean_start,
            keep_alive: self.keep_alive,
            username: opt_str(self.username),
            password: opt_bin(self.password),
            will: opt_will(self.will),
            properties: opt_props(self.properties),
        }
    }
}

impl View for ConnAck {
    type V = ConnAckView;

    open spec fn view(&self) -> ConnAckView {
        ConnAckView {
            session_present: self.session_present,
            reason_code: self.reason_code,
            properties: opt_props(self.properties),
        }
    }
}

/// Unified reason/return code for CONNACK: the numbers follow the MQTT 5.0 table, and the 3.1.1 return codes keep their own numbers.
#[derive(Debug, Clone, Copy, PartialEq, Eq, Structural)]
pub enum ConnectReason {
    /// 0x00: connection accepted.
    Success,
    /// 0x01: unacceptable protocol version (3.1.1).
    UnacceptableProtocolVersion,
    /// 0x02: client identifier rejected (3.1.1).
    IdentifierRejected,
    /// 0x03: server unavailable (3.1.1).
    ServerUnavailable,
    /// 0x04: bad user name or password (3.1.1).
    BadUserNameOrPassword,
    /// 0x05: not authorized (3.1.1).
    NotAuthorized,
    /// 0x80: unspecified error.
    UnspecifiedError,
    /// 0x81: malformed packet.
    MalformedPacket,
    /// 0x82: protocol error.
    ProtocolError,
    /// 0x83: implementation specific error.
    ImplementationSpecificError,
    /// 0x84: unsupported protocol version.
    UnsupportedProtocolVersion,
    /// 0x85: client identifier not valid.
    ClientIdentifierNotValid,
    /// 0x86: bad user name or password.
    BadUsernameOrPassword,
    /// 0x87: not authorized.
    NotAuthorized5,
    /// 0x88: server unavailable.
    ServerUnavailable5,
    /// 0x89: server busy.
    ServerBusy,
    /// 0x8A: banned.
    Banned,
    /// 0x8C: bad authentication method.
    BadAuthenticationMethod,
    /// 0x90: topic name invalid.
    TopicNameInvalid,
    /// 0x95: packet too large.
    PacketTooLarge,
    /// 0x97: quota exceeded.
    QuotaExceeded,
    /// 0x99: payload format invalid.
    PayloadFormatInvalid,
    /// 0x9A: retain not supported.
    RetainNotSupported,
    /// 0x9B: QoS not supported.
    QoSNotSupported,
    /// 0x9C: use another server.
    UseAnotherServer,
    /// 0x9D: server moved.
    ServerMoved,
    /// 0x9F: connection rate exceeded.
    ConnectionRateExceeded,
}

/// The wire code of a ConnectReason.
pub open spec fn connect_reason_code(r: ConnectReason) -> u8 {
    match r {
        ConnectReason::Success => 0x00,
        ConnectReason::UnacceptableProtocolVersion => 0x01,
        ConnectReason::IdentifierRejected => 0x02,
        ConnectReason::ServerUnavailable => 0x03,
        ConnectReason::BadUserNameOrPassword => 0x04,
        ConnectReason::NotAuthorized => 0x05,
        ConnectReason::UnspecifiedError => 0x80,
        ConnectReason::MalformedPacket => 0x81,
        ConnectReason::ProtocolError => 0x82,
        ConnectReason::ImplementationSpecificError => 0x83,
        ConnectReason::UnsupportedProtocolVersion => 0x84,
        ConnectReason::ClientIdentifierNotValid => 0x85,
        ConnectReason::BadUsernameOrPassword => 0x86,
        ConnectReason::NotAuthorized5 => 0x87,
        ConnectReason::ServerUnavailable5 => 0x88,
        ConnectReason::ServerBusy => 0x89,
        ConnectReason::Banned => 0x8A,
        ConnectReason::BadAuthenticationMethod => 0x8C,
        ConnectReason::TopicNameInvalid => 0x90,
        ConnectReason::PacketTooLarge => 0x95,
        ConnectReason::QuotaExceeded => 0x97,
        ConnectReason::PayloadFormatInvalid => 0x99,
        ConnectReason::RetainNotSupported => 0x9A,
        ConnectReason::QoSNotSupported => 0x9B,
        ConnectReason::UseAnotherServer => 0x9C,
        ConnectReason::ServerMoved => 0x9D,
        ConnectReason::ConnectionRateExceeded => 0x9F,
    }
}

/// The ConnectReason a wire code decodes to; unknown codes decode to `UnspecifiedError`.
pub open spec fn connect_reason_from_code(v: u8) -> ConnectReason {
    if v == 0x00 {
        ConnectReason::Success
    } else if v == 0x01 {
        ConnectReason::UnacceptableProtocolVersion
    } else if v == 0x02 {
        ConnectReason::IdentifierRejected
    } else if v == 0x03 {
        ConnectReason::ServerUnavailable
    } else if v == 0x04 {
        ConnectReason::BadUserNameOrPassword
    } else if v == 0x05 {
        ConnectReason::NotAuthorized
    } else if v == 0x81 {
        ConnectReason::MalformedPacket
    } else if v == 0x82 {
        ConnectReason::ProtocolError
    } else if v == 0x83 {
        ConnectReason::ImplementationSpecificError
    } else if v == 0x84 {
        ConnectReason::UnsupportedProtocolVersion
    } else if v == 0x85 {
        ConnectReason::ClientIdentifierNotValid
    } else if v == 0x86 {
        ConnectReason::BadUsernameOrPassword
    } else if v == 0x87 {
        ConnectReason::NotAuthorized5
    } else if v == 0x88 {
        ConnectReason::ServerUnavailable5
    } else if v == 0x89 {
        ConnectReason::ServerBusy
    } else if v == 0x8A {
        ConnectReason::Banned
    } else if v == 0x8C {
        ConnectReason::BadAuthenticationMethod
    } else if v == 0x90 {
        ConnectReason::TopicNameInvalid
    } else if v == 0x95 {
        ConnectReason::PacketTooLarge
    } else if v == 0x97 {
        ConnectReason::QuotaExceeded
    } else if v == 0x99 {
        ConnectReason::PayloadFormatInvalid
    } else if v == 0x9A {
        ConnectReason::RetainNotSupported
    } else if v == 0x9B {
        ConnectReason::QoSNotSupported
    } else if v == 0x9C {
        ConnectReason::UseAnotherServer
    } else if v == 0x9D {
        ConnectReason::ServerMoved
    } else if v == 0x9F {
        ConnectReason::ConnectionRateExceeded
    } else {
        ConnectReason::UnspecifiedError
    }
}

impl ConnectReason {
    /// Decode a wire code; unknown codes decode to `UnspecifiedError`.
    pub fn from_u8(v: u8) -> (r: Self)
        ensures
            r == connect_reason_from_code(v),
    {
        match v {
            0x00 => Self::Success,
            0x01 => Self::UnacceptableProtocolVersion,
            0x02 => Self::IdentifierRejected,
            0x03 => Self::ServerUnavailable,
            0x04 => Self::BadUserNameOrPassword,
            0x05 => Self::NotAuthorized,
            0x80 => Self::UnspecifiedError,
            0x81 => Self::MalformedPacket,
            0x82 => Self::ProtocolError,
            0x83 => Self::ImplementationSpecificError,
            0x84 => Self::UnsupportedProtocolVersion,
            0x85 => Self::ClientIdentifierNotValid,
            0x86 => Self::BadUsernameOrPassword,
            0x87 => Self::NotAuthorized5,
            0x88 => Self::ServerUnavailable5,
            0x89 => Self::ServerBusy,
            0x8A => Self::Banned,
            0x8C => Self::BadAuthenticationMethod,
            0x90 => Self::TopicNameInvalid,
            0x95 => Self::PacketTooLarge,
            0x97 => Self::QuotaExceeded,
            0x99 => Self::PayloadFormatInvalid,
            0x9A => Self::RetainNotSupported,
            0x9B => Self::QoSNotSupported,
            0x9C => Self::UseAnotherServer,
            0x9D => Self::ServerMoved,
            0x9F => Self::ConnectionRateExceeded,
            _ => Self::UnspecifiedError,
        }
    }

    /// The wire code of this reason.
    pub fn as_u8(self) -> (r: u8)
        ensures
            r == connect_reason_code(self),
    {
        match self {
            Self::Success => 0x00,
            Self::UnacceptableProtocolVersion => 0x01,
            Self::IdentifierRejected => 0x02,
            Self::ServerUnavailable => 0x03,
            Self::BadUserNameOrPassword => 0x04,
            Self::NotAuthorized => 0x05,
            Self::UnspecifiedError => 0x80,
            Self::MalformedPacket => 0x81,
            Self::ProtocolError => 0x82,
            Self::ImplementationSpecificError => 0x83,
            Self::UnsupportedProtocolVersion => 0x84,
            Self::ClientIdentifierNotValid => 0x85,
            Self::BadUsernameOrPassword => 0x86,
            Self::NotAuthorized5 => 0x87,
            Self::ServerUnavailable5 => 0x88,
            Self::ServerBusy => 0x89,
            Self::Banned => 0x8A,
            Self::BadAuthenticationMethod => 0x8C,
            Self::TopicNameInvalid => 0x90,
            Self::PacketTooLarge => 0x95,
            Self::QuotaExceeded => 0x97,
            Self::PayloadFormatInvalid => 0x99,
            Self::RetainNotSupported => 0x9A,
            Self::QoSNotSupported => 0x9B,
            Self::UseAnotherServer => 0x9C,
            Self::ServerMoved => 0x9D,
            Self::ConnectionRateExceeded => 0x9F,
        }
    }
}

/// Decoding the wire code of a ConnectReason gives it back.
pub proof fn lemma_connect_reason_roundtrip(r: ConnectReason)
    ensures
        connect_reason_from_code(connect_reason_code(r)) == r,
{
}

impl ConnectReason {
    /// True only for `Success`.
    pub fn is_success(self) -> (r: bool)
        ensures
            r == (self == ConnectReason::Success),
    {
        match self {
            ConnectReason::Success => true,
            _ => false,
        }
    }
}

} // verus!
