//! Errors of the codec layer.

use vstd::prelude::*;

verus! {

/// All errors that can occur in the codec layer.
#[derive(Debug, Clone, PartialEq)]
pub enum Error {
    /// Not enough data to decode a field.
    Incomplete,
    /// A variable byte integer runs over four bytes.
    MalformedRemainingLength,
    /// A frame is larger than the decoder accepts.
    PacketTooLarge(usize),
    /// The packet type nibble names no packet.
    UnknownPacketType(u8),
    /// The protocol name in CONNECT is not `MQTT`.
    InvalidProtocolName(String),
    /// The protocol level in CONNECT is neither 4 nor 5.
    UnsupportedProtocolVersion(u8),
    /// A QoS field holds a value above 2.
    InvalidQoS(u8),
    /// A topic or topic filter breaks the topic rules.
    InvalidTopic(String),
    /// Reserved flag bits are set in the fixed header.
    ReservedFlagBits,
    /// A packet identifier that must be non-zero is zero.
    ZeroPacketId,
    /// A string field is not valid UTF-8.
    InvalidUtf8,
    /// A property identifier names no property.
    UnknownPropertyId(u8),
    /// A property appears more often than allowed.
    DuplicateProperty { id: u8, count: usize, max: usize },
    /// The payload is malformed.
    MalformedPayload(String),
    /// A topic alias has not been registered.
    UnknownTopicAlias(u16),
    /// A topic alias exceeds the negotiated maximum.
    TopicAliasExceedsMax(u16, u16),
}

/// The mathematical value of an [`Error`]: strings are taken by their characters.
pub enum ErrorView {
    Incomplete,
    MalformedRemainingLength,
    PacketTooLarge(usize),
    UnknownPacketType(u8),
    InvalidProtocolName(Seq<char>),
    UnsupportedProtocolVersion(u8),
    InvalidQoS(u8),
    InvalidTopic(Seq<char>),
    ReservedFlagBits,
    ZeroPacketId,
    InvalidUtf8,
    UnknownPropertyId(u8),
    DuplicateProperty { id: u8, count: usize, max: usize },
    MalformedPayload(Seq<char>),
    UnknownTopicAlias(u16),
    TopicAliasExceedsMax(u16, u16),
}

impl View for Error {
    type V = ErrorView;

    open spec fn view(&self) -> ErrorView {
        match self {
            Error::Incomplete => ErrorView::Incomplete,
            Error::MalformedRemainingLength => ErrorView::MalformedRemainingLength,
            Error::PacketTooLarge(n) => ErrorView::PacketTooLarge(*n),
            Error::UnknownPacketType(t) => ErrorView::UnknownPacketType(*t),
            Error::InvalidProtocolName(s) => ErrorView::InvalidProtocolName(s@),
            Error::UnsupportedProtocolVersion(v) => ErrorView::UnsupportedProtocolVersion(*v),
            Error::InvalidQoS(v) => ErrorView::InvalidQoS(*v),
            Error::InvalidTopic(s) => ErrorView::InvalidTopic(s@),
            Error::ReservedFlagBits => ErrorView::ReservedFlagBits,
            Error::ZeroPacketId => ErrorView::ZeroPacketId,
            Error::InvalidUtf8 => ErrorView::InvalidUtf8,
            Error::UnknownPropertyId(i) => ErrorView::UnknownPropertyId(*i),
            Error::DuplicateProperty { id, count, max } => ErrorView::DuplicateProperty {
                id: *id,
                count: *count,
                max: *max,
            },
            Error::MalformedPayload(s) => ErrorView::MalformedPayload(s@),
            Error::UnknownTopicAlias(a) => ErrorView::UnknownTopicAlias(*a),
            Error::TopicAliasExceedsMax(a, m) => ErrorView::TopicAliasExceedsMax(*a, *m),
        }
    }
}

} // verus!
