//! MQTT 5.0 properties.
//!
//! Every MQTT 5.0 control packet (and the Will in CONNECT) carries a
//! Properties section: a variable byte integer giving the byte length of the
//! section, followed by zero or more properties.  Each property is a one-byte
//! identifier followed by a value whose type the identifier fixes.
//!
//! All properties are kept in one flat [`Properties`] struct; properties that
//! are absent are `None` (or an empty `Vec`).

use crate::buffer::{buffer_bytes, buffer_extend};
use crate::error::{Error, ErrorView};
use bytes::BytesMut;
use crate::wire::{
    append_bytes, be16, be32, get_u16, get_u32, prefixed_bytes, put_u16, put_u32,
    spec_read_prefixed, spec_read_string, spec_read_varint, string_bytes, u16_bytes, u32_bytes,
    varint_bytes, varint_from, varint_size, DecodeFailure, Fail, MAX_VARINT, lemma_u16_roundtrip,
    lemma_u32_roundtrip, lemma_varint_roundtrip, lemma_string_roundtrip, lemma_prefixed_roundtrip,
};
use vstd::prelude::*;
use vstd::utf8::*;

pub use crate::wire::{
    put_binary_data, put_utf8_string, put_variable_length, read_binary_data, read_utf8_string,
    read_variable_length, variable_length_size, write_binary_data, write_utf8_string,
    write_variable_length,
};

verus! {

pub const PROP_PAYLOAD_FORMAT_INDICATOR: u8 = 0x01;
pub const PROP_MESSAGE_EXPIRY_INTERVAL: u8 = 0x02;
pub const PROP_CONTENT_TYPE: u8 = 0x03;
pub const PROP_RESPONSE_TOPIC: u8 = 0x08;
pub const PROP_CORRELATION_DATA: u8 = 0x09;
pub const PROP_SUBSCRIPTION_IDENTIFIER: u8 = 0x0B;
pub const PROP_SESSION_EXPIRY_INTERVAL: u8 = 0x11;
pub const PROP_ASSIGNED_CLIENT_IDENTIFIER: u8 = 0x12;
pub const PROP_SERVER_KEEP_ALIVE: u8 = 0x13;
pub const PROP_AUTHENTICATION_METHOD: u8 = 0x15;
pub const PROP_AUTHENTICATION_DATA: u8 = 0x16;
pub const PROP_REQUEST_PROBLEM_INFO: u8 = 0x17;
pub const PROP_WILL_DELAY_INTERVAL: u8 = 0x18;
pub const PROP_REQUEST_RESPONSE_INFO: u8 = 0x19;
pub const PROP_RESPONSE_INFORMATION: u8 = 0x1A;
pub const PROP_SERVER_REFERENCE: u8 = 0x1C;
pub const PROP_REASON_STRING: u8 = 0x1F;
pub const PROP_RECEIVE_MAXIMUM: u8 = 0x21;
pub const PROP_TOPIC_ALIAS_MAXIMUM: u8 = 0x22;
pub const PROP_TOPIC_ALIAS: u8 = 0x23;
pub const PROP_MAXIMUM_QOS: u8 = 0x24;
pub const PROP_RETAIN_AVAILABLE: u8 = 0x25;
pub const PROP_USER_PROPERTY: u8 = 0x26;
pub const PROP_MAXIMUM_PACKET_SIZE: u8 = 0x27;
pub const PROP_WILDCARD_SUB_AVAILABLE: u8 = 0x28;
pub const PROP_SUBSCRIPTION_ID_AVAILABLE: u8 = 0x29;
pub const PROP_SHARED_SUB_AVAILABLE: u8 = 0x2A;

/// All MQTT 5.0 properties that can appear in a packet.
#[derive(Debug, Clone, PartialEq)]
pub struct Properties {
    /// `0x01`: 0 = unspecified bytes, 1 = UTF-8 encoded character data.
    pub payload_format_indicator: Option<u8>,
    /// `0x02`: lifetime of the application message in seconds.
    pub message_expiry_interval: Option<u32>,
    /// `0x03`: MIME content type of the message.
    pub content_type: Option<String>,
    /// `0x08`: topic the receiver should publish a response to.
    pub response_topic: Option<String>,
    /// `0x09`: opaque data correlating request and response.
    pub correlation_data: Option<Vec<u8>>,
    /// `0x0B`: subscription identifiers; may repeat.
    pub subscription_identifiers: Vec<u32>,
    /// `0x11`: session lifetime in seconds after disconnect.
    pub session_expiry_interval: Option<u32>,
    /// `0x12`: client identifier assigned by the server.
    pub assigned_client_identifier: Option<String>,
    /// `0x13`: keep alive the server wishes the client to use.
    pub server_keep_alive: Option<u16>,
    /// `0x15`: name of the authentication method.
    pub authentication_method: Option<String>,
    /// `0x16`: binary authentication data.
    pub authentication_data: Option<Vec<u8>>,
    /// `0x17`: whether reason strings and user properties may be sent on errors.
    pub request_problem_information: Option<bool>,
    /// `0x18`: delay before the Will is published.
    pub will_delay_interval: Option<u32>,
    /// `0x19`: request response information in CONNACK.
    pub request_response_information: Option<bool>,
    /// `0x1A`: basis for constructing response topics.
    pub response_information: Option<String>,
    /// `0x1C`: another server the client can use.
    pub server_reference: Option<String>,
    /// `0x1F`: human readable reason for an action.
    pub reason_string: Option<String>,
    /// `0x21`: maximum number of inflight QoS 1/2 messages.
    pub receive_maximum: Option<u16>,
    /// `0x22`: maximum topic alias this endpoint accepts.
    pub topic_alias_maximum: Option<u16>,
    /// `0x23`: numeric alias for a topic.
    pub topic_alias: Option<u16>,
    /// `0x24`: maximum QoS the server supports.
    pub maximum_qos: Option<u8>,
    /// `0x25`: whether retained messages are supported.
    pub retain_available: Option<bool>,
    /// `0x26`: key-value pairs; may repeat.
    pub user_properties: Vec<(String, String)>,
    /// `0x27`: maximum packet size this endpoint accepts.
    pub maximum_packet_size: Option<u32>,
    /// `0x28`: whether wildcard subscriptions are supported.
    pub wildcard_subscription_available: Option<bool>,
    /// `0x29`: whether subscription identifiers are supported.
    pub subscription_identifier_available: Option<bool>,
    /// `0x2A`: whether shared subscriptions are supported.
    pub shared_subscription_available: Option<bool>,
}

/// The mathematical value of [`Properties`]: strings by their characters,
/// binary data by its bytes.
#[verifier::ext_equal]
pub struct PropertiesView {
    pub payload_format_indicator: Option<u8>,
    pub message_expiry_interval: Option<u32>,
    pub content_type: Option<Seq<char>>,
    pub response_topic: Option<Seq<char>>,
    pub correlation_data: Option<Seq<u8>>,
    pub subscription_identifiers: Seq<u32>,
    pub session_expiry_interval: Option<u32>,
    pub assigned_client_identifier: Option<Seq<char>>,
    pub server_keep_alive: Option<u16>,
    pub authentication_method: Option<Seq<char>>,
    pub authentication_data: Option<Seq<u8>>,
    pub request_problem_information: Option<bool>,
    pub will_delay_interval: Option<u32>,
    pub request_response_information: Option<bool>,
    pub response_information: Option<Seq<char>>,
    pub server_reference: Option<Seq<char>>,
    pub reason_string: Option<Seq<char>>,
    pub receive_maximum: Option<u16>,
    pub topic_alias_maximum: Option<u16>,
    pub topic_alias: Option<u16>,
    pub maximum_qos: Option<u8>,
    pub retain_available: Option<bool>,
    pub user_properties: Seq<(Seq<char>, Seq<char>)>,
    pub maximum_packet_size: Option<u32>,
    pub wildcard_subscription_available: Option<bool>,
    pub subscription_identifier_available: Option<bool>,
    pub shared_subscription_available: Option<bool>,
}

/// The characters of an optional string.
pub open spec fn opt_str(o: Option<String>) -> Option<Seq<char>> {
    match o {
        Some(s) => Some(s@),
        None => None,
    }
}

/// The bytes of optional binary data.
pub open spec fn opt_bin(o: Option<Vec<u8>>) -> Option<Seq<u8>> {
    match o {
        Some(v) => Some(v@),
        None => None,
    }
}

/// The characters of a sequence of string pairs.
pub open spec fn pair_views(s: Seq<(String, String)>) -> Seq<(Seq<char>, Seq<char>)> {
    s.map_values(|kv: (String, String)| (kv.0@, kv.1@))
}

impl View for Properties {
    type V = PropertiesView;

    open spec fn view(&self) -> PropertiesView {
        PropertiesView {
            payload_format_indicator: self.payload_format_indicator,
            message_expiry_interval: self.message_expiry_interval,
            content_type: opt_str(self.content_type),
            response_topic: opt_str(self.response_topic),
            correlation_data: opt_bin(self.correlation_data),
            subscription_identifiers: self.subscription_identifiers@,
            session_expiry_interval: self.session_expiry_interval,
            assigned_client_identifier: opt_str(self.assigned_client_identifier),
            server_keep_alive: self.server_keep_alive,
            authentication_method: opt_str(self.authentication_method),
            authentication_data: opt_bin(self.authentication_data),
            request_problem_information: self.request_problem_information,
            will_delay_interval: self.will_delay_interval,
            request_response_information: self.request_response_information,
            response_information: opt_str(self.response_information),
            server_reference: opt_str(self.server_reference),
            reason_string: opt_str(self.reason_string),
            receive_maximum: self.receive_maximum,
            topic_alias_maximum: self.topic_alias_maximum,
            topic_alias: self.topic_alias,
            maximum_qos: self.maximum_qos,
            retain_available: self.retain_available,
            user_properties: pair_views(self.user_properties@),
            maximum_packet_size: self.maximum_packet_size,
            wildcard_subscription_available: self.wildcard_subscription_available,
            subscription_identifier_available: self.subscription_identifier_available,
            shared_subscription_available: self.shared_subscription_available,
        }
    }
}

/// The properties with nothing set.
pub open spec fn empty_props() -> PropertiesView {
    PropertiesView {
        payload_format_indicator: None,
        message_expiry_interval: None,
        content_type: None,
        response_topic: None,
        correlation_data: None,
        subscription_identifiers: Seq::empty(),
        session_expiry_interval: None,
        assigned_client_identifier: None,
        server_keep_alive: None,
        authentication_method: None,
        authentication_data: None,
        request_problem_information: None,
        will_delay_interval: None,
        request_response_information: None,
        response_information: None,
        server_reference: None,
        reason_string: None,
        receive_maximum: None,
        topic_alias_maximum: None,
        topic_alias: None,
        maximum_qos: None,
        retain_available: None,
        user_properties: Seq::empty(),
        maximum_packet_size: None,
        wildcard_subscription_available: None,
        subscription_identifier_available: None,
        shared_subscription_available: None,
    }
}

// ── The property wire format ────────────────────────────────────────────────

/// The value of one property on the wire.
pub enum PropValue {
    /// A one-byte value (also used for booleans: 0 is false).
    Byte(u8),
    /// A two-byte big-endian integer.
    Two(u16),
    /// A four-byte big-endian integer.
    Four(u32),
    /// A variable byte integer.
    Var(nat),
    /// A UTF-8 string.
    Str(Seq<char>),
    /// Binary data.
    Bin(Seq<u8>),
    /// A UTF-8 string pair.
    Pair(Seq<char>, Seq<char>),
}

/// Identifiers whose value is one byte.
pub open spec fn is_byte_prop(id: u8) -> bool {
    id == 0x01 || id == 0x17 || id == 0x19 || id == 0x24 || id == 0x25 || id == 0x28 || id
        == 0x29 || id == 0x2A
}

/// Identifiers whose value is a two-byte integer.
pub open spec fn is_two_prop(id: u8) -> bool {
    id == 0x13 || id == 0x21 || id == 0x22 || id == 0x23
}

/// Identifiers whose value is a four-byte integer.
pub open spec fn is_four_prop(id: u8) -> bool {
    id == 0x02 || id == 0x11 || id == 0x18 || id == 0x27
}

/// Identifiers whose value is a UTF-8 string.
pub open spec fn is_str_prop(id: u8) -> bool {
    id == 0x03 || id == 0x08 || id == 0x12 || id == 0x15 || id == 0x1A || id == 0x1C || id
        == 0x1F
}

/// Identifiers whose value is binary data.
pub open spec fn is_bin_prop(id: u8) -> bool {
    id == 0x09 || id == 0x16
}

/// Decoding the value of property `id` from `s`: the value and the bytes it
/// takes.
pub open spec fn spec_parse_value(id: u8, s: Seq<u8>) -> Result<(PropValue, int), Fail> {
    if is_byte_prop(id) {
        if s.len() < 1 {
            Err(Fail::Truncated)
        } else {
            Ok((PropValue::Byte(s[0]), 1))
        }
    } else if is_two_prop(id) {
        if s.len() < 2 {
            Err(Fail::Truncated)
        } else {
            Ok((PropValue::Two(be16(s, 0) as u16), 2))
        }
    } else if is_four_prop(id) {
        if s.len() < 4 {
            Err(Fail::Truncated)
        } else {
            Ok((PropValue::Four(be32(s, 0) as u32), 4))
        }
    } else if id == 0x0B {
        match spec_read_varint(s) {
            Ok((v, n)) => Ok((PropValue::Var(v), n)),
            Err(e) => Err(Fail::Rejected(e)),
        }
    } else if is_str_prop(id) {
        match spec_read_string(s) {
            Ok((c, n)) => Ok((PropValue::Str(c), n)),
            Err(e) => Err(Fail::Rejected(e)),
        }
    } else if is_bin_prop(id) {
        match spec_read_prefixed(s) {
            Ok((b, n)) => Ok((PropValue::Bin(b), n)),
            Err(e) => Err(Fail::Rejected(e)),
        }
    } else if id == 0x26 {
        match spec_read_string(s) {
            Ok((k, n1)) => match spec_read_string(s.skip(n1)) {
                Ok((v, n2)) => Ok((PropValue::Pair(k, v), n1 + n2)),
                Err(e) => Err(Fail::Rejected(e)),
            },
            Err(e) => Err(Fail::Rejected(e)),
        }
    } else {
        Err(Fail::Rejected(ErrorView::UnknownPropertyId(id)))
    }
}

/// Decoding one property (identifier and value) from the start of `s`.
pub open spec fn spec_parse_item(s: Seq<u8>) -> Result<((u8, PropValue), int), Fail>
    recommends
        s.len() > 0,
{
    match spec_parse_value(s[0], s.skip(1)) {
        Ok((v, n)) => Ok(((s[0], v), n + 1)),
        Err(f) => Err(f),
    }
}

/// The effect of one decoded property: it sets its field (a later
/// occurrence overwrites an earlier one), or appends to the subscription
/// identifiers or user properties.
pub open spec fn apply_item(p: PropertiesView, it: (u8, PropValue)) -> PropertiesView {
    let id = it.0;
    match it.1 {
        PropValue::Byte(b) => if id == 0x01 {
            PropertiesView { payload_format_indicator: Some(b), ..p }
        } else if id == 0x17 {
            PropertiesView { request_problem_information: Some(b != 0), ..p }
        } else if id == 0x19 {
            PropertiesView { request_response_information: Some(b != 0), ..p }
        } else if id == 0x24 {
            PropertiesView { maximum_qos: Some(b), ..p }
        } else if id == 0x25 {
            PropertiesView { retain_available: Some(b != 0), ..p }
        } else if id == 0x28 {
            PropertiesView { wildcard_subscription_available: Some(b != 0), ..p }
        } else if id == 0x29 {
            PropertiesView { subscription_identifier_available: Some(b != 0), ..p }
        } else {
            PropertiesView { shared_subscription_available: Some(b != 0), ..p }
        },
        PropValue::Two(x) => if id == 0x13 {
            PropertiesView { server_keep_alive: Some(x), ..p }
        } else if id == 0x21 {
            PropertiesView { receive_maximum: Some(x), ..p }
        } else if id == 0x22 {
            PropertiesView { topic_alias_maximum: Some(x), ..p }
        } else {
            PropertiesView { topic_alias: Some(x), ..p }
        },
        PropValue::Four(x) => if id == 0x02 {
            PropertiesView { message_expiry_interval: Some(x), ..p }
        } else if id == 0x11 {
            PropertiesView { session_expiry_interval: Some(x), ..p }
        } else if id == 0x18 {
            PropertiesView { will_delay_interval: Some(x), ..p }
        } else {
            PropertiesView { maximum_packet_size: Some(x), ..p }
        },
        PropValue::Var(v) => PropertiesView {
            subscription_identifiers: p.subscription_identifiers.push(v as u32),
            ..p
        },
        PropValue::Str(c) => if id == 0x03 {
            PropertiesView { content_type: Some(c), ..p }
        } else if id == 0x08 {
            PropertiesView { response_topic: Some(c), ..p }
        } else if id == 0x12 {
            PropertiesView { assigned_client_identifier: Some(c), ..p }
        } else if id == 0x15 {
            PropertiesView { authentication_method: Some(c), ..p }
        } else if id == 0x1A {
            PropertiesView { response_information: Some(c), ..p }
        } else if id == 0x1C {
            PropertiesView { server_reference: Some(c), ..p }
        } else {
            PropertiesView { reason_string: Some(c), ..p }
        },
        PropValue::Bin(b) => if id == 0x09 {
            PropertiesView { correlation_data: Some(b), ..p }
        } else {
            PropertiesView { authentication_data: Some(b), ..p }
        },
        PropValue::Pair(k, v) => PropertiesView {
            user_properties: p.user_properties.push((k, v)),
            ..p
        },
    }
}

/// Decoding a whole section of properties into `acc`, one after another.
pub open spec fn spec_decode_items(s: Seq<u8>, acc: PropertiesView) -> Result<
    PropertiesView,
    Fail,
>
    decreases s.len(),
{
    if s.len() == 0 {
        Ok(acc)
    } else {
        match spec_parse_item(s) {
            Ok((it, n)) => if 0 < n <= s.len() {
                spec_decode_items(s.skip(n), apply_item(acc, it))
            } else {
                Ok(acc)
            },
            Err(f) => Err(f),
        }
    }
}

/// Decoding a Properties section: the length prefix, then exactly that many
/// bytes of properties.  The properties and the bytes taken in all.
pub open spec fn spec_decode_props(s: Seq<u8>) -> Result<(PropertiesView, int), Fail> {
    match spec_read_varint(s) {
        Err(e) => Err(Fail::Rejected(e)),
        Ok((len, n)) => if s.len() - n < len {
            Err(Fail::Rejected(ErrorView::Incomplete))
        } else {
            match spec_decode_items(s.subrange(n, n + len), empty_props()) {
                Ok(p) => Ok((p, n + len)),
                Err(f) => Err(f),
            }
        },
    }
}

/// The bytes of a property value.
pub open spec fn encode_value(v: PropValue) -> Seq<u8> {
    match v {
        PropValue::Byte(b) => seq![b],
        PropValue::Two(x) => u16_bytes(x),
        PropValue::Four(x) => u32_bytes(x),
        PropValue::Var(n) => varint_bytes(n),
        PropValue::Str(c) => string_bytes(c),
        PropValue::Bin(b) => prefixed_bytes(b),
        PropValue::Pair(k, v) => string_bytes(k) + string_bytes(v),
    }
}

/// The bytes of one property.
pub open spec fn encode_item(it: (u8, PropValue)) -> Seq<u8> {
    seq![it.0] + encode_value(it.1)
}

/// The bytes of a list of properties.
pub open spec fn encode_items(items: Seq<(u8, PropValue)>) -> Seq<u8>
    decreases items.len(),
{
    if items.len() == 0 {
        Seq::empty()
    } else {
        encode_item(items[0]) + encode_items(items.drop_first())
    }
}

/// An optional one-byte property.
pub open spec fn opt_byte(id: u8, o: Option<u8>) -> Seq<(u8, PropValue)> {
    match o {
        Some(x) => seq![(id, PropValue::Byte(x))],
        None => seq![],
    }
}

/// An optional boolean property (written as 1 or 0).
pub open spec fn opt_bool(id: u8, o: Option<bool>) -> Seq<(u8, PropValue)> {
    match o {
        Some(x) => seq![(id, PropValue::Byte(if x { 1u8 } else { 0u8 }))],
        None => seq![],
    }
}

/// An optional two-byte property.
pub open spec fn opt_two(id: u8, o: Option<u16>) -> Seq<(u8, PropValue)> {
    match o {
        Some(x) => seq![(id, PropValue::Two(x))],
        None => seq![],
    }
}

/// An optional four-byte property.
pub open spec fn opt_four(id: u8, o: Option<u32>) -> Seq<(u8, PropValue)> {
    match o {
        Some(x) => seq![(id, PropValue::Four(x))],
        None => seq![],
    }
}

/// An optional string property.
pub open spec fn opt_string(id: u8, o: Option<Seq<char>>) -> Seq<(u8, PropValue)> {
    match o {
        Some(x) => seq![(id, PropValue::Str(x))],
        None => seq![],
    }
}

/// An optional binary property.
pub open spec fn opt_binary(id: u8, o: Option<Seq<u8>>) -> Seq<(u8, PropValue)> {
    match o {
        Some(x) => seq![(id, PropValue::Bin(x))],
        None => seq![],
    }
}

/// One subscription identifier property per identifier, in order.
pub open spec fn sub_id_items(ids: Seq<u32>) -> Seq<(u8, PropValue)> {
    ids.map_values(|x: u32| (0x0Bu8, PropValue::Var(x as nat)))
}

/// One user property per pair, in order.
pub open spec fn user_items(kvs: Seq<(Seq<char>, Seq<char>)>) -> Seq<(u8, PropValue)> {
    kvs.map_values(|kv: (Seq<char>, Seq<char>)| (0x26u8, PropValue::Pair(kv.0, kv.1)))
}

/// The properties that are set, in the order the encoder writes them.
pub open spec fn prop_items(p: PropertiesView) -> Seq<(u8, PropValue)> {
    prop_items_a(p) + prop_items_b(p) + prop_items_c(p) + prop_items_d(p)
}

/// The first group of properties in encoding order.
pub open spec fn prop_items_a(p: PropertiesView) -> Seq<(u8, PropValue)> {
    opt_byte(0x01, p.payload_format_indicator)
        + opt_four(0x02, p.message_expiry_interval)
        + opt_string(0x03, p.content_type)
        + opt_string(0x08, p.response_topic)
        + opt_binary(0x09, p.correlation_data)
        + sub_id_items(p.subscription_identifiers)
}

/// The second group of properties in encoding order.
pub open spec fn prop_items_b(p: PropertiesView) -> Seq<(u8, PropValue)> {
    opt_four(0x11, p.session_expiry_interval)
        + opt_string(0x12, p.assigned_client_identifier)
        + opt_two(0x13, p.server_keep_alive)
        + opt_string(0x15, p.authentication_method)
        + opt_binary(0x16, p.authentication_data)
        + opt_bool(0x17, p.request_problem_information)
        + opt_four(0x18, p.will_delay_interval)
}

/// The third group of properties in encoding order.
pub open spec fn prop_items_c(p: PropertiesView) -> Seq<(u8, PropValue)> {
    opt_bool(0x19, p.request_response_information)
        + opt_string(0x1A, p.response_information)
        + opt_string(0x1C, p.server_reference)
        + opt_string(0x1F, p.reason_string)
        + opt_two(0x21, p.receive_maximum)
        + opt_two(0x22, p.topic_alias_maximum)
        + opt_two(0x23, p.topic_alias)
}

/// The fourth group of properties in encoding order.
pub open spec fn prop_items_d(p: PropertiesView) -> Seq<(u8, PropValue)> {
    opt_byte(0x24, p.maximum_qos)
        + opt_bool(0x25, p.retain_available)
        + user_items(p.user_properties)
        + opt_four(0x27, p.maximum_packet_size)
        + opt_bool(0x28, p.wildcard_subscription_available)
        + opt_bool(0x29, p.subscription_identifier_available)
        + opt_bool(0x2A, p.shared_subscription_available)
}

/// The bytes of the properties without the length prefix.
pub open spec fn props_body(p: PropertiesView) -> Seq<u8> {
    encode_items(prop_items(p))
}

/// The bytes of a Properties section: the length prefix, then the properties.
pub open spec fn props_bytes(p: PropertiesView) -> Seq<u8> {
    varint_bytes(props_body(p).len()) + props_body(p)
}

// ── Executable decoding ──────────────────────────────────────────────────────

/// A decoded property value.
pub(crate) enum PropVal {
    Byte(u8),
    Two(u16),
    Four(u32),
    Var(u32),
    Str(String),
    Bin(Vec<u8>),
    Pair(String, String),
}

impl View for PropVal {
    type V = PropValue;

    closed spec fn view(&self) -> PropValue {
        match self {
            PropVal::Byte(b) => PropValue::Byte(*b),
            PropVal::Two(x) => PropValue::Two(*x),
            PropVal::Four(x) => PropValue::Four(*x),
            PropVal::Var(x) => PropValue::Var(*x as nat),
            PropVal::Str(s) => PropValue::Str(s@),
            PropVal::Bin(b) => PropValue::Bin(b@),
            PropVal::Pair(k, v) => PropValue::Pair(k@, v@),
        }
    }
}

/// Decode the value of property `id` from the start of `s`.
fn parse_value(id: u8, s: &[u8]) -> (r: Result<(PropVal, usize), DecodeFailure>)
    ensures
        match spec_parse_value(id, s@) {
            Ok((v, n)) => r matches Ok((x, m)) && x@ == v && m == n,
            Err(f) => r matches Err(e) && e@ == f,
        },
{
    if id == 0x01 || id == 0x17 || id == 0x19 || id == 0x24 || id == 0x25 || id == 0x28 || id
        == 0x29 || id == 0x2A {
        if s.len() < 1 {
            return Err(DecodeFailure::Truncated);
        }
        Ok((PropVal::Byte(s[0]), 1))
    } else if id == 0x13 || id == 0x21 || id == 0x22 || id == 0x23 {
        if s.len() < 2 {
            return Err(DecodeFailure::Truncated);
        }
        Ok((PropVal::Two(get_u16(s, 0)), 2))
    } else if id == 0x02 || id == 0x11 || id == 0x18 || id == 0x27 {
        if s.len() < 4 {
            return Err(DecodeFailure::Truncated);
        }
        Ok((PropVal::Four(get_u32(s, 0)), 4))
    } else if id == 0x0B {
        match read_variable_length(s) {
            Ok((v, n)) => Ok((PropVal::Var(v as u32), n)),
            Err(e) => Err(DecodeFailure::Invalid(e)),
        }
    } else if id == 0x03 || id == 0x08 || id == 0x12 || id == 0x15 || id == 0x1A || id == 0x1C
        || id == 0x1F {
        match read_utf8_string(s) {
            Ok((c, n)) => Ok((PropVal::Str(c), n)),
            Err(e) => Err(DecodeFailure::Invalid(e)),
        }
    } else if id == 0x09 || id == 0x16 {
        match read_binary_data(s) {
            Ok((b, n)) => Ok((PropVal::Bin(b), n)),
            Err(e) => Err(DecodeFailure::Invalid(e)),
        }
    } else if id == 0x26 {
        match read_utf8_string(s) {
            Ok((k, n1)) => {
                assert(n1 <= s@.len());
                match read_utf8_string(&s[n1..s.len()]) {
                    Ok((v, n2)) => {
                        assert(s@.subrange(n1 as int, s@.len() as int) =~= s@.skip(n1 as int));
                        Ok((PropVal::Pair(k, v), n1 + n2))
                    },
                    Err(e) => {
                        assert(s@.subrange(n1 as int, s@.len() as int) =~= s@.skip(n1 as int));
                        Err(DecodeFailure::Invalid(e))
                    },
                }
            },
            Err(e) => Err(DecodeFailure::Invalid(e)),
        }
    } else {
        Err(DecodeFailure::Invalid(Error::UnknownPropertyId(id)))
    }
}

/// A successful value decode never takes more bytes than there are.
proof fn lemma_parse_value_len(id: u8, s: Seq<u8>)
    ensures
        spec_parse_value(id, s) matches Ok((v, n)) ==> 0 <= n <= s.len(),
{
    reveal_with_fuel(varint_from, 4);
    if id == 0x26 {
        if let Ok((k, n1)) = spec_read_string(s) {
            if let Ok((v, n2)) = spec_read_string(s.skip(n1)) {
                assert(0 <= n1 <= s.len());
            }
        }
    }
}


/// Apply a decoded property to the properties.
fn apply_value(p: &mut Properties, id: u8, v: PropVal)
    ensures
        final(p)@ == apply_item(old(p)@, (id, v@)),
{
    match v {
        PropVal::Byte(b) => {
            if id == 0x01 {
                p.payload_format_indicator = Some(b);
            } else if id == 0x17 {
                p.request_problem_information = Some(b != 0);
            } else if id == 0x19 {
                p.request_response_information = Some(b != 0);
            } else if id == 0x24 {
                p.maximum_qos = Some(b);
            } else if id == 0x25 {
                p.retain_available = Some(b != 0);
            } else if id == 0x28 {
                p.wildcard_subscription_available = Some(b != 0);
            } else if id == 0x29 {
                p.subscription_identifier_available = Some(b != 0);
            } else {
                p.shared_subscription_available = Some(b != 0);
            }
        },
        PropVal::Two(x) => {
            if id == 0x13 {
                p.server_keep_alive = Some(x);
            } else if id == 0x21 {
                p.receive_maximum = Some(x);
            } else if id == 0x22 {
                p.topic_alias_maximum = Some(x);
            } else {
                p.topic_alias = Some(x);
            }
        },
        PropVal::Four(x) => {
            if id == 0x02 {
                p.message_expiry_interval = Some(x);
            } else if id == 0x11 {
                p.session_expiry_interval = Some(x);
            } else if id == 0x18 {
                p.will_delay_interval = Some(x);
            } else {
                p.maximum_packet_size = Some(x);
            }
        },
        PropVal::Var(x) => {
            p.subscription_identifiers.push(x);
        },
        PropVal::Str(c) => {
            if id == 0x03 {
                p.content_type = Some(c);
            } else if id == 0x08 {
                p.response_topic = Some(c);
            } else if id == 0x12 {
                p.assigned_client_identifier = Some(c);
            } else if id == 0x15 {
                p.authentication_method = Some(c);
            } else if id == 0x1A {
                p.response_information = Some(c);
            } else if id == 0x1C {
                p.server_reference = Some(c);
            } else {
                p.reason_string = Some(c);
            }
        },
        PropVal::Bin(b) => {
            if id == 0x09 {
                p.correlation_data = Some(b);
            } else {
                p.authentication_data = Some(b);
            }
        },
        PropVal::Pair(k, v) => {
            let ghost old_pairs = p.user_properties@;
            p.user_properties.push((k, v));
            assert(pair_views(p.user_properties@) =~= pair_views(old_pairs).push((k@, v@)));
        },
    }
    assert(p@ =~= apply_item(old(p)@, (id, v@)));
}

/// Decode a section of properties (without its length prefix).
fn decode_section(s: &[u8]) -> (r: Result<Properties, DecodeFailure>)
    ensures
        match spec_decode_items(s@, empty_props()) {
            Ok(p) => r matches Ok(q) && q@ == p,
            Err(f) => r matches Err(e) && e@ == f,
        },
{
    let mut p = Properties::new();
    let mut pos: usize = 0;
    assert(s@.skip(0) =~= s@);
    while pos < s.len()
        invariant
            pos <= s@.len(),
            spec_decode_items(s@, empty_props()) == spec_decode_items(s@.skip(pos as int), p@),
        decreases s@.len() - pos,
    {
        let rest = &s[pos..s.len()];
        assert(rest@ =~= s@.skip(pos as int));
        let id = rest[0];
        let tail = &rest[1..rest.len()];
        assert(tail@ =~= rest@.skip(1));
        proof {
            lemma_parse_value_len(id, tail@);
        }
        let (v, n) = parse_value(id, tail)?;
        let ghost before = p@;
        apply_value(&mut p, id, v);
        assert(rest@.skip(n + 1) =~= s@.skip(pos + n + 1));
        pos = pos + n + 1;
    }
    assert(s@.skip(pos as int).len() == 0);
    Ok(p)
}

/// Decode a Properties section (length prefix included): the properties and
/// the number of bytes taken.
pub(crate) fn decode_props(src: &[u8]) -> (r: Result<(Properties, usize), DecodeFailure>)
    ensures
        match spec_decode_props(src@) {
            Ok((p, n)) => r matches Ok((q, m)) && q@ == p && m == n,
            Err(f) => r matches Err(e) && e@ == f,
        },
{
    let (len, n) = match read_variable_length(src) {
        Ok(x) => x,
        Err(e) => {
            return Err(DecodeFailure::Invalid(e));
        },
    };
    if src.len() - n < len {
        return Err(DecodeFailure::Invalid(Error::Incomplete));
    }
    let section = &src[n..n + len];
    let p = decode_section(section)?;
    Ok((p, n + len))
}

// ── Executable encoding ──────────────────────────────────────────────────────

/// Encoding a concatenation of property lists is concatenating the encodings.
pub proof fn lemma_encode_items_append(a: Seq<(u8, PropValue)>, b: Seq<(u8, PropValue)>)
    ensures
        encode_items(a + b) == encode_items(a) + encode_items(b),
    decreases a.len(),
{
    if a.len() == 0 {
        assert(a + b =~= b);
        assert(encode_items(a) + encode_items(b) =~= encode_items(b));
    } else {
        assert((a + b).drop_first() =~= a.drop_first() + b);
        lemma_encode_items_append(a.drop_first(), b);
        assert((a + b)[0] == a[0]);
        assert(encode_items(a + b) =~= encode_items(a) + encode_items(b));
    }
}

proof fn lemma_encode_single(it: (u8, PropValue))
    ensures
        encode_items(seq![it]) == encode_item(it),
{
    reveal_with_fuel(encode_items, 2);
    assert(seq![it].drop_first() =~= Seq::<(u8, PropValue)>::empty());
    assert(encode_items(seq![it]) =~= encode_item(it));
}

fn put_byte_prop(buf: &mut Vec<u8>, id: u8, o: Option<u8>)
    ensures
        final(buf)@ == old(buf)@ + encode_items(opt_byte(id, o)),
{
    if let Some(v) = o {
        buf.push(id);
        buf.push(v);
        proof {
            lemma_encode_single((id, PropValue::Byte(v)));
        }
        assert(buf@ =~= old(buf)@ + encode_items(opt_byte(id, o)));
    } else {
        assert(buf@ =~= old(buf)@ + encode_items(opt_byte(id, o)));
    }
}

fn put_bool_prop(buf: &mut Vec<u8>, id: u8, o: Option<bool>)
    ensures
        final(buf)@ == old(buf)@ + encode_items(opt_bool(id, o)),
{
    if let Some(v) = o {
        buf.push(id);
        buf.push(if v { 1 } else { 0 });
        proof {
            lemma_encode_single((id, PropValue::Byte(if v { 1u8 } else { 0u8 })));
        }
        assert(buf@ =~= old(buf)@ + encode_items(opt_bool(id, o)));
    } else {
        assert(buf@ =~= old(buf)@ + encode_items(opt_bool(id, o)));
    }
}

fn put_two_prop(buf: &mut Vec<u8>, id: u8, o: Option<u16>)
    ensures
        final(buf)@ == old(buf)@ + encode_items(opt_two(id, o)),
{
    if let Some(v) = o {
        buf.push(id);
        put_u16(buf, v);
        proof {
            lemma_encode_single((id, PropValue::Two(v)));
        }
        assert(buf@ =~= old(buf)@ + encode_items(opt_two(id, o)));
    } else {
        assert(buf@ =~= old(buf)@ + encode_items(opt_two(id, o)));
    }
}

fn put_four_prop(buf: &mut Vec<u8>, id: u8, o: Option<u32>)
    ensures
        final(buf)@ == old(buf)@ + encode_items(opt_four(id, o)),
{
    if let Some(v) = o {
        buf.push(id);
        put_u32(buf, v);
        proof {
            lemma_encode_single((id, PropValue::Four(v)));
        }
        assert(buf@ =~= old(buf)@ + encode_items(opt_four(id, o)));
    } else {
        assert(buf@ =~= old(buf)@ + encode_items(opt_four(id, o)));
    }
}

fn put_str_prop(buf: &mut Vec<u8>, id: u8, o: &Option<String>)
    ensures
        final(buf)@ == old(buf)@ + encode_items(opt_string(id, opt_str(*o))),
{
    if let Some(v) = o {
        buf.push(id);
        put_utf8_string(buf, v.as_str());
        proof {
            lemma_encode_single((id, PropValue::Str(v@)));
        }
        assert(buf@ =~= old(buf)@ + encode_items(opt_string(id, opt_str(*o))));
    } else {
        assert(buf@ =~= old(buf)@ + encode_items(opt_string(id, opt_str(*o))));
    }
}

fn put_bin_prop(buf: &mut Vec<u8>, id: u8, o: &Option<Vec<u8>>)
    ensures
        final(buf)@ == old(buf)@ + encode_items(opt_binary(id, opt_bin(*o))),
{
    if let Some(v) = o {
        buf.push(id);
        crate::wire::put_binary_data(buf, v.as_slice());
        proof {
            lemma_encode_single((id, PropValue::Bin(v@)));
        }
        assert(buf@ =~= old(buf)@ + encode_items(opt_binary(id, opt_bin(*o))));
    } else {
        assert(buf@ =~= old(buf)@ + encode_items(opt_binary(id, opt_bin(*o))));
    }
}

fn put_sub_ids(buf: &mut Vec<u8>, ids: &Vec<u32>)
    ensures
        final(buf)@ == old(buf)@ + encode_items(sub_id_items(ids@)),
{
    let mut i: usize = 0;
    assert(sub_id_items(ids@.take(0)) =~= Seq::<(u8, PropValue)>::empty());
    assert(buf@ =~= old(buf)@ + encode_items(sub_id_items(ids@.take(0))));
    while i < ids.len()
        invariant
            i <= ids@.len(),
            buf@ == old(buf)@ + encode_items(sub_id_items(ids@.take(i as int))),
        decreases ids@.len() - i,
    {
        let x = ids[i];
        buf.push(0x0B);
        put_variable_length(buf, x as usize);
        proof {
            let it = (0x0Bu8, PropValue::Var(x as nat));
            assert(sub_id_items(ids@.take(i + 1)) =~= sub_id_items(ids@.take(i as int)) + seq![
                it,
            ]);
            lemma_encode_items_append(sub_id_items(ids@.take(i as int)), seq![it]);
            lemma_encode_single(it);
        }
        i = i + 1;
        assert(buf@ =~= old(buf)@ + encode_items(sub_id_items(ids@.take(i as int))));
    }
    assert(ids@.take(ids@.len() as int) =~= ids@);
}

fn put_user_props(buf: &mut Vec<u8>, kvs: &Vec<(String, String)>)
    ensures
        final(buf)@ == old(buf)@ + encode_items(user_items(pair_views(kvs@))),
{
    let mut i: usize = 0;
    assert(user_items(pair_views(kvs@.take(0))) =~= Seq::<(u8, PropValue)>::empty());
    assert(buf@ =~= old(buf)@ + encode_items(user_items(pair_views(kvs@.take(0)))));
    while i < kvs.len()
        invariant
            i <= kvs@.len(),
            buf@ == old(buf)@ + encode_items(user_items(pair_views(kvs@.take(i as int)))),
        decreases kvs@.len() - i,
    {
        let kv = &kvs[i];
        buf.push(0x26);
        put_utf8_string(buf, kv.0.as_str());
        put_utf8_string(buf, kv.1.as_str());
        proof {
            let it = (0x26u8, PropValue::Pair(kv.0@, kv.1@));
            assert(user_items(pair_views(kvs@.take(i + 1))) =~= user_items(
                pair_views(kvs@.take(i as int)),
            ) + seq![it]);
            lemma_encode_items_append(user_items(pair_views(kvs@.take(i as int))), seq![it]);
            lemma_encode_single(it);
        }
        i = i + 1;
        assert(buf@ =~= old(buf)@ + encode_items(user_items(pair_views(kvs@.take(i as int)))));
    }
    assert(kvs@.take(kvs@.len() as int) =~= kvs@);
}

impl Properties {
    /// Properties with nothing set.
    pub fn new() -> (r: Self)
        ensures
            r@ == empty_props(),
    {
        let r = Properties {
            payload_format_indicator: None,
            message_expiry_interval: None,
            content_type: None,
            response_topic: None,
            correlation_data: None,
            subscription_identifiers: Vec::new(),
            session_expiry_interval: None,
            assigned_client_identifier: None,
            server_keep_alive: None,
            authentication_method: None,
            authentication_data: None,
            request_problem_information: None,
            will_delay_interval: None,
            request_response_information: None,
            response_information: None,
            server_reference: None,
            reason_string: None,
            receive_maximum: None,
            topic_alias_maximum: None,
            topic_alias: None,
            maximum_qos: None,
            retain_available: None,
            user_properties: Vec::new(),
            maximum_packet_size: None,
            wildcard_subscription_available: None,
            subscription_identifier_available: None,
            shared_subscription_available: None,
        };
        assert(r@ =~= empty_props());
        r
    }

    /// Returns true if no property is set (an empty section).
    pub fn is_empty(&self) -> (r: bool)
        ensures
            r == (self@ == empty_props()),
    {
        let r = self.payload_format_indicator.is_none() && self.message_expiry_interval.is_none()
            && self.content_type.is_none() && self.response_topic.is_none()
            && self.correlation_data.is_none() && self.subscription_identifiers.len() == 0
            && self.session_expiry_interval.is_none()
            && self.assigned_client_identifier.is_none() && self.server_keep_alive.is_none()
            && self.authentication_method.is_none() && self.authentication_data.is_none()
            && self.request_problem_information.is_none() && self.will_delay_interval.is_none()
            && self.request_response_information.is_none()
            && self.response_information.is_none() && self.server_reference.is_none()
            && self.reason_string.is_none() && self.receive_maximum.is_none()
            && self.topic_alias_maximum.is_none() && self.topic_alias.is_none()
            && self.maximum_qos.is_none() && self.retain_available.is_none()
            && self.user_properties.len() == 0 && self.maximum_packet_size.is_none()
            && self.wildcard_subscription_available.is_none()
            && self.subscription_identifier_available.is_none()
            && self.shared_subscription_available.is_none();
        proof {
            if r {
                assert(self@ =~= empty_props());
            }
        }
        r
    }

    /// Decode a Properties section from the start of `src`: the properties and
    /// the number of bytes taken.  A section that runs past the end of `src`
    /// is incomplete.
    pub fn decode(src: &[u8]) -> (r: Result<(Properties, usize), Error>)
        ensures
            match spec_decode_props(src@) {
                Ok((p, n)) => r matches Ok((q, m)) && q@ == p && m == n,
                Err(Fail::Rejected(e)) => r matches Err(x) && x@ == e,
                Err(Fail::Truncated) => r matches Err(Error::Incomplete),
            },
    {
        match decode_props(src) {
            Ok(x) => Ok(x),
            Err(DecodeFailure::Invalid(e)) => Err(e),
            Err(DecodeFailure::Truncated) => Err(Error::Incomplete),
        }
    }

    /// Append the first group of properties.
    fn encode_group_a(&self, buf: &mut Vec<u8>)
        ensures
            final(buf)@ == old(buf)@ + encode_items(prop_items_a(self@)),
    {
        let ghost p = self@;
        let ghost mut items: Seq<(u8, PropValue)> = opt_byte(0x01, p.payload_format_indicator);
        put_byte_prop(buf, 0x01, self.payload_format_indicator);
        proof {
            lemma_encode_items_append(items, opt_four(0x02, p.message_expiry_interval));
            items = items + opt_four(0x02, p.message_expiry_interval);
        }
        put_four_prop(buf, 0x02, self.message_expiry_interval);
        proof {
            lemma_encode_items_append(items, opt_string(0x03, p.content_type));
            items = items + opt_string(0x03, p.content_type);
        }
        put_str_prop(buf, 0x03, &self.content_type);
        proof {
            lemma_encode_items_append(items, opt_string(0x08, p.response_topic));
            items = items + opt_string(0x08, p.response_topic);
        }
        put_str_prop(buf, 0x08, &self.response_topic);
        proof {
            lemma_encode_items_append(items, opt_binary(0x09, p.correlation_data));
            items = items + opt_binary(0x09, p.correlation_data);
        }
        put_bin_prop(buf, 0x09, &self.correlation_data);
        proof {
            lemma_encode_items_append(items, sub_id_items(p.subscription_identifiers));
            items = items + sub_id_items(p.subscription_identifiers);
        }
        put_sub_ids(buf, &self.subscription_identifiers);
        assert(items == prop_items_a(p));
    }

    /// Append the second group of properties.
    fn encode_group_b(&self, buf: &mut Vec<u8>)
        ensures
            final(buf)@ == old(buf)@ + encode_items(prop_items_b(self@)),
    {
        let ghost p = self@;
        let ghost mut items: Seq<(u8, PropValue)> = opt_four(0x11, p.session_expiry_interval);
        put_four_prop(buf, 0x11, self.session_expiry_interval);
        proof {
            lemma_encode_items_append(items, opt_string(0x12, p.assigned_client_identifier));
            items = items + opt_string(0x12, p.assigned_client_identifier);
        }
        put_str_prop(buf, 0x12, &self.assigned_client_identifier);
        proof {
            lemma_encode_items_append(items, opt_two(0x13, p.server_keep_alive));
            items = items + opt_two(0x13, p.server_keep_alive);
        }
        put_two_prop(buf, 0x13, self.server_keep_alive);
        proof {
            lemma_encode_items_append(items, opt_string(0x15, p.authentication_method));
            items = items + opt_string(0x15, p.authentication_method);
        }
        put_str_prop(buf, 0x15, &self.authentication_method);
        proof {
            lemma_encode_items_append(items, opt_binary(0x16, p.authentication_data));
            items = items + opt_binary(0x16, p.authentication_data);
        }
        put_bin_prop(buf, 0x16, &self.authentication_data);
        proof {
            lemma_encode_items_append(items, opt_bool(0x17, p.request_problem_information));
            items = items + opt_bool(0x17, p.request_problem_information);
        }
        put_bool_prop(buf, 0x17, self.request_problem_information);
        proof {
            lemma_encode_items_append(items, opt_four(0x18, p.will_delay_interval));
            items = items + opt_four(0x18, p.will_delay_interval);
        }
        put_four_prop(buf, 0x18, self.will_delay_interval);
        assert(items == prop_items_b(p));
    }

    /// Append the third group of properties.
    fn encode_group_c(&self, buf: &mut Vec<u8>)
        ensures
            final(buf)@ == old(buf)@ + encode_items(prop_items_c(self@)),
    {
        let ghost p = self@;
        let ghost mut items: Seq<(u8, PropValue)> = opt_bool(0x19, p.request_response_information);
        put_bool_prop(buf, 0x19, self.request_response_information);
        proof {
            lemma_encode_items_append(items, opt_string(0x1A, p.response_information));
            items = items + opt_string(0x1A, p.response_information);
        }
        put_str_prop(buf, 0x1A, &self.response_information);
        proof {
            lemma_encode_items_append(items, opt_string(0x1C, p.server_reference));
            items = items + opt_string(0x1C, p.server_reference);
        }
        put_str_prop(buf, 0x1C, &self.server_reference);
        proof {
            lemma_encode_items_append(items, opt_string(0x1F, p.reason_string));
            items = items + opt_string(0x1F, p.reason_string);
        }
        put_str_prop(buf, 0x1F, &self.reason_string);
        proof {
            lemma_encode_items_append(items, opt_two(0x21, p.receive_maximum));
            items = items + opt_two(0x21, p.receive_maximum);
        }
        put_two_prop(buf, 0x21, self.receive_maximum);
        proof {
            lemma_encode_items_append(items, opt_two(0x22, p.topic_alias_maximum));
            items = items + opt_two(0x22, p.topic_alias_maximum);
        }
        put_two_prop(buf, 0x22, self.topic_alias_maximum);
        proof {
            lemma_encode_items_append(items, opt_two(0x23, p.topic_alias));
            items = items + opt_two(0x23, p.topic_alias);
        }
        put_two_prop(buf, 0x23, self.topic_alias);
        assert(items == prop_items_c(p));
    }

    /// Append the fourth group of properties.
    fn encode_group_d(&self, buf: &mut Vec<u8>)
        ensures
            final(buf)@ == old(buf)@ + encode_items(prop_items_d(self@)),
    {
        let ghost p = self@;
        let ghost mut items: Seq<(u8, PropValue)> = opt_byte(0x24, p.maximum_qos);
        put_byte_prop(buf, 0x24, self.maximum_qos);
        proof {
            lemma_encode_items_append(items, opt_bool(0x25, p.retain_available));
            items = items + opt_bool(0x25, p.retain_available);
        }
        put_bool_prop(buf, 0x25, self.retain_available);
        proof {
            lemma_encode_items_append(items, user_items(p.user_properties));
            items = items + user_items(p.user_properties);
        }
        put_user_props(buf, &self.user_properties);
        proof {
            lemma_encode_items_append(items, opt_four(0x27, p.maximum_packet_size));
            items = items + opt_four(0x27, p.maximum_packet_size);
        }
        put_four_prop(buf, 0x27, self.maximum_packet_size);
        proof {
            lemma_encode_items_append(items, opt_bool(0x28, p.wildcard_subscription_available));
            items = items + opt_bool(0x28, p.wildcard_subscription_available);
        }
        put_bool_prop(buf, 0x28, self.wildcard_subscription_available);
        proof {
            lemma_encode_items_append(items, opt_bool(0x29, p.subscription_identifier_available));
            items = items + opt_bool(0x29, p.subscription_identifier_available);
        }
        put_bool_prop(buf, 0x29, self.subscription_identifier_available);
        proof {
            lemma_encode_items_append(items, opt_bool(0x2A, p.shared_subscription_available));
            items = items + opt_bool(0x2A, p.shared_subscription_available);
        }
        put_bool_prop(buf, 0x2A, self.shared_subscription_available);
        assert(items == prop_items_d(p));
    }

    /// Append the properties without the length prefix.
    fn encode_properties_into(&self, buf: &mut Vec<u8>)
        ensures
            final(buf)@ == old(buf)@ + props_body(self@),
    {
        let ghost p = self@;
        self.encode_group_a(buf);
        self.encode_group_b(buf);
        self.encode_group_c(buf);
        self.encode_group_d(buf);
        proof {
            lemma_encode_items_append(prop_items_a(p), prop_items_b(p));
            lemma_encode_items_append(prop_items_a(p) + prop_items_b(p), prop_items_c(p));
            lemma_encode_items_append(
                prop_items_a(p) + prop_items_b(p) + prop_items_c(p),
                prop_items_d(p),
            );
        }
        assert(buf@ =~= old(buf)@ + props_body(p));
    }

    /// Write the Properties section (length prefix included) to a buffer.
    pub fn encode(&self, dst: &mut BytesMut)
        requires
            buffer_bytes(*old(dst)).len() + props_bytes(self@).len() <= isize::MAX,
        ensures
            buffer_bytes(*final(dst)) == buffer_bytes(*old(dst)) + props_bytes(self@),
    {
        let mut v: Vec<u8> = Vec::new();
        self.encode_into(&mut v);
        assert(v@ =~= props_bytes(self@));
        buffer_extend(dst, v.as_slice());
    }

    /// Append the Properties section (length prefix included).
    pub fn encode_into(&self, dst: &mut Vec<u8>)
        ensures
            final(dst)@ == old(dst)@ + props_bytes(self@),
    {
        let mut tmp: Vec<u8> = Vec::new();
        self.encode_properties_into(&mut tmp);
        assert(tmp@ =~= props_body(self@));
        put_variable_length(dst, tmp.len());
        append_bytes(dst, tmp.as_slice());
        assert(dst@ =~= old(dst)@ + props_bytes(self@));
    }

    /// The encoded byte length of this Properties section (length prefix
    /// included).
    pub fn encoded_len(&self) -> (r: usize)
        requires
            props_body(self@).len() + 4 <= usize::MAX,
        ensures
            r == varint_size(props_body(self@).len()) + props_body(self@).len(),
    {
        let mut tmp: Vec<u8> = Vec::new();
        self.encode_properties_into(&mut tmp);
        assert(tmp@ =~= props_body(self@));
        let payload_len = tmp.len();
        variable_length_size(payload_len) + payload_len
    }
}

/// `encoded_len` reports the number of bytes `encode` appends: the length
/// prefix and the body, for every section whose body fits a variable byte
/// integer.
pub proof fn lemma_encoded_len(p: PropertiesView)
    requires
        props_body(p).len() <= crate::wire::MAX_VARINT,
    ensures
        props_bytes(p).len() == varint_size(props_body(p).len()) + props_body(p).len(),
{
    crate::wire::lemma_varint_roundtrip(props_body(p).len(), Seq::empty());
}

impl Default for Properties {
    fn default() -> (r: Self)
        ensures
            r@ == empty_props(),
    {
        Properties::new()
    }
}


// ── Encoding then decoding ───────────────────────────────────────────────────

/// A property whose value has the type its identifier calls for and fits
/// its wire format.
pub open spec fn item_wf(it: (u8, PropValue)) -> bool {
    match it.1 {
        PropValue::Byte(_) => is_byte_prop(it.0),
        PropValue::Two(_) => is_two_prop(it.0),
        PropValue::Four(_) => is_four_prop(it.0),
        PropValue::Var(n) => it.0 == 0x0B && n <= MAX_VARINT,
        PropValue::Str(c) => is_str_prop(it.0) && encode_utf8(c).len() <= 65535,
        PropValue::Bin(b) => is_bin_prop(it.0) && b.len() <= 65535,
        PropValue::Pair(k, v) => it.0 == 0x26 && encode_utf8(k).len() <= 65535 && encode_utf8(
            v,
        ).len() <= 65535,
    }
}

/// Every property of the list is well formed.
pub open spec fn items_wf(items: Seq<(u8, PropValue)>) -> bool {
    forall|i: int| 0 <= i < items.len() ==> item_wf(#[trigger] items[i])
}

/// Applying a list of decoded properties one after another.
pub open spec fn apply_items(acc: PropertiesView, items: Seq<(u8, PropValue)>) -> PropertiesView
    decreases items.len(),
{
    if items.len() == 0 {
        acc
    } else {
        apply_items(apply_item(acc, items[0]), items.drop_first())
    }
}

/// An optional string that fits a string field.
pub open spec fn opt_str_fits(o: Option<Seq<char>>) -> bool {
    match o {
        Some(c) => encode_utf8(c).len() <= 65535,
        None => true,
    }
}

/// Optional binary data that fits a binary field.
pub open spec fn opt_bin_fits(o: Option<Seq<u8>>) -> bool {
    match o {
        Some(b) => b.len() <= 65535,
        None => true,
    }
}

/// Properties that the encoder writes faithfully: every string and binary
/// value fits its 16-bit length prefix, every subscription identifier fits a
/// variable byte integer, and so does the length of the whole section.
pub open spec fn props_wf(p: PropertiesView) -> bool {
    &&& opt_str_fits(p.content_type)
    &&& opt_str_fits(p.response_topic)
    &&& opt_bin_fits(p.correlation_data)
    &&& forall|i: int|
        0 <= i < p.subscription_identifiers.len() ==> #[trigger] p.subscription_identifiers[i]
            <= MAX_VARINT
    &&& opt_str_fits(p.assigned_client_identifier)
    &&& opt_str_fits(p.authentication_method)
    &&& opt_bin_fits(p.authentication_data)
    &&& opt_str_fits(p.response_information)
    &&& opt_str_fits(p.server_reference)
    &&& opt_str_fits(p.reason_string)
    &&& forall|i: int|
        0 <= i < p.user_properties.len() ==> encode_utf8(
            (#[trigger] p.user_properties[i]).0,
        ).len() <= 65535 && encode_utf8(p.user_properties[i].1).len() <= 65535
    &&& props_body(p).len() <= MAX_VARINT
}

proof fn lemma_item_roundtrip(it: (u8, PropValue), rest: Seq<u8>)
    requires
        item_wf(it),
    ensures
        spec_parse_item(encode_item(it) + rest) == Ok::<((u8, PropValue), int), Fail>(
            (it, encode_item(it).len() as int),
        ),
        encode_item(it).len() >= 1,
{
    let s = encode_item(it) + rest;
    let t = encode_value(it.1) + rest;
    assert(s[0] == it.0);
    assert(s.skip(1) =~= t);
    match it.1 {
        PropValue::Byte(b) => {
            assert(t[0] == b);
        },
        PropValue::Two(x) => {
            lemma_u16_roundtrip(x, rest);
        },
        PropValue::Four(x) => {
            lemma_u32_roundtrip(x, rest);
        },
        PropValue::Var(n) => {
            lemma_varint_roundtrip(n, rest);
        },
        PropValue::Str(c) => {
            lemma_string_roundtrip(c, rest);
        },
        PropValue::Bin(b) => {
            lemma_prefixed_roundtrip(b, rest);
        },
        PropValue::Pair(k, v) => {
            lemma_string_roundtrip(k, string_bytes(v) + rest);
            assert(t =~= string_bytes(k) + (string_bytes(v) + rest));
            let n1 = encode_utf8(k).len() + 2int;
            assert(t.skip(n1) =~= string_bytes(v) + rest);
            lemma_string_roundtrip(v, rest);
        },
    }
}

/// Decoding the encoding of a list of well-formed properties applies them in order.
pub proof fn lemma_items_roundtrip(items: Seq<(u8, PropValue)>, acc: PropertiesView)
    requires
        items_wf(items),
    ensures
        spec_decode_items(encode_items(items), acc) == Ok::<PropertiesView, Fail>(
            apply_items(acc, items),
        ),
    decreases items.len(),
{
    if items.len() > 0 {
        let rest = encode_items(items.drop_first());
        assert(item_wf(items[0]));
        lemma_item_roundtrip(items[0], rest);
        let s = encode_items(items);
        let n = encode_item(items[0]).len() as int;
        assert(s.skip(n) =~= rest);
        assert forall|i: int| 0 <= i < items.drop_first().len() implies item_wf(
            #[trigger] items.drop_first()[i],
        ) by {
            assert(items.drop_first()[i] == items[i + 1]);
        }
        lemma_items_roundtrip(items.drop_first(), apply_item(acc, items[0]));
    }
}

proof fn lemma_items_wf_append(a: Seq<(u8, PropValue)>, b: Seq<(u8, PropValue)>)
    requires
        items_wf(a),
        items_wf(b),
    ensures
        items_wf(a + b),
{
    assert forall|i: int| 0 <= i < (a + b).len() implies item_wf(#[trigger] (a + b)[i]) by {
        if i < a.len() {
            assert((a + b)[i] == a[i]);
        } else {
            assert((a + b)[i] == b[i - a.len()]);
        }
    }
}

/// Applying a concatenation of property lists applies one list, then the other.
proof fn lemma_apply_items_append(
    acc: PropertiesView,
    a: Seq<(u8, PropValue)>,
    b: Seq<(u8, PropValue)>,
)
    ensures
        apply_items(acc, a + b) == apply_items(apply_items(acc, a), b),
    decreases a.len(),
{
    if a.len() == 0 {
        assert(a + b =~= b);
    } else {
        assert((a + b).drop_first() =~= a.drop_first() + b);
        assert((a + b)[0] == a[0]);
        lemma_apply_items_append(apply_item(acc, a[0]), a.drop_first(), b);
    }
}

proof fn lemma_apply_single(acc: PropertiesView, it: (u8, PropValue))
    ensures
        apply_items(acc, seq![it]) == apply_item(acc, it),
        apply_items(acc, Seq::<(u8, PropValue)>::empty()) == acc,
{
    reveal_with_fuel(apply_items, 2);
    assert(seq![it].drop_first() =~= Seq::<(u8, PropValue)>::empty());
}

proof fn lemma_apply_sub_ids(acc: PropertiesView, ids: Seq<u32>)
    ensures
        apply_items(acc, sub_id_items(ids)) == (PropertiesView {
            subscription_identifiers: acc.subscription_identifiers + ids,
            ..acc
        }),
    decreases ids.len(),
{
    if ids.len() == 0 {
        lemma_apply_single(acc, (0x0Bu8, PropValue::Byte(0)));
        assert(sub_id_items(ids) =~= Seq::<(u8, PropValue)>::empty());
        assert(acc.subscription_identifiers + ids =~= acc.subscription_identifiers);
        assert(acc =~= PropertiesView {
            subscription_identifiers: acc.subscription_identifiers + ids,
            ..acc
        });
    } else {
        let first = (0x0Bu8, PropValue::Var(ids[0] as nat));
        assert(sub_id_items(ids)[0] == first);
        assert(sub_id_items(ids).drop_first() =~= sub_id_items(ids.drop_first()));
        let acc1 = apply_item(acc, first);
        lemma_apply_sub_ids(acc1, ids.drop_first());
        assert(acc1.subscription_identifiers + ids.drop_first() =~= acc.subscription_identifiers
            + ids);
        assert(apply_items(acc, sub_id_items(ids)) =~= PropertiesView {
            subscription_identifiers: acc.subscription_identifiers + ids,
            ..acc
        });
    }
}

proof fn lemma_apply_user_props(acc: PropertiesView, kvs: Seq<(Seq<char>, Seq<char>)>)
    ensures
        apply_items(acc, user_items(kvs)) == (PropertiesView {
            user_properties: acc.user_properties + kvs,
            ..acc
        }),
    decreases kvs.len(),
{
    if kvs.len() == 0 {
        lemma_apply_single(acc, (0x0Bu8, PropValue::Byte(0)));
        assert(user_items(kvs) =~= Seq::<(u8, PropValue)>::empty());
        assert(acc =~= PropertiesView { user_properties: acc.user_properties + kvs, ..acc });
    } else {
        let first = (0x26u8, PropValue::Pair(kvs[0].0, kvs[0].1));
        assert(user_items(kvs)[0] == first);
        assert(user_items(kvs).drop_first() =~= user_items(kvs.drop_first()));
        let acc1 = apply_item(acc, first);
        lemma_apply_user_props(acc1, kvs.drop_first());
        assert(acc1.user_properties + kvs.drop_first() =~= acc.user_properties + kvs);
        assert(apply_items(acc, user_items(kvs)) =~= PropertiesView {
            user_properties: acc.user_properties + kvs,
            ..acc
        });
    }
}

proof fn lemma_opt_blocks(acc: PropertiesView, id: u8, p: PropertiesView)
    ensures
        forall|o: Option<u8>|
            #![trigger opt_byte(id, o)]
            apply_items(acc, opt_byte(id, o)) == match o {
                Some(x) => apply_item(acc, (id, PropValue::Byte(x))),
                None => acc,
            },
        forall|o: Option<bool>|
            #![trigger opt_bool(id, o)]
            apply_items(acc, opt_bool(id, o)) == match o {
                Some(x) => apply_item(acc, (id, PropValue::Byte(if x { 1u8 } else { 0u8 }))),
                None => acc,
            },
        forall|o: Option<u16>|
            #![trigger opt_two(id, o)]
            apply_items(acc, opt_two(id, o)) == match o {
                Some(x) => apply_item(acc, (id, PropValue::Two(x))),
                None => acc,
            },
        forall|o: Option<u32>|
            #![trigger opt_four(id, o)]
            apply_items(acc, opt_four(id, o)) == match o {
                Some(x) => apply_item(acc, (id, PropValue::Four(x))),
                None => acc,
            },
        forall|o: Option<Seq<char>>|
            #![trigger opt_string(id, o)]
            apply_items(acc, opt_string(id, o)) == match o {
                Some(x) => apply_item(acc, (id, PropValue::Str(x))),
                None => acc,
            },
        forall|o: Option<Seq<u8>>|
            #![trigger opt_binary(id, o)]
            apply_items(acc, opt_binary(id, o)) == match o {
                Some(x) => apply_item(acc, (id, PropValue::Bin(x))),
                None => acc,
            },
{
    reveal_with_fuel(apply_items, 2);
    assert forall|it: (u8, PropValue)| #[trigger] seq![it].drop_first() =~= Seq::<
        (u8, PropValue),
    >::empty() by {}
}

proof fn lemma_group_a(acc: PropertiesView, p: PropertiesView)
    ensures
        apply_items(acc, prop_items_a(p)) == (PropertiesView {
            payload_format_indicator: if p.payload_format_indicator is Some { p.payload_format_indicator } else { acc.payload_format_indicator },
            message_expiry_interval: if p.message_expiry_interval is Some { p.message_expiry_interval } else { acc.message_expiry_interval },
            content_type: if p.content_type is Some { p.content_type } else { acc.content_type },
            response_topic: if p.response_topic is Some { p.response_topic } else { acc.response_topic },
            correlation_data: if p.correlation_data is Some { p.correlation_data } else { acc.correlation_data },
            subscription_identifiers: acc.subscription_identifiers + p.subscription_identifiers,
            ..acc
        }),
{
    let b1 = opt_byte(0x01, p.payload_format_indicator);
    let b2 = opt_four(0x02, p.message_expiry_interval);
    let b3 = opt_string(0x03, p.content_type);
    let b4 = opt_string(0x08, p.response_topic);
    let b5 = opt_binary(0x09, p.correlation_data);
    let b6 = sub_id_items(p.subscription_identifiers);
    lemma_apply_items_append(acc, b1 + b2 + b3 + b4 + b5, b6);
    lemma_apply_items_append(acc, b1 + b2 + b3 + b4, b5);
    lemma_apply_items_append(acc, b1 + b2 + b3, b4);
    lemma_apply_items_append(acc, b1 + b2, b3);
    lemma_apply_items_append(acc, b1, b2);
    let a1 = apply_items(acc, b1);
    let a2 = apply_items(a1, b2);
    let a3 = apply_items(a2, b3);
    let a4 = apply_items(a3, b4);
    let a5 = apply_items(a4, b5);
    lemma_opt_blocks(acc, 0x01, p);
    lemma_opt_blocks(a1, 0x02, p);
    lemma_opt_blocks(a2, 0x03, p);
    lemma_opt_blocks(a3, 0x08, p);
    lemma_opt_blocks(a4, 0x09, p);
    lemma_apply_sub_ids(a5, p.subscription_identifiers);
}

proof fn lemma_group_b(acc: PropertiesView, p: PropertiesView)
    ensures
        apply_items(acc, prop_items_b(p)) == (PropertiesView {
            session_expiry_interval: if p.session_expiry_interval is Some { p.session_expiry_interval } else { acc.session_expiry_interval },
            assigned_client_identifier: if p.assigned_client_identifier is Some { p.assigned_client_identifier } else { acc.assigned_client_identifier },
            server_keep_alive: if p.server_keep_alive is Some { p.server_keep_alive } else { acc.server_keep_alive },
            authentication_method: if p.authentication_method is Some { p.authentication_method } else { acc.authentication_method },
            authentication_data: if p.authentication_data is Some { p.authentication_data } else { acc.authentication_data },
            request_problem_information: if p.request_problem_information is Some { p.request_problem_information } else { acc.request_problem_information },
            will_delay_interval: if p.will_delay_interval is Some { p.will_delay_interval } else { acc.will_delay_interval },
            ..acc
        }),
{
    let b1 = opt_four(0x11, p.session_expiry_interval);
    let b2 = opt_string(0x12, p.assigned_client_identifier);
    let b3 = opt_two(0x13, p.server_keep_alive);
    let b4 = opt_string(0x15, p.authentication_method);
    let b5 = opt_binary(0x16, p.authentication_data);
    let b6 = opt_bool(0x17, p.request_problem_information);
    let b7 = opt_four(0x18, p.will_delay_interval);
    lemma_apply_items_append(acc, b1 + b2 + b3 + b4 + b5 + b6, b7);
    lemma_apply_items_append(acc, b1 + b2 + b3 + b4 + b5, b6);
    lemma_apply_items_append(acc, b1 + b2 + b3 + b4, b5);
    lemma_apply_items_append(acc, b1 + b2 + b3, b4);
    lemma_apply_items_append(acc, b1 + b2, b3);
    lemma_apply_items_append(acc, b1, b2);
    let a0 = acc;
    let a1 = apply_items(a0, b1);
    let a2 = apply_items(a1, b2);
    let a3 = apply_items(a2, b3);
    let a4 = apply_items(a3, b4);
    let a5 = apply_items(a4, b5);
    let a6 = apply_items(a5, b6);
    lemma_opt_blocks(a0, 0x11, p);
    lemma_opt_blocks(a1, 0x12, p);
    lemma_opt_blocks(a2, 0x13, p);
    lemma_opt_blocks(a3, 0x15, p);
    lemma_opt_blocks(a4, 0x16, p);
    lemma_opt_blocks(a5, 0x17, p);
    lemma_opt_blocks(a6, 0x18, p);
}

proof fn lemma_group_c(acc: PropertiesView, p: PropertiesView)
    ensures
        apply_items(acc, prop_items_c(p)) == (PropertiesView {
            request_response_information: if p.request_response_information is Some { p.request_response_information } else { acc.request_response_information },
            response_information: if p.response_information is Some { p.response_information } else { acc.response_information },
            server_reference: if p.server_reference is Some { p.server_reference } else { acc.server_reference },
            reason_string: if p.reason_string is Some { p.reason_string } else { acc.reason_string },
            receive_maximum: if p.receive_maximum is Some { p.receive_maximum } else { acc.receive_maximum },
            topic_alias_maximum: if p.topic_alias_maximum is Some { p.topic_alias_maximum } else { acc.topic_alias_maximum },
            topic_alias: if p.topic_alias is Some { p.topic_alias } else { acc.topic_alias },
            ..acc
        }),
{
    let b1 = opt_bool(0x19, p.request_response_information);
    let b2 = opt_string(0x1A, p.response_information);
    let b3 = opt_string(0x1C, p.server_reference);
    let b4 = opt_string(0x1F, p.reason_string);
    let b5 = opt_two(0x21, p.receive_maximum);
    let b6 = opt_two(0x22, p.topic_alias_maximum);
    let b7 = opt_two(0x23, p.topic_alias);
    lemma_apply_items_append(acc, b1 + b2 + b3 + b4 + b5 + b6, b7);
    lemma_apply_items_append(acc, b1 + b2 + b3 + b4 + b5, b6);
    lemma_apply_items_append(acc, b1 + b2 + b3 + b4, b5);
    lemma_apply_items_append(acc, b1 + b2 + b3, b4);
    lemma_apply_items_append(acc, b1 + b2, b3);
    lemma_apply_items_append(acc, b1, b2);
    let a0 = acc;
    let a1 = apply_items(a0, b1);
    let a2 = apply_items(a1, b2);
    let a3 = apply_items(a2, b3);
    let a4 = apply_items(a3, b4);
    let a5 = apply_items(a4, b5);
    let a6 = apply_items(a5, b6);
    lemma_opt_blocks(a0, 0x19, p);
    lemma_opt_blocks(a1, 0x1A, p);
    lemma_opt_blocks(a2, 0x1C, p);
    lemma_opt_blocks(a3, 0x1F, p);
    lemma_opt_blocks(a4, 0x21, p);
    lemma_opt_blocks(a5, 0x22, p);
    lemma_opt_blocks(a6, 0x23, p);
}

proof fn lemma_group_d(acc: PropertiesView, p: PropertiesView)
    ensures
        apply_items(acc, prop_items_d(p)) == (PropertiesView {
            maximum_qos: if p.maximum_qos is Some { p.maximum_qos } else { acc.maximum_qos },
            retain_available: if p.retain_available is Some { p.retain_available } else { acc.retain_available },
            user_properties: acc.user_properties + p.user_properties,
            maximum_packet_size: if p.maximum_packet_size is Some { p.maximum_packet_size } else { acc.maximum_packet_size },
            wildcard_subscription_available: if p.wildcard_subscription_available is Some { p.wildcard_subscription_available } else { acc.wildcard_subscription_available },
            subscription_identifier_available: if p.subscription_identifier_available is Some { p.subscription_identifier_available } else { acc.subscription_identifier_available },
            shared_subscription_available: if p.shared_subscription_available is Some { p.shared_subscription_available } else { acc.shared_subscription_available },
            ..acc
        }),
{
    let b1 = opt_byte(0x24, p.maximum_qos);
    let b2 = opt_bool(0x25, p.retain_available);
    let b3 = user_items(p.user_properties);
    let b4 = opt_four(0x27, p.maximum_packet_size);
    let b5 = opt_bool(0x28, p.wildcard_subscription_available);
    let b6 = opt_bool(0x29, p.subscription_identifier_available);
    let b7 = opt_bool(0x2A, p.shared_subscription_available);
    lemma_apply_items_append(acc, b1 + b2 + b3 + b4 + b5 + b6, b7);
    lemma_apply_items_append(acc, b1 + b2 + b3 + b4 + b5, b6);
    lemma_apply_items_append(acc, b1 + b2 + b3 + b4, b5);
    lemma_apply_items_append(acc, b1 + b2 + b3, b4);
    lemma_apply_items_append(acc, b1 + b2, b3);
    lemma_apply_items_append(acc, b1, b2);
    let a0 = acc;
    let a1 = apply_items(a0, b1);
    let a2 = apply_items(a1, b2);
    let a3 = apply_items(a2, b3);
    let a4 = apply_items(a3, b4);
    let a5 = apply_items(a4, b5);
    let a6 = apply_items(a5, b6);
    lemma_opt_blocks(a0, 0x24, p);
    lemma_opt_blocks(a1, 0x25, p);
    lemma_apply_user_props(a2, p.user_properties);
    lemma_opt_blocks(a3, 0x27, p);
    lemma_opt_blocks(a4, 0x28, p);
    lemma_opt_blocks(a5, 0x29, p);
    lemma_opt_blocks(a6, 0x2A, p);
}

proof fn lemma_block_wf(b: Seq<(u8, PropValue)>)
    requires
        forall|i: int| 0 <= i < b.len() ==> item_wf(#[trigger] b[i]),
    ensures
        items_wf(b),
{
}

proof fn lemma_group_wf_a(p: PropertiesView)
    requires
        props_wf(p),
    ensures
        items_wf(prop_items_a(p)),
{
    let b0 = opt_byte(0x01, p.payload_format_indicator);
    lemma_block_wf(b0);
    let b1 = opt_four(0x02, p.message_expiry_interval);
    lemma_block_wf(b1);
    let b2 = opt_string(0x03, p.content_type);
    lemma_block_wf(b2);
    let b3 = opt_string(0x08, p.response_topic);
    lemma_block_wf(b3);
    let b4 = opt_binary(0x09, p.correlation_data);
    lemma_block_wf(b4);
    let b5 = sub_id_items(p.subscription_identifiers);
    assert forall|i: int| 0 <= i < b5.len() implies item_wf(#[trigger] b5[i]) by {
        assert(p.subscription_identifiers[i] <= MAX_VARINT);
    }
    lemma_block_wf(b5);
    lemma_items_wf_append(b0, b1);
    lemma_items_wf_append(b0 + b1, b2);
    lemma_items_wf_append(b0 + b1 + b2, b3);
    lemma_items_wf_append(b0 + b1 + b2 + b3, b4);
    lemma_items_wf_append(b0 + b1 + b2 + b3 + b4, b5);
}

proof fn lemma_group_wf_b(p: PropertiesView)
    requires
        props_wf(p),
    ensures
        items_wf(prop_items_b(p)),
{
    let b0 = opt_four(0x11, p.session_expiry_interval);
    lemma_block_wf(b0);
    let b1 = opt_string(0x12, p.assigned_client_identifier);
    lemma_block_wf(b1);
    let b2 = opt_two(0x13, p.server_keep_alive);
    lemma_block_wf(b2);
    let b3 = opt_string(0x15, p.authentication_method);
    lemma_block_wf(b3);
    let b4 = opt_binary(0x16, p.authentication_data);
    lemma_block_wf(b4);
    let b5 = opt_bool(0x17, p.request_problem_information);
    lemma_block_wf(b5);
    let b6 = opt_four(0x18, p.will_delay_interval);
    lemma_block_wf(b6);
    lemma_items_wf_append(b0, b1);
    lemma_items_wf_append(b0 + b1, b2);
    lemma_items_wf_append(b0 + b1 + b2, b3);
    lemma_items_wf_append(b0 + b1 + b2 + b3, b4);
    lemma_items_wf_append(b0 + b1 + b2 + b3 + b4, b5);
    lemma_items_wf_append(b0 + b1 + b2 + b3 + b4 + b5, b6);
}

proof fn lemma_group_wf_c(p: PropertiesView)
    requires
        props_wf(p),
    ensures
        items_wf(prop_items_c(p)),
{
    let b0 = opt_bool(0x19, p.request_response_information);
    lemma_block_wf(b0);
    let b1 = opt_string(0x1A, p.response_information);
    lemma_block_wf(b1);
    let b2 = opt_string(0x1C, p.server_reference);
    lemma_block_wf(b2);
    let b3 = opt_string(0x1F, p.reason_string);
    lemma_block_wf(b3);
    let b4 = opt_two(0x21, p.receive_maximum);
    lemma_block_wf(b4);
    let b5 = opt_two(0x22, p.topic_alias_maximum);
    lemma_block_wf(b5);
    let b6 = opt_two(0x23, p.topic_alias);
    lemma_block_wf(b6);
    lemma_items_wf_append(b0, b1);
    lemma_items_wf_append(b0 + b1, b2);
    lemma_items_wf_append(b0 + b1 + b2, b3);
    lemma_items_wf_append(b0 + b1 + b2 + b3, b4);
    lemma_items_wf_append(b0 + b1 + b2 + b3 + b4, b5);
    lemma_items_wf_append(b0 + b1 + b2 + b3 + b4 + b5, b6);
}

proof fn lemma_group_wf_d(p: PropertiesView)
    requires
        props_wf(p),
    ensures
        items_wf(prop_items_d(p)),
{
    let b0 = opt_byte(0x24, p.maximum_qos);
    lemma_block_wf(b0);
    let b1 = opt_bool(0x25, p.retain_available);
    lemma_block_wf(b1);
    let b2 = user_items(p.user_properties);
    assert forall|i: int| 0 <= i < b2.len() implies item_wf(#[trigger] b2[i]) by {
        assert(encode_utf8(p.user_properties[i].0).len() <= 65535);
    }
    lemma_block_wf(b2);
    let b3 = opt_four(0x27, p.maximum_packet_size);
    lemma_block_wf(b3);
    let b4 = opt_bool(0x28, p.wildcard_subscription_available);
    lemma_block_wf(b4);
    let b5 = opt_bool(0x29, p.subscription_identifier_available);
    lemma_block_wf(b5);
    let b6 = opt_bool(0x2A, p.shared_subscription_available);
    lemma_block_wf(b6);
    lemma_items_wf_append(b0, b1);
    lemma_items_wf_append(b0 + b1, b2);
    lemma_items_wf_append(b0 + b1 + b2, b3);
    lemma_items_wf_append(b0 + b1 + b2 + b3, b4);
    lemma_items_wf_append(b0 + b1 + b2 + b3 + b4, b5);
    lemma_items_wf_append(b0 + b1 + b2 + b3 + b4 + b5, b6);
}

proof fn lemma_prop_items_wf(p: PropertiesView)
    requires
        props_wf(p),
    ensures
        items_wf(prop_items(p)),
{
    lemma_group_wf_a(p);
    lemma_group_wf_b(p);
    lemma_group_wf_c(p);
    lemma_group_wf_d(p);
    lemma_items_wf_append(prop_items_a(p), prop_items_b(p));
    lemma_items_wf_append(prop_items_a(p) + prop_items_b(p), prop_items_c(p));
    lemma_items_wf_append(prop_items_a(p) + prop_items_b(p) + prop_items_c(p), prop_items_d(p));
}

/// Decoding the encoding of well-formed properties, followed by anything,
/// gives the properties back and takes exactly the encoding.
pub proof fn lemma_props_roundtrip(p: PropertiesView, rest: Seq<u8>)
    requires
        props_wf(p),
    ensures
        spec_decode_props(props_bytes(p) + rest) == Ok::<(PropertiesView, int), Fail>(
            (p, props_bytes(p).len() as int),
        ),
{
    let body = props_body(p);
    let len = body.len();
    let s = props_bytes(p) + rest;
    lemma_varint_roundtrip(len, body + rest);
    assert(s =~= varint_bytes(len) + (body + rest));
    let n = varint_size(len) as int;
    assert(s.subrange(n, n + len) =~= body);
    lemma_prop_items_wf(p);
    lemma_items_roundtrip(prop_items(p), empty_props());
    let e = empty_props();
    lemma_apply_items_append(e, prop_items_a(p), prop_items_b(p));
    lemma_apply_items_append(e, prop_items_a(p) + prop_items_b(p), prop_items_c(p));
    lemma_apply_items_append(e, prop_items_a(p) + prop_items_b(p) + prop_items_c(p), prop_items_d(p));
    let a1 = apply_items(e, prop_items_a(p));
    let a2 = apply_items(a1, prop_items_b(p));
    let a3 = apply_items(a2, prop_items_c(p));
    lemma_group_a(e, p);
    lemma_group_b(a1, p);
    lemma_group_c(a2, p);
    lemma_group_d(a3, p);
    assert(apply_items(a3, prop_items_d(p)) =~= p);
}

} // verus!
