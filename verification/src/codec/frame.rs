//! Frames: the fixed header (packet type, flags, remaining length) around a
//! packet body, and the dispatch from packet type to body codec.

use crate::codec::connect::{
    connack_body, connack_wf, connect_body, connect_wf, decode_connack, decode_connect,
    encode_connack, encode_connect, lemma_connack_roundtrip, lemma_connect_roundtrip,
    spec_decode_connack, spec_decode_connect,
};
use crate::codec::control::{
    auth_body, auth_wf, decode_auth, decode_disconnect, disconnect_body, disconnect_wf,
    encode_auth, encode_disconnect, lemma_auth_roundtrip, lemma_disconnect_roundtrip,
    spec_decode_auth, spec_decode_disconnect,
};
use crate::codec::publish::{
    ack_body, ack_wf, decode_ack, decode_publish, encode_ack, encode_publish,
    lemma_ack_roundtrip, lemma_publish_flags_bits, lemma_publish_roundtrip, publish_body, publish_flags, publish_flags_of,
    publish_wf, spec_decode_ack, spec_decode_publish,
};
use crate::codec::subscribe::{
    decode_suback, decode_subscribe, decode_unsuback, decode_unsubscribe, encode_suback,
    encode_subscribe, encode_unsuback, encode_unsubscribe, lemma_suback_roundtrip,
    lemma_subscribe_roundtrip, lemma_unsuback_roundtrip, lemma_unsubscribe_roundtrip,
    spec_decode_suback, spec_decode_subscribe, spec_decode_unsuback, spec_decode_unsubscribe,
    suback_body, suback_wf, subscribe_body, subscribe_wf, unsuback_body, unsuback_wf,
    unsubscribe_body, unsubscribe_wf,
};
use crate::error::{Error, ErrorView};
use crate::packet::ping::{PingReq, PingResp};
use crate::packet::puback::{AckView, PubAck, PubComp, PubReason, PubRec, PubRel};
use crate::packet::{ControlPacket, PacketView};
use crate::version::ProtocolVersion;
use crate::wire::{
    append_bytes, be16, lemma_varint_roundtrip, read_variable_length, spec_read_varint, varint_bytes,
    varint_size, put_variable_length, DecodeFailure, Fail, MAX_VARINT,
};
use vstd::prelude::*;

verus! {

/// The largest frame the decoder accepts (16 MiB).
pub const MAX_PACKET_SIZE: usize = 16_777_216;

/// What the bytes at the front of a buffer hold.
pub enum Frame {
    /// Not yet a whole frame: more bytes are needed.
    NeedMore,
    /// The fixed header is rejected with this error.
    Invalid(ErrorView),
    /// A whole frame of this many bytes, whose body decodes to this.
    Complete(int, Result<PacketView, Fail>),
}

/// The version used to decode packets before CONNECT has told it.
pub open spec fn version_or_default(v: Option<ProtocolVersion>) -> ProtocolVersion {
    match v {
        Some(v) => v,
        None => ProtocolVersion::V311,
    }
}

/// Decoding a packet body for the packet type and flags of its first byte.
/// CONNECT carries its own version; AUTH is read alike in both versions.
pub open spec fn spec_decode_body(first: u8, b: Seq<u8>, ver: ProtocolVersion) -> Result<
    PacketView,
    Fail,
> {
    let t = first / 16;
    let flags = first % 16;
    let v5 = ver == ProtocolVersion::V500;
    if t == 1 {
        match spec_decode_connect(b) {
            Ok(c) => Ok(PacketView::Connect(c)),
            Err(f) => Err(f),
        }
    } else if t == 2 {
        match spec_decode_connack(b, v5) {
            Ok(a) => Ok(PacketView::ConnAck(a)),
            Err(f) => Err(f),
        }
    } else if t == 3 {
        match spec_decode_publish(b, flags as u8, v5) {
            Ok(p) => Ok(PacketView::Publish(p)),
            Err(f) => Err(f),
        }
    } else if 4 <= t <= 7 {
        match spec_decode_ack(b, v5) {
            Ok(a) => Ok(
                if t == 4 {
                    PacketView::PubAck(a)
                } else if t == 5 {
                    PacketView::PubRec(a)
                } else if t == 6 {
                    PacketView::PubRel(a)
                } else {
                    PacketView::PubComp(a)
                },
            ),
            Err(f) => Err(f),
        }
    } else if t == 8 {
        match spec_decode_subscribe(b, v5) {
            Ok(s) => Ok(PacketView::Subscribe(s)),
            Err(f) => Err(f),
        }
    } else if t == 9 {
        match spec_decode_suback(b, v5) {
            Ok(a) => Ok(PacketView::SubAck(a)),
            Err(f) => Err(f),
        }
    } else if t == 10 {
        match spec_decode_unsubscribe(b, v5) {
            Ok(s) => Ok(PacketView::Unsubscribe(s)),
            Err(f) => Err(f),
        }
    } else if t == 11 {
        match spec_decode_unsuback(b, v5) {
            Ok(a) => Ok(PacketView::UnsubAck(a)),
            Err(f) => Err(f),
        }
    } else if t == 12 {
        Ok(PacketView::PingReq)
    } else if t == 13 {
        Ok(PacketView::PingResp)
    } else if t == 14 {
        match spec_decode_disconnect(b, v5) {
            Ok(d) => Ok(PacketView::Disconnect(d)),
            Err(f) => Err(f),
        }
    } else if t == 15 {
        match spec_decode_auth(b) {
            Ok(a) => Ok(PacketView::Auth(a)),
            Err(f) => Err(f),
        }
    } else {
        Err(Fail::Rejected(ErrorView::UnknownPacketType(t as u8)))
    }
}

/// Decoding the frame at the front of `s`: a first byte, the remaining
/// length as a variable byte integer, then that many bytes of body.
pub open spec fn spec_decode_frame(s: Seq<u8>, version: Option<ProtocolVersion>) -> Frame {
    if s.len() < 2 {
        Frame::NeedMore
    } else {
        match spec_read_varint(s.skip(1)) {
            Err(e) => if e == ErrorView::Incomplete {
                Frame::NeedMore
            } else {
                Frame::Invalid(e)
            },
            Ok((len, n)) => {
                let total = 1 + n + len;
                if total > MAX_PACKET_SIZE {
                    Frame::Invalid(ErrorView::PacketTooLarge(total as usize))
                } else if s.len() < total {
                    Frame::NeedMore
                } else {
                    Frame::Complete(
                        total,
                        spec_decode_body(s[0], s.subrange(1 + n, total), version_or_default(version)),
                    )
                }
            },
        }
    }
}

/// The first byte of a packet's frame: packet type in the high nibble, the
/// fixed flags (or the PUBLISH flags) in the low one.
pub open spec fn packet_first_byte(p: PacketView) -> u8 {
    match p {
        PacketView::Connect(_) => 0x10,
        PacketView::ConnAck(_) => 0x20,
        PacketView::Publish(x) => (0x30 + publish_flags(x)) as u8,
        PacketView::PubAck(_) => 0x40,
        PacketView::PubRec(_) => 0x50,
        PacketView::PubRel(_) => 0x62,
        PacketView::PubComp(_) => 0x70,
        PacketView::Subscribe(_) => 0x82,
        PacketView::SubAck(_) => 0x90,
        PacketView::Unsubscribe(_) => 0xA2,
        PacketView::UnsubAck(_) => 0xB0,
        PacketView::PingReq => 0xC0,
        PacketView::PingResp => 0xD0,
        PacketView::Disconnect(_) => 0xE0,
        PacketView::Auth(_) => 0xF0,
    }
}

/// The body of a packet written for a protocol version.
pub open spec fn packet_body(p: PacketView, ver: ProtocolVersion) -> Seq<u8> {
    match p {
        PacketView::Connect(c) => connect_body(c, ver),
        PacketView::ConnAck(a) => connack_body(a, ver),
        PacketView::Publish(x) => publish_body(x, ver),
        PacketView::PubAck(a) => ack_body(a, ver),
        PacketView::PubRec(a) => ack_body(a, ver),
        PacketView::PubRel(a) => ack_body(a, ver),
        PacketView::PubComp(a) => ack_body(a, ver),
        PacketView::Subscribe(s) => subscribe_body(s, ver),
        PacketView::SubAck(a) => suback_body(a, ver),
        PacketView::Unsubscribe(s) => unsubscribe_body(s, ver),
        PacketView::UnsubAck(a) => unsuback_body(a, ver),
        PacketView::PingReq => Seq::empty(),
        PacketView::PingResp => Seq::empty(),
        PacketView::Disconnect(d) => disconnect_body(d, ver),
        PacketView::Auth(a) => auth_body(a),
    }
}

/// The frame of a packet written for a protocol version: first byte,
/// remaining length, body.
pub open spec fn spec_encode(p: PacketView, ver: ProtocolVersion) -> Seq<u8> {
    seq![packet_first_byte(p)] + varint_bytes(packet_body(p, ver).len()) + packet_body(p, ver)
}

/// A packet that its frame for the version reads back as: see the
/// conditions of each packet kind.
pub open spec fn packet_wf(p: PacketView, ver: ProtocolVersion) -> bool {
    match p {
        PacketView::Connect(c) => connect_wf(c, ver),
        PacketView::ConnAck(a) => connack_wf(a, ver),
        PacketView::Publish(x) => publish_wf(x, ver),
        PacketView::PubAck(a) => ack_wf(a, ver),
        PacketView::PubRec(a) => ack_wf(a, ver),
        PacketView::PubRel(a) => ack_wf(a, ver),
        PacketView::PubComp(a) => ack_wf(a, ver),
        PacketView::Subscribe(s) => subscribe_wf(s, ver),
        PacketView::SubAck(a) => suback_wf(a, ver),
        PacketView::Unsubscribe(s) => unsubscribe_wf(s, ver),
        PacketView::UnsubAck(a) => unsuback_wf(a, ver),
        PacketView::PingReq => true,
        PacketView::PingResp => true,
        PacketView::Disconnect(d) => disconnect_wf(d, ver),
        PacketView::Auth(a) => auth_wf(a),
    }
}

// ── Executable decoding ──────────────────────────────────────────────────────

/// What the decoder finds at the front of a buffer.
pub enum FrameOutcome {
    /// More bytes are needed; the count of missing bytes when the length is
    /// known, else zero.
    NeedMore(usize),
    /// The fixed header is rejected.
    Invalid(Error),
    /// A whole frame of this many bytes and what its body decodes to.
    Complete(usize, Result<ControlPacket, DecodeFailure>),
}

impl View for FrameOutcome {
    type V = Frame;

    open spec fn view(&self) -> Frame {
        match self {
            FrameOutcome::NeedMore(_) => Frame::NeedMore,
            FrameOutcome::Invalid(e) => Frame::Invalid(e@),
            FrameOutcome::Complete(n, Ok(p)) => Frame::Complete(*n as int, Ok(p@)),
            FrameOutcome::Complete(n, Err(f)) => Frame::Complete(*n as int, Err(f@)),
        }
    }
}

/// Decode a packet body for the packet type and flags of its first byte.
pub(crate) fn decode_body(first: u8, b: &[u8], ver: ProtocolVersion) -> (r: Result<
    ControlPacket,
    DecodeFailure,
>)
    ensures
        match spec_decode_body(first, b@, ver) {
            Ok(p) => r matches Ok(x) && x@ == p,
            Err(f) => r matches Err(e) && e@ == f,
        },
{
    let t = first / 16;
    let flags = first % 16;
    let v5 = ver.is_v5();
    if t == 1 {
        Ok(ControlPacket::Connect(decode_connect(b)?))
    } else if t == 2 {
        Ok(ControlPacket::ConnAck(decode_connack(b, v5)?))
    } else if t == 3 {
        Ok(ControlPacket::Publish(decode_publish(b, flags, v5)?))
    } else if 4 <= t && t <= 7 {
        let (packet_id, reason_code, properties) = decode_ack(b, v5)?;
        if t == 4 {
            Ok(ControlPacket::PubAck(PubAck { packet_id, reason_code, properties }))
        } else if t == 5 {
            Ok(ControlPacket::PubRec(PubRec { packet_id, reason_code, properties }))
        } else if t == 6 {
            Ok(ControlPacket::PubRel(PubRel { packet_id, reason_code, properties }))
        } else {
            Ok(ControlPacket::PubComp(PubComp { packet_id, reason_code, properties }))
        }
    } else if t == 8 {
        Ok(ControlPacket::Subscribe(decode_subscribe(b, v5)?))
    } else if t == 9 {
        Ok(ControlPacket::SubAck(decode_suback(b, v5)?))
    } else if t == 10 {
        Ok(ControlPacket::Unsubscribe(decode_unsubscribe(b, v5)?))
    } else if t == 11 {
        Ok(ControlPacket::UnsubAck(decode_unsuback(b, v5)?))
    } else if t == 12 {
        Ok(ControlPacket::PingReq(PingReq))
    } else if t == 13 {
        Ok(ControlPacket::PingResp(PingResp))
    } else if t == 14 {
        Ok(ControlPacket::Disconnect(decode_disconnect(b, v5)?))
    } else if t == 15 {
        Ok(ControlPacket::Auth(decode_auth(b)?))
    } else {
        Err(DecodeFailure::Invalid(Error::UnknownPacketType(t)))
    }
}

/// Decode the frame at the front of `s`.
pub(crate) fn decode_frame(s: &[u8], version: Option<ProtocolVersion>) -> (r: FrameOutcome)
    ensures
        r@ == spec_decode_frame(s@, version),
        r matches FrameOutcome::NeedMore(k) ==> k == 0 || s@.len() + k <= MAX_PACKET_SIZE,
        r matches FrameOutcome::Complete(n, _) ==> n <= s@.len(),
{
    if s.len() < 2 {
        return FrameOutcome::NeedMore(0);
    }
    let tail = &s[1..s.len()];
    assert(tail@ =~= s@.skip(1));
    let (len, n) = match read_variable_length(tail) {
        Ok(x) => x,
        Err(Error::Incomplete) => {
            return FrameOutcome::NeedMore(0);
        },
        Err(e) => {
            return FrameOutcome::Invalid(e);
        },
    };
    let total = 1 + n + len;
    if total > MAX_PACKET_SIZE {
        return FrameOutcome::Invalid(Error::PacketTooLarge(total));
    }
    if s.len() < total {
        return FrameOutcome::NeedMore(total - s.len());
    }
    let ver = match version {
        Some(v) => v,
        None => ProtocolVersion::V311,
    };
    let body = &s[1 + n..total];
    assert(body@ =~= s@.subrange(1 + n, total as int));
    FrameOutcome::Complete(total, decode_body(s[0], body, ver))
}

// ── Executable encoding ──────────────────────────────────────────────────────

/// Encode a packet for a protocol version as a frame of its own.
pub fn encode_packet(p: &ControlPacket, ver: ProtocolVersion) -> (r: Vec<u8>)
    ensures
        r@ == spec_encode(p@, ver),
{
    let (first, body): (u8, Vec<u8>) = match p {
        ControlPacket::Connect(c) => (0x10, encode_connect(c, ver)),
        ControlPacket::ConnAck(a) => (0x20, encode_connack(a, ver)),
        ControlPacket::Publish(x) => (0x30 + publish_flags_of(x), encode_publish(x, ver)),
        ControlPacket::PubAck(a) => (
            0x40,
            encode_ack(a.packet_id, a.reason_code, &a.properties, ver),
        ),
        ControlPacket::PubRec(a) => (
            0x50,
            encode_ack(a.packet_id, a.reason_code, &a.properties, ver),
        ),
        ControlPacket::PubRel(a) => (
            0x62,
            encode_ack(a.packet_id, a.reason_code, &a.properties, ver),
        ),
        ControlPacket::PubComp(a) => (
            0x70,
            encode_ack(a.packet_id, a.reason_code, &a.properties, ver),
        ),
        ControlPacket::Subscribe(s) => (0x82, encode_subscribe(s, ver)),
        ControlPacket::SubAck(a) => (0x90, encode_suback(a, ver)),
        ControlPacket::Unsubscribe(s) => (0xA2, encode_unsubscribe(s, ver)),
        ControlPacket::UnsubAck(a) => (0xB0, encode_unsuback(a, ver)),
        ControlPacket::PingReq(_) => (0xC0, Vec::new()),
        ControlPacket::PingResp(_) => (0xD0, Vec::new()),
        ControlPacket::Disconnect(d) => (0xE0, encode_disconnect(d, ver)),
        ControlPacket::Auth(a) => (0xF0, encode_auth(a)),
    };
    assert(first == packet_first_byte(p@));
    assert(body@ =~= packet_body(p@, ver));
    let mut out: Vec<u8> = Vec::new();
    out.push(first);
    put_variable_length(&mut out, body.len());
    append_bytes(&mut out, body.as_slice());
    assert(out@ =~= spec_encode(p@, ver));
    out
}

/// The first byte of every frame holds the packet type in its high nibble
/// and the fixed flags in its low one: 0b0010 for PUBREL, SUBSCRIBE and
/// UNSUBSCRIBE, 0b0000 for the other packets of fixed flags, and for a
/// PUBLISH its DUP bit (8), twice its QoS, and its RETAIN bit (1).  The
/// decoder does not look at the fixed flags, so a round trip alone would not
/// pin them down.
pub proof fn lemma_frame_first_byte(p: PacketView, ver: ProtocolVersion)
    ensures
        spec_encode(p, ver).len() >= 1,
        p is Connect ==> spec_encode(p, ver)[0] == 0x10,
        p is ConnAck ==> spec_encode(p, ver)[0] == 0x20,
        p matches PacketView::Publish(x) ==> spec_encode(p, ver)[0] == 0x30 + (if x.dup {
            8int
        } else {
            0int
        }) + 2 * crate::qos_value(x.qos) + (if x.retain {
            1int
        } else {
            0int
        }),
        p is PubAck ==> spec_encode(p, ver)[0] == 0x40,
        p is PubRec ==> spec_encode(p, ver)[0] == 0x50,
        p is PubRel ==> spec_encode(p, ver)[0] == 0x62,
        p is PubComp ==> spec_encode(p, ver)[0] == 0x70,
        p is Subscribe ==> spec_encode(p, ver)[0] == 0x82,
        p is SubAck ==> spec_encode(p, ver)[0] == 0x90,
        p is Unsubscribe ==> spec_encode(p, ver)[0] == 0xA2,
        p is UnsubAck ==> spec_encode(p, ver)[0] == 0xB0,
        p is PingReq ==> spec_encode(p, ver)[0] == 0xC0,
        p is PingResp ==> spec_encode(p, ver)[0] == 0xD0,
        p is Disconnect ==> spec_encode(p, ver)[0] == 0xE0,
        p is Auth ==> spec_encode(p, ver)[0] == 0xF0,
{
    if let PacketView::Publish(x) = p {
        assert(crate::qos_value(x.qos) <= 2);
    }
}

/// The remaining length of a frame is the length of its body: a body of
/// fewer than 128 bytes is announced by one byte that holds its length, and
/// the frame is that byte, the first byte and the body.
pub proof fn lemma_frame_length_byte(p: PacketView, ver: ProtocolVersion)
    requires
        packet_body(p, ver).len() < 128,
    ensures
        spec_encode(p, ver).len() == 2 + packet_body(p, ver).len(),
        spec_encode(p, ver)[1] == packet_body(p, ver).len(),
        spec_encode(p, ver).skip(2) == packet_body(p, ver),
{
    let body = packet_body(p, ver);
    assert(varint_bytes(body.len()) =~= seq![body.len() as u8]);
    assert(spec_encode(p, ver).skip(2) =~= body);
}

/// An acknowledgement frame (PUBACK, PUBREC, PUBREL, PUBCOMP) whose body is
/// exactly a non-zero packet identifier decodes, in MQTT 5.0 as in 3.1.1, to
/// that identifier with reason Success and no properties, and takes its four
/// bytes: MQTT 5.0 leaves out the reason code and properties of a successful
/// acknowledgement.
pub proof fn lemma_short_ack_decodes(hi: u8, lo: u8, version: Option<ProtocolVersion>, rest: Seq<u8>)
    requires
        hi != 0 || lo != 0,
    ensures
        spec_decode_frame(seq![0x40u8, 0x02u8, hi, lo] + rest, version) == Frame::Complete(
            4,
            Ok(PacketView::PubAck(AckView {
                packet_id: (hi * 256 + lo) as u16,
                reason_code: PubReason::Success,
                properties: None,
            })),
        ),
        spec_decode_frame(seq![0x50u8, 0x02u8, hi, lo] + rest, version) == Frame::Complete(
            4,
            Ok(PacketView::PubRec(AckView {
                packet_id: (hi * 256 + lo) as u16,
                reason_code: PubReason::Success,
                properties: None,
            })),
        ),
        spec_decode_frame(seq![0x62u8, 0x02u8, hi, lo] + rest, version) == Frame::Complete(
            4,
            Ok(PacketView::PubRel(AckView {
                packet_id: (hi * 256 + lo) as u16,
                reason_code: PubReason::Success,
                properties: None,
            })),
        ),
        spec_decode_frame(seq![0x70u8, 0x02u8, hi, lo] + rest, version) == Frame::Complete(
            4,
            Ok(PacketView::PubComp(AckView {
                packet_id: (hi * 256 + lo) as u16,
                reason_code: PubReason::Success,
                properties: None,
            })),
        ),
{
    lemma_short_frame(0x40, hi, lo, version, rest);
    lemma_short_frame(0x50, hi, lo, version, rest);
    lemma_short_frame(0x62, hi, lo, version, rest);
    lemma_short_frame(0x70, hi, lo, version, rest);
    lemma_short_ack_body(hi, lo, version_or_default(version) == ProtocolVersion::V500);
}

proof fn lemma_short_frame(first: u8, hi: u8, lo: u8, version: Option<ProtocolVersion>, rest: Seq<u8>)
    ensures
        spec_decode_frame(seq![first, 0x02u8, hi, lo] + rest, version) == Frame::Complete(
            4,
            spec_decode_body(first, seq![hi, lo], version_or_default(version)),
        ),
{
    let body = seq![hi, lo];
    let s = seq![first, 0x02u8, hi, lo] + rest;
    assert(varint_bytes(2) =~= seq![2u8]);
    lemma_varint_roundtrip(2, body + rest);
    assert(s.skip(1) =~= varint_bytes(2) + (body + rest));
    assert(s.subrange(2, 4) =~= body);
}

proof fn lemma_short_ack_body(hi: u8, lo: u8, v5: bool)
    requires
        hi != 0 || lo != 0,
    ensures
        spec_decode_ack(seq![hi, lo], v5) == Ok::<AckView, Fail>(
            AckView {
                packet_id: (hi * 256 + lo) as u16,
                reason_code: PubReason::Success,
                properties: None,
            },
        ),
{
    let body = seq![hi, lo];
    assert(be16(body, 0) == hi * 256 + lo);
}

// ── Reading back what was written ───────────────────────────────────────────

/// Decoding the frame of a well-formed packet, written for a version and
/// followed by any bytes, with that version gives the packet back and
/// takes exactly the frame.  A CONNECT reads back alike before any version
/// is known.
pub proof fn lemma_frame_roundtrip(p: PacketView, ver: ProtocolVersion, rest: Seq<u8>)
    requires
        packet_wf(p, ver),
        spec_encode(p, ver).len() <= MAX_PACKET_SIZE,
    ensures
        spec_decode_frame(spec_encode(p, ver) + rest, Some(ver)) == Frame::Complete(
            spec_encode(p, ver).len() as int,
            Ok(p),
        ),
        p is Connect ==> spec_decode_frame(spec_encode(p, ver) + rest, None) == Frame::Complete(
            spec_encode(p, ver).len() as int,
            Ok(p),
        ),
{
    let body = packet_body(p, ver);
    let first = packet_first_byte(p);
    let s = spec_encode(p, ver) + rest;
    let len = body.len();
    assert(len <= MAX_VARINT);
    lemma_varint_roundtrip(len, body + rest);
    assert(s.skip(1) =~= varint_bytes(len) + (body + rest));
    let n = varint_size(len) as int;
    assert(s.subrange(1 + n, 1 + n + len) =~= body);
    assert(s[0] == first);
    lemma_body_roundtrip(p, ver);
}

proof fn lemma_body_roundtrip(p: PacketView, ver: ProtocolVersion)
    requires
        packet_wf(p, ver),
    ensures
        spec_decode_body(packet_first_byte(p), packet_body(p, ver), ver) == Ok::<PacketView, Fail>(p),
        p is Connect ==> spec_decode_body(packet_first_byte(p), packet_body(p, ver), ProtocolVersion::V311) == Ok::<PacketView, Fail>(p),
{
    match p {
        PacketView::Connect(c) => lemma_connect_roundtrip(c, ver),
        PacketView::ConnAck(a) => lemma_connack_roundtrip(a, ver),
        PacketView::Publish(x) => {
            lemma_publish_roundtrip(x, ver);
            lemma_publish_flags_bits(x);
        },
        PacketView::PubAck(a) => lemma_ack_roundtrip(a, ver),
        PacketView::PubRec(a) => lemma_ack_roundtrip(a, ver),
        PacketView::PubRel(a) => lemma_ack_roundtrip(a, ver),
        PacketView::PubComp(a) => lemma_ack_roundtrip(a, ver),
        PacketView::Subscribe(s) => lemma_subscribe_roundtrip(s, ver),
        PacketView::SubAck(a) => lemma_suback_roundtrip(a, ver),
        PacketView::Unsubscribe(s) => lemma_unsubscribe_roundtrip(s, ver),
        PacketView::UnsubAck(a) => lemma_unsuback_roundtrip(a, ver),
        PacketView::PingReq => {},
        PacketView::PingResp => {},
        PacketView::Disconnect(d) => lemma_disconnect_roundtrip(d, ver),
        PacketView::Auth(a) => lemma_auth_roundtrip(a),
    }
}

} // verus!
