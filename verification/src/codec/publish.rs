//! PUBLISH bodies and the bodies of its four acknowledgements (PUBACK,
//! PUBREC, PUBREL, PUBCOMP), which share one layout.

use crate::codec::fields::{
    bit_at, dec_opt_props, dec_props, dec_string, enc_opt_props, lemma_opt_props_roundtrip,
    lemma_skip_prefix, opt_props_bytes, props_match, props_or_empty, spec_opt_props, str_fits,
};
use crate::error::{Error, ErrorView};
use crate::packet::opt_props;
use crate::packet::puback::{
    lemma_pub_reason_roundtrip, pub_reason_code, pub_reason_from_code, AckView, PubReason,
};
use crate::packet::publish::{Publish, PublishView};
use crate::properties::{lemma_props_roundtrip, props_bytes, spec_decode_props, Properties};
use crate::version::ProtocolVersion;
use crate::wire::{
    append_bytes, be16, get_u16, lemma_string_roundtrip, put_u16, spec_read_string,
    string_bytes, u16_bytes, put_utf8_string, DecodeFailure, Fail,
};
use crate::{lemma_qos_roundtrip, qos_from_value, qos_value, QoS};
use vstd::prelude::*;

verus! {

// ── PUBLISH ──────────────────────────────────────────────────────────────────

/// The QoS number in the PUBLISH flags (bits 1 and 2).
pub open spec fn publish_qos_bits(flags: u8) -> u8 {
    ((flags / 2) % 4) as u8
}

/// What follows the topic (and packet identifier) of a PUBLISH, from
/// position `p` on: the properties in MQTT 5.0, then the payload, which is
/// everything that is left.
pub open spec fn spec_publish_rest(
    b: Seq<u8>,
    p: int,
    flags: u8,
    qos: QoS,
    topic: Seq<char>,
    packet_id: Option<u16>,
    v5: bool,
) -> Result<PublishView, Fail> {
    match spec_opt_props(b.skip(p), v5) {
        Err(f) => Err(f),
        Ok((props, m)) => Ok(
            PublishView {
                dup: bit_at(flags, 8),
                qos,
                retain: bit_at(flags, 1),
                topic,
                packet_id,
                payload: b.skip(p + m),
                properties: props,
            },
        ),
    }
}

/// Decoding a PUBLISH body with the flags of its fixed header.  QoS 1 and 2
/// carry a packet identifier, which must not be zero.
pub open spec fn spec_decode_publish(b: Seq<u8>, flags: u8, v5: bool) -> Result<
    PublishView,
    Fail,
> {
    match qos_from_value(publish_qos_bits(flags)) {
        None => Err(Fail::Rejected(ErrorView::InvalidQoS(publish_qos_bits(flags)))),
        Some(q) => match spec_read_string(b) {
            Err(e) => Err(Fail::Rejected(e)),
            Ok((topic, n)) => if q != QoS::AtMostOnce {
                if b.len() < n + 2 {
                    Err(Fail::Truncated)
                } else if be16(b, n) == 0 {
                    Err(Fail::Rejected(ErrorView::ZeroPacketId))
                } else {
                    spec_publish_rest(b, n + 2, flags, q, topic, Some(be16(b, n) as u16), v5)
                }
            } else {
                spec_publish_rest(b, n, flags, q, topic, None, v5)
            },
        },
    }
}

/// Decode a PUBLISH body.
pub(crate) fn decode_publish(b: &[u8], flags: u8, v5: bool) -> (r: Result<Publish, DecodeFailure>)
    ensures
        match spec_decode_publish(b@, flags, v5) {
            Ok(p) => r matches Ok(x) && x@ == p,
            Err(f) => r matches Err(e) && e@ == f,
        },
{
    let qos = match QoS::from_u8((flags / 2) % 4) {
        Ok(q) => q,
        Err(e) => {
            return Err(DecodeFailure::Invalid(e));
        },
    };
    assert(b@.skip(0) =~= b@);
    let (topic, n) = dec_string(b, 0)?;
    let mut pos = n;
    let packet_id = if qos != QoS::AtMostOnce {
        if b.len() < n + 2 {
            return Err(DecodeFailure::Truncated);
        }
        let id = get_u16(b, n);
        if id == 0 {
            return Err(DecodeFailure::Invalid(Error::ZeroPacketId));
        }
        pos = n + 2;
        Some(id)
    } else {
        None
    };
    let (properties, m) = dec_opt_props(b, pos, v5)?;
    let rest = &b[pos + m..b.len()];
    let mut payload: Vec<u8> = Vec::new();
    append_bytes(&mut payload, rest);
    assert(payload@ =~= b@.skip(pos + m));
    Ok(
        Publish {
            dup: (flags / 8) % 2 == 1,
            qos,
            retain: flags % 2 == 1,
            topic,
            packet_id,
            payload,
            properties,
        },
    )
}

/// The flags nibble of a PUBLISH fixed header: DUP (weight 8), QoS (2 and
/// 4), RETAIN (1).
pub open spec fn publish_flags(p: PublishView) -> int {
    (if p.dup {
        8int
    } else {
        0
    }) + qos_value(p.qos) * 2 + (if p.retain {
        1int
    } else {
        0
    })
}

/// The packet identifier field of a PUBLISH: present for QoS 1 and 2 (zero
/// when the identifier is missing), absent for QoS 0.
pub open spec fn publish_id_bytes(p: PublishView) -> Seq<u8> {
    if p.qos != QoS::AtMostOnce {
        u16_bytes(
            match p.packet_id {
                Some(id) => id,
                None => 0,
            },
        )
    } else {
        Seq::empty()
    }
}

/// The body of a PUBLISH written for a protocol version.
pub open spec fn publish_body(p: PublishView, ver: ProtocolVersion) -> Seq<u8> {
    string_bytes(p.topic) + (publish_id_bytes(p) + (opt_props_bytes(
        p.properties,
        ver == ProtocolVersion::V500,
    ) + p.payload))
}

/// The flags nibble of a PUBLISH fixed header.
pub(crate) fn publish_flags_of(p: &Publish) -> (r: u8)
    ensures
        r == publish_flags(p@),
        r < 16,
{
    let mut flags: u8 = p.qos.as_u8() * 2;
    if p.dup {
        flags = flags + 8;
    }
    if p.retain {
        flags = flags + 1;
    }
    flags
}

/// Encode a PUBLISH body.
pub(crate) fn encode_publish(p: &Publish, ver: ProtocolVersion) -> (r: Vec<u8>)
    ensures
        r@ == publish_body(p@, ver),
{
    let mut body: Vec<u8> = Vec::new();
    put_utf8_string(&mut body, p.topic.as_str());
    let ghost t = body@;
    if p.qos != QoS::AtMostOnce {
        let id = match p.packet_id {
            Some(id) => id,
            None => 0,
        };
        put_u16(&mut body, id);
    }
    let ghost ti = body@;
    assert(ti =~= t + publish_id_bytes(p@));
    enc_opt_props(&mut body, &p.properties, ver.is_v5());
    append_bytes(&mut body, p.payload.as_slice());
    assert(body@ =~= publish_body(p@, ver));
    body
}

/// A PUBLISH that is written faithfully for the version: the topic fits
/// its length prefix, a packet identifier is present (and not zero) exactly
/// for QoS 1 and 2, and the properties are present exactly in MQTT 5.0.
pub open spec fn publish_wf(p: PublishView, ver: ProtocolVersion) -> bool {
    &&& str_fits(p.topic)
    &&& (p.qos == QoS::AtMostOnce) == (p.packet_id is None)
    &&& p.packet_id != Some(0u16)
    &&& props_match(p.properties, ver == ProtocolVersion::V500)
}

/// The PUBLISH flags nibble holds DUP, QoS and RETAIN where the decoder
/// reads them.
pub proof fn lemma_publish_flags_bits(p: PublishView)
    ensures
        0 <= publish_flags(p) < 16,
        bit_at(publish_flags(p) as u8, 8) == p.dup,
        bit_at(publish_flags(p) as u8, 1) == p.retain,
        publish_qos_bits(publish_flags(p) as u8) == qos_value(p.qos),
{
    let d: int = if p.dup {
        1
    } else {
        0
    };
    let r: int = if p.retain {
        1
    } else {
        0
    };
    let q = qos_value(p.qos) as int;
    let f = publish_flags(p);
    assert(f == 8 * d + 2 * q + r);
    assert(f / 2 == 4 * d + q);
    assert(f / 8 == d);
}

/// Decoding the body of a well-formed PUBLISH, with the flags its encoder
/// writes, gives the PUBLISH back.
pub proof fn lemma_publish_roundtrip(p: PublishView, ver: ProtocolVersion)
    requires
        publish_wf(p, ver),
    ensures
        spec_decode_publish(publish_body(p, ver), publish_flags(p) as u8, ver
            == ProtocolVersion::V500) == Ok::<PublishView, Fail>(p),
{
    let v5 = ver == ProtocolVersion::V500;
    let b = publish_body(p, ver);
    let f = publish_flags(p) as u8;
    lemma_publish_flags_bits(p);
    lemma_qos_roundtrip(p.qos, 0);
    let ts = string_bytes(p.topic);
    let ib = publish_id_bytes(p);
    let pp = opt_props_bytes(p.properties, v5);
    lemma_string_roundtrip(p.topic, ib + (pp + p.payload));
    assert(b.skip(0) =~= b);
    lemma_skip_prefix(b, 0, ts, ib + (pp + p.payload));
    let n = ts.len() as int;
    if p.qos != QoS::AtMostOnce {
        let id = p.packet_id->0;
        assert(b[n] == ib[0] && b[n + 1] == ib[1]);
        assert(be16(b, n) == id);
    }
    lemma_skip_prefix(b, n, ib, pp + p.payload);
    let q = n + ib.len();
    lemma_opt_props_roundtrip(p.properties, v5, p.payload);
    lemma_skip_prefix(b, q, pp, p.payload);
}

// ── PUBACK, PUBREC, PUBREL, PUBCOMP ──────────────────────────────────────────

/// Decoding the body of an acknowledgement: a non-zero packet identifier;
/// in MQTT 5.0 a reason code and properties when bytes are left for them.
pub open spec fn spec_decode_ack(b: Seq<u8>, v5: bool) -> Result<AckView, Fail> {
    if b.len() < 2 {
        Err(Fail::Truncated)
    } else if be16(b, 0) == 0 {
        Err(Fail::Rejected(ErrorView::ZeroPacketId))
    } else if v5 && b.len() > 2 {
        if b.len() > 3 {
            match spec_decode_props(b.skip(3)) {
                Err(f) => Err(f),
                Ok((p, _)) => Ok(
                    AckView {
                        packet_id: be16(b, 0) as u16,
                        reason_code: pub_reason_from_code(b[2]),
                        properties: Some(p),
                    },
                ),
            }
        } else {
            Ok(
                AckView {
                    packet_id: be16(b, 0) as u16,
                    reason_code: pub_reason_from_code(b[2]),
                    properties: None,
                },
            )
        }
    } else {
        Ok(AckView { packet_id: be16(b, 0) as u16, reason_code: PubReason::Success, properties: None })
    }
}

/// Decode the body of an acknowledgement: packet identifier, reason code
/// and properties.
pub(crate) fn decode_ack(b: &[u8], v5: bool) -> (r: Result<
    (u16, PubReason, Option<Properties>),
    DecodeFailure,
>)
    ensures
        match spec_decode_ack(b@, v5) {
            Ok(a) => r matches Ok((id, rc, pr)) && (AckView {
                packet_id: id,
                reason_code: rc,
                properties: opt_props(pr),
            }) == a,
            Err(f) => r matches Err(e) && e@ == f,
        },
{
    if b.len() < 2 {
        return Err(DecodeFailure::Truncated);
    }
    let packet_id = get_u16(b, 0);
    if packet_id == 0 {
        return Err(DecodeFailure::Invalid(Error::ZeroPacketId));
    }
    if v5 && b.len() > 2 {
        let rc = PubReason::from_u8(b[2]);
        if b.len() > 3 {
            let (p, _n) = dec_props(b, 3)?;
            Ok((packet_id, rc, Some(p)))
        } else {
            Ok((packet_id, rc, None))
        }
    } else {
        Ok((packet_id, PubReason::Success, None))
    }
}

/// The body of an acknowledgement written for a protocol version.
pub open spec fn ack_body(a: AckView, ver: ProtocolVersion) -> Seq<u8> {
    u16_bytes(a.packet_id) + if ver == ProtocolVersion::V500 {
        seq![pub_reason_code(a.reason_code)] + props_bytes(props_or_empty(a.properties))
    } else {
        Seq::empty()
    }
}

/// Encode the body of an acknowledgement.
pub(crate) fn encode_ack(
    packet_id: u16,
    reason_code: PubReason,
    properties: &Option<Properties>,
    ver: ProtocolVersion,
) -> (r: Vec<u8>)
    ensures
        r@ == ack_body(
            AckView { packet_id, reason_code, properties: opt_props(*properties) },
            ver,
        ),
{
    let mut body: Vec<u8> = Vec::new();
    put_u16(&mut body, packet_id);
    if ver.is_v5() {
        body.push(reason_code.as_u8());
        enc_opt_props(&mut body, properties, true);
    }
    assert(body@ =~= ack_body(
        AckView { packet_id, reason_code, properties: opt_props(*properties) },
        ver,
    ));
    body
}

/// An acknowledgement that is written faithfully for the version: a
/// non-zero packet identifier; in MQTT 3.1.1, where neither is written, the
/// reason `Success` and no properties; in MQTT 5.0 well-formed properties.
pub open spec fn ack_wf(a: AckView, ver: ProtocolVersion) -> bool {
    &&& a.packet_id != 0
    &&& props_match(a.properties, ver == ProtocolVersion::V500)
    &&& ver == ProtocolVersion::V311 ==> a.reason_code == PubReason::Success
}

/// Decoding the body of a well-formed acknowledgement gives it back.
pub proof fn lemma_ack_roundtrip(a: AckView, ver: ProtocolVersion)
    requires
        ack_wf(a, ver),
    ensures
        spec_decode_ack(ack_body(a, ver), ver == ProtocolVersion::V500) == Ok::<AckView, Fail>(a),
{
    let b = ack_body(a, ver);
    assert(b[0] == (a.packet_id / 256) as u8 && b[1] == (a.packet_id % 256) as u8);
    assert(be16(b, 0) == a.packet_id);
    if ver == ProtocolVersion::V500 {
        let p = props_or_empty(a.properties);
        lemma_pub_reason_roundtrip(a.reason_code);
        assert(b.skip(3) =~= props_bytes(p) + Seq::<u8>::empty());
        lemma_props_roundtrip(p, Seq::empty());
        assert(props_bytes(p).len() > 0);
    }
}

} // verus!
