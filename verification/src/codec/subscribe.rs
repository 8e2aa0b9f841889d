//! SUBSCRIBE, SUBACK, UNSUBSCRIBE and UNSUBACK bodies.

use crate::codec::fields::{
    bit_at, dec_opt_props, dec_props, dec_string, enc_opt_props, lemma_opt_props_roundtrip,
    lemma_skip_prefix, opt_props_bytes, props_match, props_or_empty, spec_opt_props, str_fits,
};
use crate::error::{Error, ErrorView};
use crate::packet::subscribe::{
    filter_views, lemma_retain_handling_roundtrip, lemma_suback_reason_roundtrip,
    retain_handling_code, retain_handling_from_code, suback_reason_code, suback_reason_from_code,
    RetainHandling, SubAck, SubAckReason, SubAckView, Subscribe, SubscribeView,
    SubscriptionFilter, SubscriptionFilterView,
};
use crate::packet::unsubscribe::{
    lemma_unsuback_reason_roundtrip, string_views, unsuback_reason_code,
    unsuback_reason_from_code, UnsubAck, UnsubAckReason, UnsubAckView, Unsubscribe,
    UnsubscribeView,
};
use crate::properties::{
    empty_props, lemma_props_roundtrip, props_bytes, props_wf, spec_decode_props,
    PropertiesView,
};
use crate::version::ProtocolVersion;
use crate::wire::{
    be16, get_u16, lemma_string_roundtrip, put_u16, spec_read_string, string_bytes, u16_bytes,
    put_utf8_string, DecodeFailure, Fail,
};
use crate::{lemma_qos_roundtrip, qos_from_value, qos_value, QoS};
use vstd::prelude::*;

verus! {

// ── SUBSCRIBE ────────────────────────────────────────────────────────────────

/// The subscription a topic filter and its options byte describe.  The
/// MQTT 5.0 options (No Local, Retain As Published, Retain Handling) are
/// read in 5.0 only; 3.1.1 gets their defaults.
pub open spec fn filter_of(tf: Seq<char>, q: QoS, o: u8, v5: bool) -> SubscriptionFilterView {
    SubscriptionFilterView {
        topic_filter: tf,
        qos: q,
        no_local: v5 && bit_at(o, 4),
        retain_as_published: v5 && bit_at(o, 8),
        retain_handling: if v5 {
            retain_handling_from_code(((o / 16) % 4) as u8)
        } else {
            RetainHandling::SendOnSubscribe
        },
    }
}

/// Decoding the topic filters of a SUBSCRIBE: (topic filter, options byte)
/// pairs up to the end of the body.
pub open spec fn spec_sub_filters(r: Seq<u8>, v5: bool) -> Result<
    Seq<SubscriptionFilterView>,
    Fail,
>
    decreases r.len(),
{
    if r.len() == 0 {
        Ok(Seq::empty())
    } else {
        match spec_read_string(r) {
            Err(e) => Err(Fail::Rejected(e)),
            Ok((tf, n)) => if n < 0 || r.len() < n + 1 {
                Err(Fail::Truncated)
            } else {
                match qos_from_value(r[n] % 4) {
                    None => Err(Fail::Rejected(ErrorView::InvalidQoS(r[n] % 4))),
                    Some(q) => match spec_sub_filters(r.skip(n + 1), v5) {
                        Err(f) => Err(f),
                        Ok(rest) => Ok(seq![filter_of(tf, q, r[n], v5)] + rest),
                    },
                }
            },
        }
    }
}

/// The properties of a SUBSCRIBE: in MQTT 5.0 an empty section is taken as
/// no properties.
pub open spec fn spec_sub_props(s: Seq<u8>, v5: bool) -> Result<
    (Option<PropertiesView>, int),
    Fail,
> {
    if v5 {
        match spec_decode_props(s) {
            Err(f) => Err(f),
            Ok((p, n)) => Ok(
                (
                    if p == empty_props() {
                        None
                    } else {
                        Some(p)
                    },
                    n,
                ),
            ),
        }
    } else {
        Ok((None, 0))
    }
}

/// Decoding a SUBSCRIBE body: a non-zero packet identifier, the properties
/// in MQTT 5.0, then the topic filters.
pub open spec fn spec_decode_subscribe(b: Seq<u8>, v5: bool) -> Result<SubscribeView, Fail> {
    if b.len() < 2 {
        Err(Fail::Truncated)
    } else if be16(b, 0) == 0 {
        Err(Fail::Rejected(ErrorView::ZeroPacketId))
    } else {
        match spec_sub_props(b.skip(2), v5) {
            Err(f) => Err(f),
            Ok((props, m)) => match spec_sub_filters(b.skip(2 + m), v5) {
                Err(f) => Err(f),
                Ok(fs) => Ok(
                    SubscribeView { packet_id: be16(b, 0) as u16, filters: fs, properties: props },
                ),
            },
        }
    }
}

fn dec_sub_filters(b: &[u8], start: usize, v5: bool) -> (r: Result<
    Vec<SubscriptionFilter>,
    DecodeFailure,
>)
    requires
        start <= b@.len(),
    ensures
        match spec_sub_filters(b@.skip(start as int), v5) {
            Ok(fs) => r matches Ok(v) && filter_views(v@) == fs,
            Err(f) => r matches Err(e) && e@ == f,
        },
{
    let mut out: Vec<SubscriptionFilter> = Vec::new();
    let mut pos = start;
    assert(filter_views(out@) =~= Seq::<SubscriptionFilterView>::empty());
    assert(Seq::<SubscriptionFilterView>::empty() + Seq::<SubscriptionFilterView>::empty()
        =~= Seq::<SubscriptionFilterView>::empty());
    while pos < b.len()
        invariant
            start <= pos <= b@.len(),
            spec_sub_filters(b@.skip(start as int), v5) == match spec_sub_filters(
                b@.skip(pos as int),
                v5,
            ) {
                Ok(rest) => Ok(filter_views(out@) + rest),
                Err(f) => Err(f),
            },
        decreases b@.len() - pos,
    {
        let ghost r = b@.skip(pos as int);
        let (topic_filter, n) = dec_string(b, pos)?;
        if pos + n >= b.len() {
            return Err(DecodeFailure::Truncated);
        }
        let o = b[pos + n];
        assert(r[n as int] == o);
        let qos = match QoS::from_u8(o % 4) {
            Ok(q) => q,
            Err(e) => {
                return Err(DecodeFailure::Invalid(e));
            },
        };
        let f = SubscriptionFilter {
            topic_filter,
            qos,
            no_local: v5 && (o / 4) % 2 == 1,
            retain_as_published: v5 && (o / 8) % 2 == 1,
            retain_handling: if v5 {
                RetainHandling::from_u8((o / 16) % 4)
            } else {
                RetainHandling::SendOnSubscribe
            },
        };
        let ghost fv = f@;
        assert(fv == filter_of(f.topic_filter@, qos, o, v5));
        let ghost before = filter_views(out@);
        out.push(f);
        assert(filter_views(out@) =~= before.push(fv));
        assert(r.skip(n + 1) =~= b@.skip(pos + n + 1));
        pos = pos + n + 1;
        proof {
            match spec_sub_filters(b@.skip(pos as int), v5) {
                Ok(rest) => {
                    assert(before + (seq![fv] + rest) =~= filter_views(out@) + rest);
                },
                Err(_) => {},
            }
        }
    }
    assert(b@.skip(pos as int).len() == 0);
    assert(filter_views(out@) + Seq::<SubscriptionFilterView>::empty() =~= filter_views(out@));
    Ok(out)
}

/// Decode a SUBSCRIBE body.
pub(crate) fn decode_subscribe(b: &[u8], v5: bool) -> (r: Result<Subscribe, DecodeFailure>)
    ensures
        match spec_decode_subscribe(b@, v5) {
            Ok(s) => r matches Ok(x) && x@ == s,
            Err(f) => r matches Err(e) && e@ == f,
        },
{
    if b.len() < 2 {
        return Err(DecodeFailure::Truncated);
    }
    let packet_id = get_u16(b, 0);
    if packet_id == 0 {
        return Err(DecodeFailure::Invalid(Error::ZeroPacketId));
    }
    let mut pos: usize = 2;
    let properties = if v5 {
        let (p, m) = dec_props(b, 2)?;
        pos = 2 + m;
        if p.is_empty() {
            None
        } else {
            Some(p)
        }
    } else {
        None
    };
    let filters = dec_sub_filters(b, pos, v5)?;
    Ok(Subscribe { packet_id, filters, properties })
}

/// The options byte of a subscription written for a version: the QoS, and
/// in MQTT 5.0 No Local (weight 4), Retain As Published (8) and Retain
/// Handling (16 and 32).
pub open spec fn sub_options(f: SubscriptionFilterView, v5: bool) -> int {
    qos_value(f.qos) + if v5 {
        (if f.no_local {
            4int
        } else {
            0
        }) + (if f.retain_as_published {
            8int
        } else {
            0
        }) + retain_handling_code(f.retain_handling) * 16
    } else {
        0
    }
}

/// The bytes of one subscription: the topic filter, then its options.
pub open spec fn filter_bytes(f: SubscriptionFilterView, v5: bool) -> Seq<u8> {
    string_bytes(f.topic_filter) + seq![sub_options(f, v5) as u8]
}

/// The bytes of a list of subscriptions, one after another.
pub open spec fn filters_bytes(fs: Seq<SubscriptionFilterView>, v5: bool) -> Seq<u8>
    decreases fs.len(),
{
    if fs.len() == 0 {
        Seq::empty()
    } else {
        filter_bytes(fs[0], v5) + filters_bytes(fs.drop_first(), v5)
    }
}

/// The body of a SUBSCRIBE written for a protocol version.
pub open spec fn subscribe_body(s: SubscribeView, ver: ProtocolVersion) -> Seq<u8> {
    let v5 = ver == ProtocolVersion::V500;
    u16_bytes(s.packet_id) + (opt_props_bytes(s.properties, v5) + filters_bytes(s.filters, v5))
}

proof fn lemma_filters_bytes_push(fs: Seq<SubscriptionFilterView>, f: SubscriptionFilterView, v5: bool)
    ensures
        filters_bytes(fs.push(f), v5) == filters_bytes(fs, v5) + filter_bytes(f, v5),
    decreases fs.len(),
{
    if fs.len() == 0 {
        assert(fs.push(f).drop_first() =~= Seq::<SubscriptionFilterView>::empty());
        assert(filters_bytes(fs.push(f).drop_first(), v5) =~= Seq::<u8>::empty());
        assert(filters_bytes(fs.push(f), v5) =~= filter_bytes(f, v5));
    } else {
        assert(fs.push(f).drop_first() =~= fs.drop_first().push(f));
        lemma_filters_bytes_push(fs.drop_first(), f, v5);
        assert(filters_bytes(fs.push(f), v5) =~= filters_bytes(fs, v5) + filter_bytes(f, v5));
    }
}

fn sub_options_of(f: &SubscriptionFilter, v5: bool) -> (r: u8)
    ensures
        r == sub_options(f@, v5),
{
    let mut o: u8 = f.qos.as_u8();
    if v5 {
        if f.no_local {
            o = o + 4;
        }
        if f.retain_as_published {
            o = o + 8;
        }
        o = o + f.retain_handling.as_u8() * 16;
    }
    o
}

/// Encode a SUBSCRIBE body.
pub(crate) fn encode_subscribe(s: &Subscribe, ver: ProtocolVersion) -> (r: Vec<u8>)
    ensures
        r@ == subscribe_body(s@, ver),
{
    let v5 = ver.is_v5();
    let mut body: Vec<u8> = Vec::new();
    put_u16(&mut body, s.packet_id);
    enc_opt_props(&mut body, &s.properties, v5);
    let ghost head = body@;
    let mut i: usize = 0;
    while i < s.filters.len()
        invariant
            i <= s.filters@.len(),
            body@ == head + filters_bytes(filter_views(s.filters@.take(i as int)), v5),
        decreases s.filters@.len() - i,
    {
        let f = &s.filters[i];
        let ghost before = body@;
        put_utf8_string(&mut body, f.topic_filter.as_str());
        body.push(sub_options_of(f, v5));
        proof {
            assert(filter_views(s.filters@.take(i + 1)) =~= filter_views(s.filters@.take(i as int)).push(f@));
            lemma_filters_bytes_push(filter_views(s.filters@.take(i as int)), f@, v5);
        }
        i = i + 1;
        assert(body@ =~= head + filters_bytes(filter_views(s.filters@.take(i as int)), v5));
    }
    assert(s.filters@.take(i as int) =~= s.filters@);
    assert(body@ =~= subscribe_body(s@, ver));
    body
}

/// A subscription that is written faithfully for the version: the topic
/// filter fits its length prefix, and in MQTT 3.1.1, where the options are
/// not written, they hold their defaults.
pub open spec fn filter_wf(f: SubscriptionFilterView, v5: bool) -> bool {
    &&& str_fits(f.topic_filter)
    &&& !v5 ==> !f.no_local && !f.retain_as_published && f.retain_handling
        == RetainHandling::SendOnSubscribe
}

/// A SUBSCRIBE that is written faithfully for the version: a non-zero
/// packet identifier, well-formed subscriptions, and properties that are
/// absent in MQTT 3.1.1 and in 5.0 either absent or non-empty and well
/// formed (an empty section reads back as absent).
pub open spec fn subscribe_wf(s: SubscribeView, ver: ProtocolVersion) -> bool {
    let v5 = ver == ProtocolVersion::V500;
    &&& s.packet_id != 0
    &&& forall|i: int| 0 <= i < s.filters.len() ==> filter_wf(#[trigger] s.filters[i], v5)
    &&& match s.properties {
        Some(p) => v5 && p != empty_props() && props_wf(p),
        None => true,
    }
}

proof fn lemma_sub_options_bits(f: SubscriptionFilterView, v5: bool)
    requires
        filter_wf(f, v5),
    ensures
        0 <= sub_options(f, v5) < 256,
        (sub_options(f, v5) as u8) % 4 == qos_value(f.qos),
        filter_of(f.topic_filter, f.qos, sub_options(f, v5) as u8, v5) == f,
{
    let q = qos_value(f.qos) as int;
    let nl: int = if f.no_local {
        1
    } else {
        0
    };
    let rp: int = if f.retain_as_published {
        1
    } else {
        0
    };
    let rh = retain_handling_code(f.retain_handling) as int;
    lemma_retain_handling_roundtrip(f.retain_handling);
    let o = sub_options(f, v5);
    if v5 {
        assert(o == q + 4 * nl + 8 * rp + 16 * rh);
        assert(o / 4 == nl + 2 * rp + 4 * rh);
        assert(o / 8 == rp + 2 * rh);
        assert(o / 16 == rh);
    } else {
        assert(o == q);
    }
}

proof fn lemma_sub_filters_roundtrip(fs: Seq<SubscriptionFilterView>, v5: bool)
    requires
        forall|i: int| 0 <= i < fs.len() ==> filter_wf(#[trigger] fs[i], v5),
    ensures
        spec_sub_filters(filters_bytes(fs, v5), v5) == Ok::<Seq<SubscriptionFilterView>, Fail>(
            fs,
        ),
    decreases fs.len(),
{
    if fs.len() > 0 {
        let f = fs[0];
        assert(filter_wf(fs[0], v5));
        let r = filters_bytes(fs, v5);
        let tail = filters_bytes(fs.drop_first(), v5);
        let o = sub_options(f, v5);
        lemma_sub_options_bits(f, v5);
        lemma_qos_roundtrip(f.qos, 0);
        assert(r =~= string_bytes(f.topic_filter) + (seq![o as u8] + tail));
        lemma_string_roundtrip(f.topic_filter, seq![o as u8] + tail);
        let n = string_bytes(f.topic_filter).len() as int;
        assert(r[n] == o as u8);
        assert(r.skip(n + 1) =~= tail);
        assert forall|i: int| 0 <= i < fs.drop_first().len() implies filter_wf(
            #[trigger] fs.drop_first()[i],
            v5,
        ) by {
            assert(fs.drop_first()[i] == fs[i + 1]);
        }
        lemma_sub_filters_roundtrip(fs.drop_first(), v5);
        assert(seq![f] + fs.drop_first() =~= fs);
    } else {
        assert(filters_bytes(fs, v5).len() == 0);
        assert(fs =~= Seq::<SubscriptionFilterView>::empty());
    }
}

/// Decoding the body of a well-formed SUBSCRIBE gives it back.
pub proof fn lemma_subscribe_roundtrip(s: SubscribeView, ver: ProtocolVersion)
    requires
        subscribe_wf(s, ver),
    ensures
        spec_decode_subscribe(subscribe_body(s, ver), ver == ProtocolVersion::V500) == Ok::<
            SubscribeView,
            Fail,
        >(s),
{
    let v5 = ver == ProtocolVersion::V500;
    let b = subscribe_body(s, ver);
    let pp = opt_props_bytes(s.properties, v5);
    let fb = filters_bytes(s.filters, v5);
    assert(b[0] == (s.packet_id / 256) as u8 && b[1] == (s.packet_id % 256) as u8);
    assert(be16(b, 0) == s.packet_id);
    assert(b.skip(2) =~= pp + fb);
    if v5 {
        lemma_props_roundtrip(props_or_empty(s.properties), fb);
    }
    assert(b.skip(0) =~= b);
    lemma_skip_prefix(b, 0, u16_bytes(s.packet_id), pp + fb);
    lemma_skip_prefix(b, 2, pp, fb);
    lemma_sub_filters_roundtrip(s.filters, v5);
}

// ── SUBACK ───────────────────────────────────────────────────────────────────

/// The SUBACK reason codes that a byte string holds, one per byte.
pub open spec fn suback_codes_of(s: Seq<u8>) -> Seq<SubAckReason> {
    s.map_values(|x: u8| suback_reason_from_code(x))
}

/// Decoding a SUBACK body: packet identifier, the properties in MQTT 5.0,
/// then one reason code per remaining byte.
pub open spec fn spec_decode_suback(b: Seq<u8>, v5: bool) -> Result<SubAckView, Fail> {
    if b.len() < 2 {
        Err(Fail::Truncated)
    } else {
        match spec_opt_props(b.skip(2), v5) {
            Err(f) => Err(f),
            Ok((props, m)) => Ok(
                SubAckView {
                    packet_id: be16(b, 0) as u16,
                    reason_codes: suback_codes_of(b.skip(2 + m)),
                    properties: props,
                },
            ),
        }
    }
}

/// Decode a SUBACK body.
pub(crate) fn decode_suback(b: &[u8], v5: bool) -> (r: Result<SubAck, DecodeFailure>)
    ensures
        match spec_decode_suback(b@, v5) {
            Ok(a) => r matches Ok(x) && x@ == a,
            Err(f) => r matches Err(e) && e@ == f,
        },
{
    if b.len() < 2 {
        return Err(DecodeFailure::Truncated);
    }
    let packet_id = get_u16(b, 0);
    let (properties, m) = dec_opt_props(b, 2, v5)?;
    let start = 2 + m;
    let mut reason_codes: Vec<SubAckReason> = Vec::new();
    let mut i = start;
    while i < b.len()
        invariant
            start <= i <= b@.len(),
            reason_codes@ =~= suback_codes_of(b@.subrange(start as int, i as int)),
        decreases b@.len() - i,
    {
        reason_codes.push(SubAckReason::from_u8(b[i]));
        i = i + 1;
        assert(reason_codes@ =~= suback_codes_of(b@.subrange(start as int, i as int)));
    }
    assert(b@.subrange(start as int, i as int) =~= b@.skip(start as int));
    Ok(SubAck { packet_id, reason_codes, properties })
}

/// The bytes of a list of SUBACK reason codes.
pub open spec fn suback_codes_bytes(rs: Seq<SubAckReason>) -> Seq<u8> {
    rs.map_values(|r: SubAckReason| suback_reason_code(r))
}

/// The body of a SUBACK written for a protocol version.
pub open spec fn suback_body(a: SubAckView, ver: ProtocolVersion) -> Seq<u8> {
    u16_bytes(a.packet_id) + (opt_props_bytes(a.properties, ver == ProtocolVersion::V500)
        + suback_codes_bytes(a.reason_codes))
}

/// Encode a SUBACK body.
pub(crate) fn encode_suback(a: &SubAck, ver: ProtocolVersion) -> (r: Vec<u8>)
    ensures
        r@ == suback_body(a@, ver),
{
    let mut body: Vec<u8> = Vec::new();
    put_u16(&mut body, a.packet_id);
    enc_opt_props(&mut body, &a.properties, ver.is_v5());
    let ghost head = body@;
    let mut i: usize = 0;
    while i < a.reason_codes.len()
        invariant
            i <= a.reason_codes@.len(),
            body@ =~= head + suback_codes_bytes(a.reason_codes@.take(i as int)),
        decreases a.reason_codes@.len() - i,
    {
        body.push(a.reason_codes[i].as_u8());
        i = i + 1;
        assert(body@ =~= head + suback_codes_bytes(a.reason_codes@.take(i as int)));
    }
    assert(a.reason_codes@.take(i as int) =~= a.reason_codes@);
    assert(body@ =~= suback_body(a@, ver));
    body
}

/// A SUBACK that is written faithfully for the version: properties present
/// and well formed in MQTT 5.0, absent in 3.1.1.
pub open spec fn suback_wf(a: SubAckView, ver: ProtocolVersion) -> bool {
    props_match(a.properties, ver == ProtocolVersion::V500)
}

/// Decoding the body of a well-formed SUBACK gives it back.
pub proof fn lemma_suback_roundtrip(a: SubAckView, ver: ProtocolVersion)
    requires
        suback_wf(a, ver),
    ensures
        spec_decode_suback(suback_body(a, ver), ver == ProtocolVersion::V500) == Ok::<
            SubAckView,
            Fail,
        >(a),
{
    let v5 = ver == ProtocolVersion::V500;
    let b = suback_body(a, ver);
    let pp = opt_props_bytes(a.properties, v5);
    let cb = suback_codes_bytes(a.reason_codes);
    assert(b[0] == (a.packet_id / 256) as u8 && b[1] == (a.packet_id % 256) as u8);
    assert(b.skip(0) =~= b);
    lemma_skip_prefix(b, 0, u16_bytes(a.packet_id), pp + cb);
    lemma_opt_props_roundtrip(a.properties, v5, cb);
    lemma_skip_prefix(b, 2, pp, cb);
    assert forall|i: int| 0 <= i < a.reason_codes.len() implies #[trigger] suback_codes_of(
        cb,
    )[i] == a.reason_codes[i] by {
        lemma_suback_reason_roundtrip(a.reason_codes[i]);
    }
    assert(suback_codes_of(cb) =~= a.reason_codes);
}

// ── UNSUBSCRIBE ──────────────────────────────────────────────────────────────

/// Decoding a list of string fields up to the end of the bytes.
pub open spec fn spec_strings(r: Seq<u8>) -> Result<Seq<Seq<char>>, Fail>
    decreases r.len(),
{
    if r.len() == 0 {
        Ok(Seq::empty())
    } else {
        match spec_read_string(r) {
            Err(e) => Err(Fail::Rejected(e)),
            Ok((s, n)) => if n <= 0 || r.len() < n {
                Err(Fail::Truncated)
            } else {
                match spec_strings(r.skip(n)) {
                    Err(f) => Err(f),
                    Ok(rest) => Ok(seq![s] + rest),
                }
            },
        }
    }
}

/// Decoding an UNSUBSCRIBE body: a non-zero packet identifier, the
/// properties in MQTT 5.0, then the topic filters.
pub open spec fn spec_decode_unsubscribe(b: Seq<u8>, v5: bool) -> Result<UnsubscribeView, Fail> {
    if b.len() < 2 {
        Err(Fail::Truncated)
    } else if be16(b, 0) == 0 {
        Err(Fail::Rejected(ErrorView::ZeroPacketId))
    } else {
        match spec_opt_props(b.skip(2), v5) {
            Err(f) => Err(f),
            Ok((props, m)) => match spec_strings(b.skip(2 + m)) {
                Err(f) => Err(f),
                Ok(fs) => Ok(
                    UnsubscribeView { packet_id: be16(b, 0) as u16, filters: fs, properties: props },
                ),
            },
        }
    }
}

fn dec_strings(b: &[u8], start: usize) -> (r: Result<Vec<String>, DecodeFailure>)
    requires
        start <= b@.len(),
    ensures
        match spec_strings(b@.skip(start as int)) {
            Ok(fs) => r matches Ok(v) && string_views(v@) == fs,
            Err(f) => r matches Err(e) && e@ == f,
        },
{
    let mut out: Vec<String> = Vec::new();
    let mut pos = start;
    assert(string_views(out@) =~= Seq::<Seq<char>>::empty());
    assert(Seq::<Seq<char>>::empty() + Seq::<Seq<char>>::empty() =~= Seq::<Seq<char>>::empty());
    while pos < b.len()
        invariant
            start <= pos <= b@.len(),
            spec_strings(b@.skip(start as int)) == match spec_strings(b@.skip(pos as int)) {
                Ok(rest) => Ok(string_views(out@) + rest),
                Err(f) => Err(f),
            },
        decreases b@.len() - pos,
    {
        let ghost r = b@.skip(pos as int);
        let (s, n) = dec_string(b, pos)?;
        let ghost sv = s@;
        let ghost before = string_views(out@);
        out.push(s);
        assert(string_views(out@) =~= before.push(sv));
        assert(r.skip(n as int) =~= b@.skip(pos + n));
        pos = pos + n;
        proof {
            match spec_strings(b@.skip(pos as int)) {
                Ok(rest) => {
                    assert(before + (seq![sv] + rest) =~= string_views(out@) + rest);
                },
                Err(_) => {},
            }
        }
    }
    assert(b@.skip(pos as int).len() == 0);
    assert(string_views(out@) + Seq::<Seq<char>>::empty() =~= string_views(out@));
    Ok(out)
}

/// Decode an UNSUBSCRIBE body.
pub(crate) fn decode_unsubscribe(b: &[u8], v5: bool) -> (r: Result<Unsubscribe, DecodeFailure>)
    ensures
        match spec_decode_unsubscribe(b@, v5) {
            Ok(s) => r matches Ok(x) && x@ == s,
            Err(f) => r matches Err(e) && e@ == f,
        },
{
    if b.len() < 2 {
        return Err(DecodeFailure::Truncated);
    }
    let packet_id = get_u16(b, 0);
    if packet_id == 0 {
        return Err(DecodeFailure::Invalid(Error::ZeroPacketId));
    }
    let (properties, m) = dec_opt_props(b, 2, v5)?;
    let filters = dec_strings(b, 2 + m)?;
    Ok(Unsubscribe { packet_id, filters, properties })
}

/// The bytes of a list of string fields, one after another.
pub open spec fn strings_bytes(fs: Seq<Seq<char>>) -> Seq<u8>
    decreases fs.len(),
{
    if fs.len() == 0 {
        Seq::empty()
    } else {
        string_bytes(fs[0]) + strings_bytes(fs.drop_first())
    }
}

/// The body of an UNSUBSCRIBE written for a protocol version.
pub open spec fn unsubscribe_body(s: UnsubscribeView, ver: ProtocolVersion) -> Seq<u8> {
    u16_bytes(s.packet_id) + (opt_props_bytes(s.properties, ver == ProtocolVersion::V500)
        + strings_bytes(s.filters))
}

proof fn lemma_strings_bytes_push(fs: Seq<Seq<char>>, f: Seq<char>)
    ensures
        strings_bytes(fs.push(f)) == strings_bytes(fs) + string_bytes(f),
    decreases fs.len(),
{
    if fs.len() == 0 {
        assert(fs.push(f).drop_first() =~= Seq::<Seq<char>>::empty());
        assert(strings_bytes(fs.push(f).drop_first()) =~= Seq::<u8>::empty());
        assert(strings_bytes(fs.push(f)) =~= string_bytes(f));
    } else {
        assert(fs.push(f).drop_first() =~= fs.drop_first().push(f));
        lemma_strings_bytes_push(fs.drop_first(), f);
        assert(strings_bytes(fs.push(f)) =~= strings_bytes(fs) + string_bytes(f));
    }
}

/// Encode an UNSUBSCRIBE body.
pub(crate) fn encode_unsubscribe(s: &Unsubscribe, ver: ProtocolVersion) -> (r: Vec<u8>)
    ensures
        r@ == unsubscribe_body(s@, ver),
{
    let mut body: Vec<u8> = Vec::new();
    put_u16(&mut body, s.packet_id);
    enc_opt_props(&mut body, &s.properties, ver.is_v5());
    let ghost head = body@;
    let mut i: usize = 0;
    while i < s.filters.len()
        invariant
            i <= s.filters@.len(),
            body@ == head + strings_bytes(string_views(s.filters@.take(i as int))),
        decreases s.filters@.len() - i,
    {
        let f = &s.filters[i];
        put_utf8_string(&mut body, f.as_str());
        proof {
            assert(string_views(s.filters@.take(i + 1)) =~= string_views(s.filters@.take(i as int)).push(f@));
            lemma_strings_bytes_push(string_views(s.filters@.take(i as int)), f@);
        }
        i = i + 1;
        assert(body@ =~= head + strings_bytes(string_views(s.filters@.take(i as int))));
    }
    assert(s.filters@.take(i as int) =~= s.filters@);
    assert(body@ =~= unsubscribe_body(s@, ver));
    body
}

/// An UNSUBSCRIBE that is written faithfully for the version: a non-zero
/// packet identifier, topic filters that fit their length prefixes, and
/// properties present and well formed exactly in MQTT 5.0.
pub open spec fn unsubscribe_wf(s: UnsubscribeView, ver: ProtocolVersion) -> bool {
    &&& s.packet_id != 0
    &&& forall|i: int| 0 <= i < s.filters.len() ==> str_fits(#[trigger] s.filters[i])
    &&& props_match(s.properties, ver == ProtocolVersion::V500)
}

proof fn lemma_strings_roundtrip(fs: Seq<Seq<char>>)
    requires
        forall|i: int| 0 <= i < fs.len() ==> str_fits(#[trigger] fs[i]),
    ensures
        spec_strings(strings_bytes(fs)) == Ok::<Seq<Seq<char>>, Fail>(fs),
    decreases fs.len(),
{
    if fs.len() > 0 {
        let f = fs[0];
        assert(str_fits(fs[0]));
        let r = strings_bytes(fs);
        let tail = strings_bytes(fs.drop_first());
        lemma_string_roundtrip(f, tail);
        let n = string_bytes(f).len() as int;
        assert(r.skip(n) =~= tail);
        assert forall|i: int| 0 <= i < fs.drop_first().len() implies str_fits(
            #[trigger] fs.drop_first()[i],
        ) by {
            assert(fs.drop_first()[i] == fs[i + 1]);
        }
        lemma_strings_roundtrip(fs.drop_first());
        assert(seq![f] + fs.drop_first() =~= fs);
    } else {
        assert(strings_bytes(fs).len() == 0);
        assert(fs =~= Seq::<Seq<char>>::empty());
    }
}

/// Decoding the body of a well-formed UNSUBSCRIBE gives it back.
pub proof fn lemma_unsubscribe_roundtrip(s: UnsubscribeView, ver: ProtocolVersion)
    requires
        unsubscribe_wf(s, ver),
    ensures
        spec_decode_unsubscribe(unsubscribe_body(s, ver), ver == ProtocolVersion::V500) == Ok::<
            UnsubscribeView,
            Fail,
        >(s),
{
    let v5 = ver == ProtocolVersion::V500;
    let b = unsubscribe_body(s, ver);
    let pp = opt_props_bytes(s.properties, v5);
    let fb = strings_bytes(s.filters);
    assert(b[0] == (s.packet_id / 256) as u8 && b[1] == (s.packet_id % 256) as u8);
    assert(be16(b, 0) == s.packet_id);
    assert(b.skip(0) =~= b);
    lemma_skip_prefix(b, 0, u16_bytes(s.packet_id), pp + fb);
    lemma_opt_props_roundtrip(s.properties, v5, fb);
    lemma_skip_prefix(b, 2, pp, fb);
    lemma_strings_roundtrip(s.filters);
}

// ── UNSUBACK ─────────────────────────────────────────────────────────────────

/// The UNSUBACK reason codes that a byte string holds, one per byte.
pub open spec fn unsuback_codes_of(s: Seq<u8>) -> Seq<UnsubAckReason> {
    s.map_values(|x: u8| unsuback_reason_from_code(x))
}

/// Decoding an UNSUBACK body: packet identifier, in MQTT 5.0 the
/// properties when bytes are left, then one reason code per remaining byte.
pub open spec fn spec_decode_unsuback(b: Seq<u8>, v5: bool) -> Result<UnsubAckView, Fail> {
    if b.len() < 2 {
        Err(Fail::Truncated)
    } else {
        match spec_opt_props(b.skip(2), v5 && b.len() > 2) {
            Err(f) => Err(f),
            Ok((props, m)) => Ok(
                UnsubAckView {
                    packet_id: be16(b, 0) as u16,
                    reason_codes: unsuback_codes_of(b.skip(2 + m)),
                    properties: props,
                },
            ),
        }
    }
}

/// Decode an UNSUBACK body.
pub(crate) fn decode_unsuback(b: &[u8], v5: bool) -> (r: Result<UnsubAck, DecodeFailure>)
    ensures
        match spec_decode_unsuback(b@, v5) {
            Ok(a) => r matches Ok(x) && x@ == a,
            Err(f) => r matches Err(e) && e@ == f,
        },
{
    if b.len() < 2 {
        return Err(DecodeFailure::Truncated);
    }
    let packet_id = get_u16(b, 0);
    let (properties, m) = dec_opt_props(b, 2, v5 && b.len() > 2)?;
    let start = 2 + m;
    let mut reason_codes: Vec<UnsubAckReason> = Vec::new();
    let mut i = start;
    while i < b.len()
        invariant
            start <= i <= b@.len(),
            reason_codes@ =~= unsuback_codes_of(b@.subrange(start as int, i as int)),
        decreases b@.len() - i,
    {
        reason_codes.push(UnsubAckReason::from_u8(b[i]));
        i = i + 1;
        assert(reason_codes@ =~= unsuback_codes_of(b@.subrange(start as int, i as int)));
    }
    assert(b@.subrange(start as int, i as int) =~= b@.skip(start as int));
    Ok(UnsubAck { packet_id, reason_codes, properties })
}

/// The bytes of a list of UNSUBACK reason codes.
pub open spec fn unsuback_codes_bytes(rs: Seq<UnsubAckReason>) -> Seq<u8> {
    rs.map_values(|r: UnsubAckReason| unsuback_reason_code(r))
}

/// The body of an UNSUBACK written for a protocol version.
pub open spec fn unsuback_body(a: UnsubAckView, ver: ProtocolVersion) -> Seq<u8> {
    u16_bytes(a.packet_id) + (opt_props_bytes(a.properties, ver == ProtocolVersion::V500)
        + unsuback_codes_bytes(a.reason_codes))
}

/// Encode an UNSUBACK body.
pub(crate) fn encode_unsuback(a: &UnsubAck, ver: ProtocolVersion) -> (r: Vec<u8>)
    ensures
        r@ == unsuback_body(a@, ver),
{
    let mut body: Vec<u8> = Vec::new();
    put_u16(&mut body, a.packet_id);
    enc_opt_props(&mut body, &a.properties, ver.is_v5());
    let ghost head = body@;
    let mut i: usize = 0;
    while i < a.reason_codes.len()
        invariant
            i <= a.reason_codes@.len(),
            body@ =~= head + unsuback_codes_bytes(a.reason_codes@.take(i as int)),
        decreases a.reason_codes@.len() - i,
    {
        body.push(a.reason_codes[i].as_u8());
        i = i + 1;
        assert(body@ =~= head + unsuback_codes_bytes(a.reason_codes@.take(i as int)));
    }
    assert(a.reason_codes@.take(i as int) =~= a.reason_codes@);
    assert(body@ =~= unsuback_body(a@, ver));
    body
}

/// An UNSUBACK that is written faithfully for the version: properties
/// present and well formed in MQTT 5.0, absent in 3.1.1.
pub open spec fn unsuback_wf(a: UnsubAckView, ver: ProtocolVersion) -> bool {
    props_match(a.properties, ver == ProtocolVersion::V500)
}

/// Decoding the body of a well-formed UNSUBACK gives it back.
pub proof fn lemma_unsuback_roundtrip(a: UnsubAckView, ver: ProtocolVersion)
    requires
        unsuback_wf(a, ver),
    ensures
        spec_decode_unsuback(unsuback_body(a, ver), ver == ProtocolVersion::V500) == Ok::<
            UnsubAckView,
            Fail,
        >(a),
{
    let v5 = ver == ProtocolVersion::V500;
    let b = unsuback_body(a, ver);
    let pp = opt_props_bytes(a.properties, v5);
    let cb = unsuback_codes_bytes(a.reason_codes);
    assert(b[0] == (a.packet_id / 256) as u8 && b[1] == (a.packet_id % 256) as u8);
    assert(b.skip(0) =~= b);
    lemma_skip_prefix(b, 0, u16_bytes(a.packet_id), pp + cb);
    if v5 {
        assert(props_bytes(props_or_empty(a.properties)).len() > 0);
    }
    lemma_opt_props_roundtrip(a.properties, v5, cb);
    lemma_skip_prefix(b, 2, pp, cb);
    assert forall|i: int| 0 <= i < a.reason_codes.len() implies #[trigger] unsuback_codes_of(
        cb,
    )[i] == a.reason_codes[i] by {
        lemma_unsuback_reason_roundtrip(a.reason_codes[i]);
    }
    assert(unsuback_codes_of(cb) =~= a.reason_codes);
}

} // verus!
