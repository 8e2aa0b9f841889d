//! CONNECT and CONNACK bodies.

use crate::codec::fields::{
    bit_at, dec_binary, dec_opt_props, dec_props, dec_string, enc_opt_props,
    lemma_opt_props_roundtrip, lemma_skip_prefix, opt_props_bytes, props_match, props_or_empty, spec_opt_props,
    str_fits,
};
use crate::error::{Error, ErrorView};
use crate::packet::connect::{
    lemma_connect_reason_roundtrip, connect_reason_code, connect_reason_from_code, opt_will, ConnAck, ConnAckView, Connect,
    ConnectReason, ConnectView, Will, WillView,
};
use crate::properties::{
    lemma_props_roundtrip, opt_bin, opt_bin_fits, opt_str, opt_str_fits, props_bytes,
    spec_decode_props,
};
use crate::version::{version_level, ProtocolVersion};
use crate::wire::{
    be16, get_u16, lemma_prefixed_roundtrip, lemma_string_roundtrip, prefixed_bytes, put_u16,
    spec_read_prefixed, spec_read_string, string_bytes, string_from_utf8, u16_bytes,
    put_binary_data, put_utf8_string, DecodeFailure, Fail,
};
use crate::{lemma_qos_roundtrip, qos_from_value, qos_value, QoS};
use vstd::prelude::*;
use vstd::utf8::*;

verus! {

// ── CONNECT: decoding ────────────────────────────────────────────────────────

/// The bytes of the protocol name `MQTT`.
pub open spec fn mqtt_name() -> Seq<u8> {
    seq![0x4Du8, 0x51u8, 0x54u8, 0x54u8]
}

/// The QoS number of the Will, bits 3 and 4 of the connect flags.
pub open spec fn will_qos_bits(flags: u8) -> u8 {
    ((flags / 8) % 4) as u8
}

/// The Will that the connect flags announce, read from position `p`: the
/// Will (or `None`) and the position after it.
#[verifier::opaque]
pub open spec fn spec_will(b: Seq<u8>, p: int, v5: bool, flags: u8, wq: QoS) -> Result<
    (Option<WillView>, int),
    Fail,
> {
    if !bit_at(flags, 4) {
        Ok((None, p))
    } else {
        match spec_opt_props(b.skip(p), v5) {
            Err(f) => Err(f),
            Ok((wp, n1)) => match spec_read_string(b.skip(p + n1)) {
                Err(e) => Err(Fail::Rejected(e)),
                Ok((t, n2)) => match spec_read_prefixed(b.skip(p + n1 + n2)) {
                    Err(e) => Err(Fail::Rejected(e)),
                    Ok((pl, n3)) => Ok(
                        (
                            Some(
                                WillView {
                                    topic: t,
                                    payload: pl,
                                    qos: wq,
                                    retain: bit_at(flags, 32),
                                    properties: wp,
                                },
                            ),
                            p + n1 + n2 + n3,
                        ),
                    ),
                },
            },
        }
    }
}

/// The password that the connect flags announce, read from position `p`.
pub open spec fn spec_password(b: Seq<u8>, p: int, flags: u8) -> Result<Option<Seq<u8>>, Fail> {
    if bit_at(flags, 64) {
        match spec_read_prefixed(b.skip(p)) {
            Err(e) => Err(Fail::Rejected(e)),
            Ok((pw, _)) => Ok(Some(pw)),
        }
    } else {
        Ok(None)
    }
}

/// The user name and password that the connect flags announce, read from
/// position `p`.
#[verifier::opaque]
pub open spec fn spec_credentials(b: Seq<u8>, p: int, flags: u8) -> Result<
    (Option<Seq<char>>, Option<Seq<u8>>),
    Fail,
> {
    if bit_at(flags, 128) {
        match spec_read_string(b.skip(p)) {
            Err(e) => Err(Fail::Rejected(e)),
            Ok((u, n)) => match spec_password(b, p + n, flags) {
                Err(f) => Err(f),
                Ok(pw) => Ok((Some(u), pw)),
            },
        }
    } else {
        match spec_password(b, p, flags) {
            Err(f) => Err(f),
            Ok(pw) => Ok((None, pw)),
        }
    }
}

/// The fields of a CONNECT after the fixed part of its variable header,
/// from position `p` on.
#[verifier::opaque]
pub open spec fn spec_connect_fields(
    b: Seq<u8>,
    p: int,
    v5: bool,
    flags: u8,
    keep_alive: u16,
    wq: QoS,
) -> Result<ConnectView, Fail> {
    match spec_opt_props(b.skip(p), v5) {
        Err(f) => Err(f),
        Ok((props, n1)) => match spec_read_string(b.skip(p + n1)) {
            Err(e) => Err(Fail::Rejected(e)),
            Ok((cid, n2)) => match spec_will(b, p + n1 + n2, v5, flags, wq) {
                Err(f) => Err(f),
                Ok((will, p3)) => match spec_credentials(b, p3, flags) {
                    Err(f) => Err(f),
                    Ok((user, pass)) => Ok(
                        ConnectView {
                            client_id: cid,
                            clean_start: bit_at(flags, 2),
                            keep_alive,
                            username: user,
                            password: pass,
                            will,
                            properties: props,
                        },
                    ),
                },
            },
        },
    }
}

/// Decoding a CONNECT body.  The protocol name must be `MQTT` and the level
/// 4 (3.1.1) or 5 (5.0); the level, not the version negotiated so far,
/// decides whether Properties sections are read.
pub open spec fn spec_decode_connect(b: Seq<u8>) -> Result<ConnectView, Fail> {
    match spec_read_prefixed(b) {
        Err(e) => Err(Fail::Rejected(e)),
        Ok((name, n)) => if !valid_utf8(name) {
            Err(Fail::Rejected(ErrorView::InvalidUtf8))
        } else if name != mqtt_name() {
            Err(Fail::Rejected(ErrorView::InvalidProtocolName(decode_utf8(name))))
        } else if b.len() < n + 1 {
            Err(Fail::Truncated)
        } else if b[n] != 4 && b[n] != 5 {
            Err(Fail::Rejected(ErrorView::UnsupportedProtocolVersion(b[n])))
        } else if b.len() < n + 4 {
            Err(Fail::Truncated)
        } else {
            match qos_from_value(will_qos_bits(b[n + 1])) {
                None => Err(Fail::Rejected(ErrorView::InvalidQoS(will_qos_bits(b[n + 1])))),
                Some(wq) => spec_connect_fields(
                    b,
                    n + 4,
                    b[n] == 5,
                    b[n + 1],
                    be16(b, n + 2) as u16,
                    wq,
                ),
            }
        }
    }
}

fn dec_will(b: &[u8], p: usize, v5: bool, flags: u8, wq: QoS) -> (r: Result<
    (Option<Will>, usize),
    DecodeFailure,
>)
    requires
        p <= b@.len(),
    ensures
        match spec_will(b@, p as int, v5, flags, wq) {
            Ok((w, q)) => r matches Ok((x, m)) && opt_will(x) == w && m == q && m <= b.len(),
            Err(f) => r matches Err(e) && e@ == f,
        },
{
    reveal(spec_will);
    if (flags / 4) % 2 != 1 {
        return Ok((None, p));
    }
    let (wp, n1) = dec_opt_props(b, p, v5)?;
    let (topic, n2) = dec_string(b, p + n1)?;
    let (payload, n3) = dec_binary(b, p + n1 + n2)?;
    let w = Will { topic, payload, qos: wq, retain: (flags / 32) % 2 == 1, properties: wp };
    Ok((Some(w), p + n1 + n2 + n3))
}

fn dec_password(b: &[u8], p: usize, flags: u8) -> (r: Result<Option<Vec<u8>>, DecodeFailure>)
    requires
        p <= b@.len(),
    ensures
        match spec_password(b@, p as int, flags) {
            Ok(pw) => r matches Ok(x) && opt_bin(x) == pw,
            Err(f) => r matches Err(e) && e@ == f,
        },
{
    if (flags / 64) % 2 == 1 {
        let (pw, _n) = dec_binary(b, p)?;
        Ok(Some(pw))
    } else {
        Ok(None)
    }
}

fn dec_credentials(b: &[u8], p: usize, flags: u8) -> (r: Result<
    (Option<String>, Option<Vec<u8>>),
    DecodeFailure,
>)
    requires
        p <= b@.len(),
    ensures
        match spec_credentials(b@, p as int, flags) {
            Ok((u, pw)) => r matches Ok((x, y)) && opt_str(x) == u && opt_bin(y) == pw,
            Err(f) => r matches Err(e) && e@ == f,
        },
{
    reveal(spec_credentials);
    if (flags / 128) % 2 == 1 {
        let (u, n) = dec_string(b, p)?;
        let pw = dec_password(b, p + n, flags)?;
        Ok((Some(u), pw))
    } else {
        let pw = dec_password(b, p, flags)?;
        Ok((None, pw))
    }
}

/// Decode a CONNECT body.
pub(crate) fn decode_connect(b: &[u8]) -> (r: Result<Connect, DecodeFailure>)
    ensures
        match spec_decode_connect(b@) {
            Ok(c) => r matches Ok(x) && x@ == c,
            Err(f) => r matches Err(e) && e@ == f,
        },
{
    assert(b@.skip(0) =~= b@);
    let (name, n) = dec_binary(b, 0)?;
    let ghost nb = name@;
    let is_mqtt = name.len() == 4 && name[0] == 0x4D && name[1] == 0x51 && name[2] == 0x54
        && name[3] == 0x54;
    if !is_mqtt {
        assert(nb != mqtt_name()) by {
            if nb == mqtt_name() {
                assert(nb[0] == 0x4D && nb[1] == 0x51 && nb[2] == 0x54 && nb[3] == 0x54);
            }
        }
        match string_from_utf8(name) {
            None => {
                return Err(DecodeFailure::Invalid(Error::InvalidUtf8));
            },
            Some(s) => {
                proof {
                    encode_utf8_decode_utf8(s@);
                }
                return Err(DecodeFailure::Invalid(Error::InvalidProtocolName(s)));
            },
        }
    }
    assert(nb =~= mqtt_name());
    proof {
        lemma_mqtt_name_valid();
    }
    if b.len() < n + 1 {
        return Err(DecodeFailure::Truncated);
    }
    let level = b[n];
    if level != 4 && level != 5 {
        return Err(DecodeFailure::Invalid(Error::UnsupportedProtocolVersion(level)));
    }
    if b.len() < n + 4 {
        return Err(DecodeFailure::Truncated);
    }
    let flags = b[n + 1];
    let keep_alive = get_u16(b, n + 2);
    let wq = match QoS::from_u8((flags / 8) % 4) {
        Ok(q) => q,
        Err(e) => {
            return Err(DecodeFailure::Invalid(e));
        },
    };
    let v5 = level == 5;
    let p = n + 4;
    reveal(spec_connect_fields);
    let (properties, n1) = dec_opt_props(b, p, v5)?;
    let (client_id, n2) = dec_string(b, p + n1)?;
    let (will, p3) = dec_will(b, p + n1 + n2, v5, flags, wq)?;
    let (username, password) = dec_credentials(b, p3, flags)?;
    Ok(
        Connect {
            client_id,
            clean_start: (flags / 2) % 2 == 1,
            keep_alive,
            username,
            password,
            will,
            properties,
        },
    )
}

// ── CONNECT: encoding ────────────────────────────────────────────────────────

/// The connect flags of a CONNECT: clean start (weight 2), Will (4), Will
/// QoS (8 and 16), Will retain (32), password (64), user name (128).
pub open spec fn connect_flags(c: ConnectView) -> int {
    (if c.clean_start {
        2int
    } else {
        0
    }) + match c.will {
        Some(w) => 4 + qos_value(w.qos) * 8 + if w.retain {
            32int
        } else {
            0
        },
        None => 0,
    } + (if c.password is Some {
        64int
    } else {
        0
    }) + (if c.username is Some {
        128int
    } else {
        0
    })
}

/// The bytes of an optional string field (nothing when absent).
pub open spec fn opt_string_bytes(o: Option<Seq<char>>) -> Seq<u8> {
    match o {
        Some(c) => string_bytes(c),
        None => Seq::empty(),
    }
}

/// The bytes of an optional binary field (nothing when absent).
pub open spec fn opt_binary_bytes(o: Option<Seq<u8>>) -> Seq<u8> {
    match o {
        Some(d) => prefixed_bytes(d),
        None => Seq::empty(),
    }
}

/// The bytes of the Will in the CONNECT payload.
pub open spec fn will_bytes(w: Option<WillView>, v5: bool) -> Seq<u8> {
    match w {
        Some(w) => opt_props_bytes(w.properties, v5) + string_bytes(w.topic) + prefixed_bytes(
            w.payload,
        ),
        None => Seq::empty(),
    }
}

/// The fixed part of the CONNECT variable header: protocol name, level,
/// connect flags and keep-alive (ten bytes).
pub open spec fn connect_head(c: ConnectView, ver: ProtocolVersion) -> Seq<u8> {
    prefixed_bytes(mqtt_name()) + (seq![version_level(ver), connect_flags(c) as u8] + u16_bytes(
        c.keep_alive,
    ))
}

/// What follows the fixed part of the CONNECT variable header: properties,
/// client identifier, Will, user name and password.
pub open spec fn connect_rest(c: ConnectView, v5: bool) -> Seq<u8> {
    opt_props_bytes(c.properties, v5) + (string_bytes(c.client_id) + (will_bytes(c.will, v5) + (
    opt_string_bytes(c.username) + opt_binary_bytes(c.password))))
}

/// The body of a CONNECT written for a protocol version.
pub open spec fn connect_body(c: ConnectView, ver: ProtocolVersion) -> Seq<u8> {
    connect_head(c, ver) + connect_rest(c, ver == ProtocolVersion::V500)
}

fn connect_flags_of(p: &Connect) -> (r: u8)
    ensures
        r == connect_flags(p@),
{
    let mut flags: u8 = 0;
    if p.clean_start {
        flags = flags + 2;
    }
    match &p.will {
        Some(w) => {
            flags = flags + 4 + w.qos.as_u8() * 8;
            if w.retain {
                flags = flags + 32;
            }
        },
        None => {},
    }
    if p.password.is_some() {
        flags = flags + 64;
    }
    if p.username.is_some() {
        flags = flags + 128;
    }
    flags
}

fn put_will(body: &mut Vec<u8>, will: &Option<Will>, v5: bool)
    ensures
        final(body)@ == old(body)@ + will_bytes(opt_will(*will), v5),
{
    match will {
        Some(w) => {
            enc_opt_props(body, &w.properties, v5);
            put_utf8_string(body, w.topic.as_str());
            put_binary_data(body, w.payload.as_slice());
        },
        None => {},
    }
    assert(body@ =~= old(body)@ + will_bytes(opt_will(*will), v5));
}

fn put_credentials(body: &mut Vec<u8>, username: &Option<String>, password: &Option<Vec<u8>>)
    ensures
        final(body)@ == old(body)@ + opt_string_bytes(opt_str(*username)) + opt_binary_bytes(
            opt_bin(*password),
        ),
{
    match username {
        Some(u) => put_utf8_string(body, u.as_str()),
        None => {},
    }
    let ghost mid = body@;
    assert(mid =~= old(body)@ + opt_string_bytes(opt_str(*username)));
    match password {
        Some(pw) => put_binary_data(body, pw.as_slice()),
        None => {},
    }
    assert(body@ =~= mid + opt_binary_bytes(opt_bin(*password)));
}

/// Encode a CONNECT body.
#[verifier::rlimit(40)]
pub(crate) fn encode_connect(p: &Connect, ver: ProtocolVersion) -> (r: Vec<u8>)
    ensures
        r@ == connect_body(p@, ver),
{
    let v5 = ver.is_v5();
    let mut body: Vec<u8> = Vec::new();
    let name: Vec<u8> = vec![0x4Du8, 0x51u8, 0x54u8, 0x54u8];
    assert(name@ =~= mqtt_name());
    put_binary_data(&mut body, name.as_slice());
    let flags = connect_flags_of(p);
    body.push(ver.as_u8());
    body.push(flags);
    put_u16(&mut body, p.keep_alive);
    let ghost head = body@;
    assert(head =~= connect_head(p@, ver));
    enc_opt_props(&mut body, &p.properties, v5);
    put_utf8_string(&mut body, p.client_id.as_str());
    put_will(&mut body, &p.will, v5);
    put_credentials(&mut body, &p.username, &p.password);
    assert(body@ =~= head + connect_rest(p@, v5));
    body
}

// ── CONNACK ──────────────────────────────────────────────────────────────────

/// Decoding a CONNACK body: acknowledge flags, reason code, and in MQTT 5.0
/// a Properties section when bytes are left.
pub open spec fn spec_decode_connack(b: Seq<u8>, v5: bool) -> Result<ConnAckView, Fail> {
    if b.len() < 2 {
        Err(Fail::Truncated)
    } else if v5 && b.len() > 2 {
        match spec_decode_props(b.skip(2)) {
            Err(f) => Err(f),
            Ok((p, _)) => Ok(
                ConnAckView {
                    session_present: b[0] % 2 == 1,
                    reason_code: connect_reason_from_code(b[1]),
                    properties: Some(p),
                },
            ),
        }
    } else {
        Ok(
            ConnAckView {
                session_present: b[0] % 2 == 1,
                reason_code: connect_reason_from_code(b[1]),
                properties: None,
            },
        )
    }
}

/// The body of a CONNACK written for a protocol version.
pub open spec fn connack_body(a: ConnAckView, ver: ProtocolVersion) -> Seq<u8> {
    seq![
        if a.session_present {
            1u8
        } else {
            0u8
        },
        connect_reason_code(a.reason_code),
    ] + opt_props_bytes(a.properties, ver == ProtocolVersion::V500)
}

/// Decode a CONNACK body.
pub(crate) fn decode_connack(b: &[u8], v5: bool) -> (r: Result<ConnAck, DecodeFailure>)
    ensures
        match spec_decode_connack(b@, v5) {
            Ok(a) => r matches Ok(x) && x@ == a,
            Err(f) => r matches Err(e) && e@ == f,
        },
{
    if b.len() < 2 {
        return Err(DecodeFailure::Truncated);
    }
    let session_present = b[0] % 2 == 1;
    let reason_code = ConnectReason::from_u8(b[1]);
    let properties = if v5 && b.len() > 2 {
        let (p, _n) = dec_props(b, 2)?;
        Some(p)
    } else {
        None
    };
    Ok(ConnAck { session_present, reason_code, properties })
}

/// Encode a CONNACK body.
pub(crate) fn encode_connack(a: &ConnAck, ver: ProtocolVersion) -> (r: Vec<u8>)
    ensures
        r@ == connack_body(a@, ver),
{
    let mut body: Vec<u8> = Vec::new();
    body.push(if a.session_present { 1u8 } else { 0u8 });
    body.push(a.reason_code.as_u8());
    enc_opt_props(&mut body, &a.properties, ver.is_v5());
    assert(body@ =~= connack_body(a@, ver));
    body
}

/// Bytes below 0x80 are valid UTF-8 (each is one ASCII character).
proof fn lemma_ascii_valid(s: Seq<u8>)
    requires
        forall|i: int| 0 <= i < s.len() ==> s[i] < 0x80,
    ensures
        valid_utf8(s),
    decreases s.len(),
{
    if s.len() != 0 {
        let b = s[0];
        assert((b & 0x7F) as u32 == b as u32) by (bit_vector)
            requires
                b < 0x80,
        ;
        let t = s.subrange(1, s.len() as int);
        assert(pop_first_scalar(s) =~= t);
        lemma_ascii_valid(t);
    }
}

/// The protocol name is valid UTF-8.
proof fn lemma_mqtt_name_valid()
    ensures
        valid_utf8(mqtt_name()),
{
    lemma_ascii_valid(mqtt_name());
}

// ── Reading back what was written ───────────────────────────────────────────

/// A Will that is written faithfully for the version.
pub open spec fn will_wf(w: Option<WillView>, v5: bool) -> bool {
    match w {
        Some(w) => str_fits(w.topic) && w.payload.len() <= 65535 && props_match(w.properties, v5),
        None => true,
    }
}

/// A CONNECT that is written faithfully for the version: every string and
/// binary field fits its 16-bit length prefix, and the Properties sections
/// are present exactly in MQTT 5.0.
pub open spec fn connect_wf(c: ConnectView, ver: ProtocolVersion) -> bool {
    let v5 = ver == ProtocolVersion::V500;
    &&& str_fits(c.client_id)
    &&& props_match(c.properties, v5)
    &&& will_wf(c.will, v5)
    &&& opt_str_fits(c.username)
    &&& opt_bin_fits(c.password)
}

proof fn lemma_connect_flags_bits(c: ConnectView)
    ensures
        0 <= connect_flags(c) < 256,
        bit_at(connect_flags(c) as u8, 2) == c.clean_start,
        bit_at(connect_flags(c) as u8, 4) == c.will is Some,
        c.will matches Some(w) ==> bit_at(connect_flags(c) as u8, 32) == w.retain,
        bit_at(connect_flags(c) as u8, 64) == c.password is Some,
        bit_at(connect_flags(c) as u8, 128) == c.username is Some,
        will_qos_bits(connect_flags(c) as u8) == match c.will {
            Some(w) => qos_value(w.qos),
            None => 0u8,
        },
{
    let cs: int = if c.clean_start {
        1
    } else {
        0
    };
    let wf: int = if c.will is Some {
        1
    } else {
        0
    };
    let q: int = match c.will {
        Some(w) => qos_value(w.qos) as int,
        None => 0,
    };
    let wr: int = match c.will {
        Some(w) => if w.retain {
            1
        } else {
            0
        },
        None => 0,
    };
    let pw: int = if c.password is Some {
        1
    } else {
        0
    };
    let un: int = if c.username is Some {
        1
    } else {
        0
    };
    assert(connect_flags(c) == 2 * cs + 4 * wf + 8 * q + 32 * wr + 64 * pw + 128 * un);
    assert(0 <= q <= 2);
    let f = connect_flags(c);
    assert(f / 2 == cs + 2 * wf + 4 * q + 16 * wr + 32 * pw + 64 * un);
    assert(f / 4 == wf + 2 * q + 8 * wr + 16 * pw + 32 * un);
    assert(f / 8 == q + 4 * wr + 8 * pw + 16 * un);
    assert(f / 32 == wr + 2 * pw + 4 * un);
    assert(f / 64 == pw + 2 * un);
    assert(f / 128 == un);
}

#[verifier::spinoff_prover]
#[verifier::rlimit(40)]
proof fn lemma_will_roundtrip(
    b: Seq<u8>,
    p: int,
    w: Option<WillView>,
    v5: bool,
    flags: u8,
    wq: QoS,
    rest: Seq<u8>,
)
    requires
        0 <= p <= b.len(),
        b.skip(p) == will_bytes(w, v5) + rest,
        will_wf(w, v5),
        bit_at(flags, 4) == w is Some,
        w matches Some(x) ==> bit_at(flags, 32) == x.retain && wq == x.qos,
    ensures
        spec_will(b, p, v5, flags, wq) == Ok::<(Option<WillView>, int), Fail>(
            (w, p + will_bytes(w, v5).len()),
        ),
{
    reveal(spec_will);
    if let Some(x) = w {
        let pp = opt_props_bytes(x.properties, v5);
        let ts = string_bytes(x.topic);
        let pl = prefixed_bytes(x.payload);
        assert(b.skip(p) =~= pp + (ts + (pl + rest)));
        lemma_opt_props_roundtrip(x.properties, v5, ts + (pl + rest));
        lemma_skip_prefix(b, p, pp, ts + (pl + rest));
        let n1 = pp.len() as int;
        lemma_string_roundtrip(x.topic, pl + rest);
        lemma_skip_prefix(b, p + n1, ts, pl + rest);
        let n2 = ts.len() as int;
        lemma_prefixed_roundtrip(x.payload, rest);
        assert(will_bytes(w, v5).len() == n1 + n2 + pl.len());
    }
}

#[verifier::spinoff_prover]
proof fn lemma_credentials_roundtrip(
    b: Seq<u8>,
    p: int,
    user: Option<Seq<char>>,
    pass: Option<Seq<u8>>,
    flags: u8,
    rest: Seq<u8>,
)
    requires
        0 <= p <= b.len(),
        b.skip(p) == opt_string_bytes(user) + opt_binary_bytes(pass) + rest,
        opt_str_fits(user),
        opt_bin_fits(pass),
        bit_at(flags, 128) == user is Some,
        bit_at(flags, 64) == pass is Some,
    ensures
        spec_credentials(b, p, flags) == Ok::<(Option<Seq<char>>, Option<Seq<u8>>), Fail>(
            (user, pass),
        ),
{
    reveal(spec_credentials);
    let ub = opt_string_bytes(user);
    let pb = opt_binary_bytes(pass);
    assert(b.skip(p) =~= ub + (pb + rest));
    if let Some(u) = user {
        lemma_string_roundtrip(u, pb + rest);
    }
    lemma_skip_prefix(b, p, ub, pb + rest);
    if let Some(pw) = pass {
        lemma_prefixed_roundtrip(pw, rest);
    }
}

#[verifier::spinoff_prover]
proof fn lemma_connect_fields_roundtrip(c: ConnectView, ver: ProtocolVersion, b: Seq<u8>, wq: QoS)
    requires
        connect_wf(c, ver),
        b.len() >= 10,
        b.skip(10) == connect_rest(c, ver == ProtocolVersion::V500),
        bit_at(connect_flags(c) as u8, 4) == c.will is Some,
        c.will matches Some(w) ==> bit_at(connect_flags(c) as u8, 32) == w.retain && wq == w.qos,
        bit_at(connect_flags(c) as u8, 64) == c.password is Some,
        bit_at(connect_flags(c) as u8, 128) == c.username is Some,
        bit_at(connect_flags(c) as u8, 2) == c.clean_start,
    ensures
        spec_connect_fields(
            b,
            10,
            ver == ProtocolVersion::V500,
            connect_flags(c) as u8,
            c.keep_alive,
            wq,
        ) == Ok::<ConnectView, Fail>(c),
{
    reveal(spec_connect_fields);
    let v5 = ver == ProtocolVersion::V500;
    let f = connect_flags(c);
    let pp = opt_props_bytes(c.properties, v5);
    let cs = string_bytes(c.client_id);
    let wb = will_bytes(c.will, v5);
    let ub = opt_string_bytes(c.username);
    let pb = opt_binary_bytes(c.password);
    lemma_opt_props_roundtrip(c.properties, v5, cs + (wb + (ub + pb)));
    lemma_skip_prefix(b, 10, pp, cs + (wb + (ub + pb)));
    let n1 = pp.len() as int;
    lemma_string_roundtrip(c.client_id, wb + (ub + pb));
    lemma_skip_prefix(b, 10 + n1, cs, wb + (ub + pb));
    let n2 = cs.len() as int;
    lemma_will_roundtrip(b, 10 + n1 + n2, c.will, v5, f as u8, wq, ub + pb);
    let p3 = 10 + n1 + n2 + wb.len();
    lemma_skip_prefix(b, 10 + n1 + n2, wb, ub + pb);
    assert(ub + pb =~= ub + pb + Seq::<u8>::empty());
    lemma_credentials_roundtrip(b, p3, c.username, c.password, f as u8, Seq::empty());
}

/// Decoding the body of a well-formed CONNECT gives the CONNECT back.
#[verifier::spinoff_prover]
proof fn lemma_connect_head(c: ConnectView, ver: ProtocolVersion)
    ensures
        spec_read_prefixed(connect_body(c, ver)) == Ok::<(Seq<u8>, int), ErrorView>(
            (mqtt_name(), 6),
        ),
        connect_body(c, ver).len() >= 10,
        connect_body(c, ver)[6] == version_level(ver),
        connect_body(c, ver)[7] == connect_flags(c) as u8,
        be16(connect_body(c, ver), 8) == c.keep_alive,
        connect_body(c, ver).skip(10) == connect_rest(c, ver == ProtocolVersion::V500),
{
    let v5 = ver == ProtocolVersion::V500;
    let b = connect_body(c, ver);
    let f = connect_flags(c);
    let mk = seq![version_level(ver), f as u8] + u16_bytes(c.keep_alive);
    let rest = connect_rest(c, v5);
    assert(b =~= prefixed_bytes(mqtt_name()) + (mk + rest));
    lemma_prefixed_roundtrip(mqtt_name(), mk + rest);
    assert(b.skip(0) =~= b);
    lemma_skip_prefix(b, 0, prefixed_bytes(mqtt_name()), mk + rest);
    assert(b.skip(6) =~= seq![version_level(ver), f as u8] + (u16_bytes(c.keep_alive) + rest));
    assert(b[6] == version_level(ver));
    assert(b[7] == f as u8);
    assert(b[8] == (c.keep_alive / 256) as u8);
    assert(b[9] == (c.keep_alive % 256) as u8);
    lemma_skip_prefix(b, 6, mk, rest);
}

/// Decoding the body of a well-formed CONNECT gives the CONNECT back.
#[verifier::spinoff_prover]
pub proof fn lemma_connect_roundtrip(c: ConnectView, ver: ProtocolVersion)
    requires
        connect_wf(c, ver),
    ensures
        spec_decode_connect(connect_body(c, ver)) == Ok::<ConnectView, Fail>(c),
{
    let b = connect_body(c, ver);
    let f = connect_flags(c);
    lemma_connect_flags_bits(c);
    lemma_connect_head(c, ver);
    lemma_mqtt_name_valid();
    let wq = match c.will {
        Some(w) => w.qos,
        None => QoS::AtMostOnce,
    };
    if let Some(w) = c.will {
        lemma_qos_roundtrip(w.qos, 0);
    }
    assert(qos_from_value(will_qos_bits(f as u8)) == Some(wq));
    lemma_connect_fields_roundtrip(c, ver, b, wq);
}

/// A CONNACK that is written faithfully for the version: properties present
/// and well formed in MQTT 5.0, absent in 3.1.1.
pub open spec fn connack_wf(a: ConnAckView, ver: ProtocolVersion) -> bool {
    props_match(a.properties, ver == ProtocolVersion::V500)
}

/// Decoding the body of a well-formed CONNACK gives the CONNACK back.
pub proof fn lemma_connack_roundtrip(a: ConnAckView, ver: ProtocolVersion)
    requires
        connack_wf(a, ver),
    ensures
        spec_decode_connack(connack_body(a, ver), ver == ProtocolVersion::V500) == Ok::<
            ConnAckView,
            Fail,
        >(a),
{
    let v5 = ver == ProtocolVersion::V500;
    let b = connack_body(a, ver);
    lemma_connect_reason_roundtrip(a.reason_code);
    if v5 {
        let p = props_or_empty(a.properties);
        assert(b.skip(2) =~= props_bytes(p) + Seq::<u8>::empty());
        lemma_props_roundtrip(p, Seq::empty());
        assert(props_bytes(p).len() > 0);
    }
}

} // verus!
