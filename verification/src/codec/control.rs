//! DISCONNECT and AUTH bodies.

use crate::codec::fields::{dec_props, enc_opt_props, props_match, props_or_empty};
use crate::packet::auth::{
    auth_reason_code, auth_reason_from_code, lemma_auth_reason_roundtrip, Auth, AuthReason,
    AuthView,
};
use crate::packet::disconnect::{
    disconnect_reason_code, disconnect_reason_from_code, lemma_disconnect_reason_roundtrip,
    Disconnect, DisconnectReason, DisconnectView,
};
use crate::properties::{lemma_props_roundtrip, props_bytes, props_wf, spec_decode_props};
use crate::version::ProtocolVersion;
use crate::wire::{DecodeFailure, Fail};
use vstd::prelude::*;

verus! {

// ── DISCONNECT ───────────────────────────────────────────────────────────────

/// Decoding a DISCONNECT body.  In MQTT 5.0 a reason code and properties
/// may follow; otherwise (and always in 3.1.1) it is a normal disconnect.
pub open spec fn spec_decode_disconnect(b: Seq<u8>, v5: bool) -> Result<DisconnectView, Fail> {
    if v5 && b.len() > 0 {
        if b.len() > 1 {
            match spec_decode_props(b.skip(1)) {
                Err(f) => Err(f),
                Ok((p, _)) => Ok(
                    DisconnectView {
                        reason_code: disconnect_reason_from_code(b[0]),
                        properties: Some(p),
                    },
                ),
            }
        } else {
            Ok(DisconnectView { reason_code: disconnect_reason_from_code(b[0]), properties: None })
        }
    } else {
        Ok(DisconnectView { reason_code: DisconnectReason::NormalDisconnection, properties: None })
    }
}

/// Decode a DISCONNECT body.
pub(crate) fn decode_disconnect(b: &[u8], v5: bool) -> (r: Result<Disconnect, DecodeFailure>)
    ensures
        match spec_decode_disconnect(b@, v5) {
            Ok(d) => r matches Ok(x) && x@ == d,
            Err(f) => r matches Err(e) && e@ == f,
        },
{
    if v5 && b.len() > 0 {
        let reason_code = DisconnectReason::from_u8(b[0]);
        let properties = if b.len() > 1 {
            let (p, _n) = dec_props(b, 1)?;
            Some(p)
        } else {
            None
        };
        Ok(Disconnect { reason_code, properties })
    } else {
        Ok(Disconnect::normal())
    }
}

/// The body of a DISCONNECT written for a protocol version: reason code and
/// properties in MQTT 5.0, nothing in 3.1.1.
pub open spec fn disconnect_body(d: DisconnectView, ver: ProtocolVersion) -> Seq<u8> {
    if ver == ProtocolVersion::V500 {
        seq![disconnect_reason_code(d.reason_code)] + props_bytes(props_or_empty(d.properties))
    } else {
        Seq::empty()
    }
}

/// Encode a DISCONNECT body.
pub(crate) fn encode_disconnect(d: &Disconnect, ver: ProtocolVersion) -> (r: Vec<u8>)
    ensures
        r@ == disconnect_body(d@, ver),
{
    let mut body: Vec<u8> = Vec::new();
    if ver.is_v5() {
        body.push(d.reason_code.as_u8());
        enc_opt_props(&mut body, &d.properties, true);
    }
    assert(body@ =~= disconnect_body(d@, ver));
    body
}

/// A DISCONNECT that is written faithfully for the version: in MQTT 5.0
/// with well-formed properties; in 3.1.1, where nothing is written, a
/// normal disconnect without properties.
pub open spec fn disconnect_wf(d: DisconnectView, ver: ProtocolVersion) -> bool {
    &&& props_match(d.properties, ver == ProtocolVersion::V500)
    &&& ver == ProtocolVersion::V311 ==> d.reason_code == DisconnectReason::NormalDisconnection
}

/// Decoding the body of a well-formed DISCONNECT gives it back.
pub proof fn lemma_disconnect_roundtrip(d: DisconnectView, ver: ProtocolVersion)
    requires
        disconnect_wf(d, ver),
    ensures
        spec_decode_disconnect(disconnect_body(d, ver), ver == ProtocolVersion::V500) == Ok::<
            DisconnectView,
            Fail,
        >(d),
{
    if ver == ProtocolVersion::V500 {
        let b = disconnect_body(d, ver);
        let p = props_or_empty(d.properties);
        lemma_disconnect_reason_roundtrip(d.reason_code);
        assert(b.skip(1) =~= props_bytes(p) + Seq::<u8>::empty());
        lemma_props_roundtrip(p, Seq::empty());
        assert(props_bytes(p).len() > 0);
    }
}

// ── AUTH ─────────────────────────────────────────────────────────────────────

/// Decoding an AUTH body: a reason code (`Success` when the body is empty)
/// and properties when bytes are left for them.  The version plays no part.
pub open spec fn spec_decode_auth(b: Seq<u8>) -> Result<AuthView, Fail> {
    let rc = if b.len() > 0 {
        auth_reason_from_code(b[0])
    } else {
        AuthReason::Success
    };
    if b.len() > 1 {
        match spec_decode_props(b.skip(1)) {
            Err(f) => Err(f),
            Ok((p, _)) => Ok(AuthView { reason_code: rc, properties: Some(p) }),
        }
    } else {
        Ok(AuthView { reason_code: rc, properties: None })
    }
}

/// Decode an AUTH body.
pub(crate) fn decode_auth(b: &[u8]) -> (r: Result<Auth, DecodeFailure>)
    ensures
        match spec_decode_auth(b@) {
            Ok(a) => r matches Ok(x) && x@ == a,
            Err(f) => r matches Err(e) && e@ == f,
        },
{
    let reason_code = if b.len() > 0 {
        AuthReason::from_u8(b[0])
    } else {
        AuthReason::Success
    };
    let properties = if b.len() > 1 {
        let (p, _n) = dec_props(b, 1)?;
        Some(p)
    } else {
        None
    };
    Ok(Auth { reason_code, properties })
}

/// The body of an AUTH: reason code and properties, in either version.
pub open spec fn auth_body(a: AuthView) -> Seq<u8> {
    seq![auth_reason_code(a.reason_code)] + props_bytes(props_or_empty(a.properties))
}

/// Encode an AUTH body.
pub(crate) fn encode_auth(a: &Auth) -> (r: Vec<u8>)
    ensures
        r@ == auth_body(a@),
{
    let mut body: Vec<u8> = Vec::new();
    body.push(a.reason_code.as_u8());
    enc_opt_props(&mut body, &a.properties, true);
    assert(body@ =~= auth_body(a@));
    body
}

/// An AUTH that is written faithfully: its properties are present and well
/// formed (absent ones are written as an empty section, which reads back as
/// present).
pub open spec fn auth_wf(a: AuthView) -> bool {
    a.properties matches Some(p) && props_wf(p)
}

/// Decoding the body of a well-formed AUTH gives it back.
pub proof fn lemma_auth_roundtrip(a: AuthView)
    requires
        auth_wf(a),
    ensures
        spec_decode_auth(auth_body(a)) == Ok::<AuthView, Fail>(a),
{
    let b = auth_body(a);
    let p = props_or_empty(a.properties);
    lemma_auth_reason_roundtrip(a.reason_code);
    assert(b.skip(1) =~= props_bytes(p) + Seq::<u8>::empty());
    lemma_props_roundtrip(p, Seq::empty());
    assert(props_bytes(p).len() > 0);
}

} // verus!
