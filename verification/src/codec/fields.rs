//! Field readers and writers shared by the packet codecs: each reads one
//! field at a position inside a packet body, or appends one field.

use crate::packet::opt_props;
use crate::properties::{
    empty_props, lemma_props_roundtrip, props_bytes, props_wf, spec_decode_props, Properties,
    PropertiesView,
};
use crate::properties::decode_props;
use crate::wire::{
    read_binary_data, read_utf8_string, spec_read_prefixed, spec_read_string,
    DecodeFailure, Fail,
};
use vstd::prelude::*;
use vstd::utf8::*;

verus! {

/// Whether the bit of weight `w` (1, 2, 4, ... 128) is set in `x`.
pub open spec fn bit_at(x: u8, w: int) -> bool {
    (x as int / w) % 2 == 1
}

/// A Properties section that is present in MQTT 5.0 only: the properties
/// (or `None`) and the bytes taken.
pub open spec fn spec_opt_props(s: Seq<u8>, v5: bool) -> Result<
    (Option<PropertiesView>, int),
    Fail,
> {
    if v5 {
        match spec_decode_props(s) {
            Ok((p, n)) => Ok((Some(p), n)),
            Err(f) => Err(f),
        }
    } else {
        Ok((None, 0))
    }
}

/// The properties an encoder writes for optional properties: absent ones
/// are written as an empty section.
pub open spec fn props_or_empty(o: Option<PropertiesView>) -> PropertiesView {
    match o {
        Some(p) => p,
        None => empty_props(),
    }
}

/// The Properties section of optional properties, written in MQTT 5.0 only.
pub open spec fn opt_props_bytes(o: Option<PropertiesView>, v5: bool) -> Seq<u8> {
    if v5 {
        props_bytes(props_or_empty(o))
    } else {
        Seq::empty()
    }
}

/// Read a UTF-8 string field that starts at `pos`.
pub(crate) fn dec_string(b: &[u8], pos: usize) -> (r: Result<(String, usize), DecodeFailure>)
    requires
        pos <= b@.len(),
    ensures
        match spec_read_string(b@.skip(pos as int)) {
            Ok((c, n)) => r matches Ok((s, m)) && s@ == c && m == n && pos + m <= b.len(),
            Err(e) => r matches Err(DecodeFailure::Invalid(x)) && x@ == e,
        },
{
    let rest = &b[pos..b.len()];
    assert(rest@ =~= b@.skip(pos as int));
    match read_utf8_string(rest) {
        Ok(x) => Ok(x),
        Err(e) => Err(DecodeFailure::Invalid(e)),
    }
}

/// Read a binary data field that starts at `pos`.
pub(crate) fn dec_binary(b: &[u8], pos: usize) -> (r: Result<(Vec<u8>, usize), DecodeFailure>)
    requires
        pos <= b@.len(),
    ensures
        match spec_read_prefixed(b@.skip(pos as int)) {
            Ok((d, n)) => r matches Ok((v, m)) && v@ == d && m == n && pos + m <= b.len(),
            Err(e) => r matches Err(DecodeFailure::Invalid(x)) && x@ == e,
        },
{
    let rest = &b[pos..b.len()];
    assert(rest@ =~= b@.skip(pos as int));
    match read_binary_data(rest) {
        Ok(x) => Ok(x),
        Err(e) => Err(DecodeFailure::Invalid(e)),
    }
}

/// Read a Properties section that starts at `pos`.
pub(crate) fn dec_props(b: &[u8], pos: usize) -> (r: Result<(Properties, usize), DecodeFailure>)
    requires
        pos <= b@.len(),
    ensures
        match spec_decode_props(b@.skip(pos as int)) {
            Ok((p, n)) => r matches Ok((q, m)) && q@ == p && m == n && pos + m <= b.len(),
            Err(f) => r matches Err(e) && e@ == f,
        },
{
    let rest = &b[pos..b.len()];
    assert(rest@ =~= b@.skip(pos as int));
    decode_props(rest)
}

/// Read a Properties section at `pos` in MQTT 5.0; nothing in 3.1.1.
pub(crate) fn dec_opt_props(b: &[u8], pos: usize, v5: bool) -> (r: Result<
    (Option<Properties>, usize),
    DecodeFailure,
>)
    requires
        pos <= b@.len(),
    ensures
        match spec_opt_props(b@.skip(pos as int), v5) {
            Ok((p, n)) => r matches Ok((q, m)) && opt_props(q) == p && m == n && pos + m
                <= b.len(),
            Err(f) => r matches Err(e) && e@ == f,
        },
{
    if v5 {
        let (p, n) = dec_props(b, pos)?;
        Ok((Some(p), n))
    } else {
        Ok((None, 0))
    }
}

/// Append the Properties section of optional properties in MQTT 5.0 (an
/// empty section when they are absent); nothing in 3.1.1.
pub(crate) fn enc_opt_props(dst: &mut Vec<u8>, o: &Option<Properties>, v5: bool)
    ensures
        final(dst)@ == old(dst)@ + opt_props_bytes(opt_props(*o), v5),
{
    if v5 {
        match o {
            Some(p) => p.encode_into(dst),
            None => {
                let e = Properties::new();
                e.encode_into(dst);
            },
        }
    } else {
        assert(dst@ =~= old(dst)@ + opt_props_bytes(opt_props(*o), v5));
    }
}

// ── Reading back what was written ───────────────────────────────────────────

/// Optional properties that fit the version: present and well formed in
/// MQTT 5.0, absent in 3.1.1.
pub open spec fn props_match(o: Option<PropertiesView>, v5: bool) -> bool {
    if v5 {
        o matches Some(p) && props_wf(p)
    } else {
        o is None
    }
}

/// A string whose UTF-8 encoding fits a 16-bit length prefix.
pub open spec fn str_fits(c: Seq<char>) -> bool {
    encode_utf8(c).len() <= 65535
}

/// Reading back a Properties section written for the version gives the
/// properties back.
pub proof fn lemma_opt_props_roundtrip(o: Option<PropertiesView>, v5: bool, rest: Seq<u8>)
    requires
        props_match(o, v5),
    ensures
        spec_opt_props(opt_props_bytes(o, v5) + rest, v5) == Ok::<
            (Option<PropertiesView>, int),
            Fail,
        >((o, opt_props_bytes(o, v5).len() as int)),
{
    if v5 {
        lemma_props_roundtrip(props_or_empty(o), rest);
    } else {
        assert(opt_props_bytes(o, v5) + rest =~= rest);
    }
}

/// Skipping what a position is followed by: when the bytes from `p` on are
/// `x` then `y`, the bytes from `p + |x|` on are `y`.
#[verifier::spinoff_prover]
pub proof fn lemma_skip_prefix(b: Seq<u8>, p: int, x: Seq<u8>, y: Seq<u8>)
    requires
        0 <= p <= b.len(),
        b.skip(p) == x + y,
    ensures
        p + x.len() <= b.len(),
        b.skip(p + x.len()) == y,
{
    let s = b.skip(p);
    assert(s.len() == b.len() - p);
    assert(s.len() == x.len() + y.len());
    let t = b.skip(p + x.len());
    assert forall|i: int| 0 <= i < y.len() implies t[i] == y[i] by {
        assert(t[i] == b[p + x.len() + i]);
        assert(s[x.len() + i] == b[p + x.len() + i]);
        assert((x + y)[x.len() + i] == y[i]);
    }
    assert(t =~= y);
}

} // verus!
