//! Wire-level building blocks shared by the codec: big-endian integers,
//! variable byte integers, length-prefixed strings and binary data.

use crate::buffer::{buffer_bytes, buffer_extend};
use crate::error::{Error, ErrorView};
use bytes::BytesMut;
use vstd::prelude::*;
use vstd::utf8::*;
use vstd::string::*;

verus! {

/// Why decoding stopped short of a value.
pub enum Fail {
    /// The input was rejected with this error.
    Rejected(ErrorView),
    /// A fixed-width field runs past the end of the data it is read from:
    /// a whole frame with such a body is malformed, a properties section
    /// is incomplete.
    Truncated,
}

/// The executable counterpart of [`Fail`].
pub enum DecodeFailure {
    /// The input was rejected with this error.
    Invalid(Error),
    /// A fixed-width field runs past the end of the data it is read from.
    Truncated,
}

impl View for DecodeFailure {
    type V = Fail;

    open spec fn view(&self) -> Fail {
        match self {
            DecodeFailure::Invalid(e) => Fail::Rejected(e@),
            DecodeFailure::Truncated => Fail::Truncated,
        }
    }
}

/// The view of a decoding result: the value's view and the number of bytes
/// consumed, or the failure.
pub open spec fn result_view<T, V>(
    r: Result<(T, usize), DecodeFailure>,
    f: spec_fn(T) -> V,
) -> Result<(V, int), Fail> {
    match r {
        Ok((t, n)) => Ok((f(t), n as int)),
        Err(e) => Err(e@),
    }
}

// ── Big-endian integers ──────────────────────────────────────────────────────

/// The big-endian 16-bit number at position `i`.
pub open spec fn be16(s: Seq<u8>, i: int) -> int {
    s[i] * 256 + s[i + 1]
}

/// The big-endian 32-bit number at position `i`.
pub open spec fn be32(s: Seq<u8>, i: int) -> int {
    s[i] * 16777216 + s[i + 1] * 65536 + s[i + 2] * 256 + s[i + 3]
}

/// The two big-endian bytes of a 16-bit number.
pub open spec fn u16_bytes(x: u16) -> Seq<u8> {
    seq![(x / 256) as u8, (x % 256) as u8]
}

/// The four big-endian bytes of a 32-bit number.
pub open spec fn u32_bytes(x: u32) -> Seq<u8> {
    seq![(x / 16777216) as u8, ((x / 65536) % 256) as u8, ((x / 256) % 256) as u8, (x % 256) as u8]
}

/// Reading back the bytes of a 16-bit number gives the number.
pub proof fn lemma_u16_roundtrip(x: u16, rest: Seq<u8>)
    ensures
        be16(u16_bytes(x) + rest, 0) == x,
        (u16_bytes(x) + rest).len() == rest.len() + 2,
{
    let s = u16_bytes(x) + rest;
    assert(s[0] == (x / 256) as u8);
    assert(s[1] == (x % 256) as u8);
}

/// Reading back the bytes of a 32-bit number gives the number.
pub proof fn lemma_u32_roundtrip(x: u32, rest: Seq<u8>)
    ensures
        be32(u32_bytes(x) + rest, 0) == x,
        (u32_bytes(x) + rest).len() == rest.len() + 4,
{
    let s = u32_bytes(x) + rest;
    assert(s[0] == (x / 16777216) as u8);
    assert(s[1] == ((x / 65536) % 256) as u8);
    assert(s[2] == ((x / 256) % 256) as u8);
    assert(s[3] == (x % 256) as u8);
}

/// Read a big-endian 16-bit number.
pub fn get_u16(s: &[u8], i: usize) -> (r: u16)
    requires
        i + 2 <= s@.len(),
    ensures
        r == be16(s@, i as int),
{
    (s[i] as u16) * 256 + (s[i + 1] as u16)
}

/// Read a big-endian 32-bit number.
pub fn get_u32(s: &[u8], i: usize) -> (r: u32)
    requires
        i + 4 <= s@.len(),
    ensures
        r == be32(s@, i as int),
{
    (s[i] as u32) * 16777216 + (s[i + 1] as u32) * 65536 + (s[i + 2] as u32) * 256 + (s[i
        + 3] as u32)
}

/// Append the big-endian bytes of a 16-bit number.
pub fn put_u16(dst: &mut Vec<u8>, x: u16)
    ensures
        final(dst)@ == old(dst)@ + u16_bytes(x),
{
    dst.push((x / 256) as u8);
    dst.push((x % 256) as u8);
    assert(dst@ =~= old(dst)@ + u16_bytes(x));
}

/// Append the big-endian bytes of a 32-bit number.
pub fn put_u32(dst: &mut Vec<u8>, x: u32)
    ensures
        final(dst)@ == old(dst)@ + u32_bytes(x),
{
    dst.push((x / 16777216) as u8);
    dst.push(((x / 65536) % 256) as u8);
    dst.push(((x / 256) % 256) as u8);
    dst.push((x % 256) as u8);
    assert(dst@ =~= old(dst)@ + u32_bytes(x));
}

/// Append a byte string.
pub fn append_bytes(dst: &mut Vec<u8>, src: &[u8])
    ensures
        final(dst)@ == old(dst)@ + src@,
{
    let mut i: usize = 0;
    while i < src.len()
        invariant
            i <= src@.len(),
            dst@ == old(dst)@ + src@.take(i as int),
        decreases src@.len() - i,
    {
        dst.push(src[i]);
        i = i + 1;
        assert(dst@ =~= old(dst)@ + src@.take(i as int));
    }
    assert(src@.take(src@.len() as int) =~= src@);
}

// ── Variable byte integers ───────────────────────────────────────────────────

/// Decoding a variable byte integer from position `i` on, with `acc` the
/// value of the bytes before `i` and `mult` the weight of byte `i`.  Each
/// byte carries seven bits, least significant group first; a set top bit
/// means another byte follows; a fifth byte is never read.
pub open spec fn varint_from(s: Seq<u8>, i: nat, acc: nat, mult: nat) -> Result<
    (nat, int),
    ErrorView,
>
    decreases 3 - i,
{
    if i >= s.len() {
        Err(ErrorView::Incomplete)
    } else if s[i as int] < 128 {
        Ok(((acc + s[i as int] * mult) as nat, i + 1int))
    } else if i >= 3 {
        Err(ErrorView::MalformedRemainingLength)
    } else {
        varint_from(s, i + 1, (acc + (s[i as int] - 128) * mult) as nat, mult * 128)
    }
}

/// Decoding a variable byte integer: its value and the bytes it takes.
pub open spec fn spec_read_varint(s: Seq<u8>) -> Result<(nat, int), ErrorView> {
    varint_from(s, 0, 0, 1)
}

/// The bytes of a variable byte integer.
pub open spec fn varint_bytes(v: nat) -> Seq<u8>
    decreases v,
{
    if v < 128 {
        seq![v as u8]
    } else {
        seq![(v % 128 + 128) as u8] + varint_bytes(v / 128)
    }
}

/// The largest value a variable byte integer can hold.
pub const MAX_VARINT: usize = 268_435_455;

/// Read a variable byte integer (one to four bytes): its value and the
/// number of bytes it takes.
pub fn read_variable_length(src: &[u8]) -> (r: Result<(usize, usize), Error>)
    ensures
        match spec_read_varint(src@) {
            Ok((v, n)) => r matches Ok((x, m)) && x == v && m == n,
            Err(e) => r matches Err(x) && x@ == e,
        },
        r matches Ok((x, m)) ==> x <= MAX_VARINT && 1 <= m <= 4 && m <= src@.len(),
{
    let mut result: usize = 0;
    let mut mult: usize = 1;
    let mut i: usize = 0;
    loop
        invariant
            i <= 3,
            mult == if i == 0 {
                1usize
            } else if i == 1 {
                128
            } else if i == 2 {
                16384
            } else {
                2097152
            },
            result < mult,
            spec_read_varint(src@) == varint_from(src@, i as nat, result as nat, mult as nat),
        decreases 3 - i,
    {
        if i >= src.len() {
            return Err(Error::Incomplete);
        }
        let byte = src[i];
        if byte < 128 {
            return Ok((result + (byte as usize) * mult, i + 1));
        }
        if i >= 3 {
            return Err(Error::MalformedRemainingLength);
        }
        result = result + ((byte - 128) as usize) * mult;
        mult = mult * 128;
        i = i + 1;
    }
}

/// Append the variable byte integer encoding of a value.
pub fn put_variable_length(dst: &mut Vec<u8>, value: usize)
    ensures
        final(dst)@ == old(dst)@ + varint_bytes(value as nat),
{
    let mut rem = value;
    loop
        invariant
            dst@ + varint_bytes(rem as nat) == old(dst)@ + varint_bytes(value as nat),
        decreases rem,
    {
        let byte = (rem % 128) as u8;
        let ghost before = dst@;
        let ghost v = rem as nat;
        rem = rem / 128;
        if rem > 0 {
            dst.push(byte + 128);
            assert(varint_bytes(v) == seq![(v % 128 + 128) as u8] + varint_bytes(v / 128));
            assert(dst@ + varint_bytes(rem as nat) =~= before + varint_bytes(v));
        } else {
            dst.push(byte);
            assert(varint_bytes(v) == seq![v as u8]);
            assert(dst@ =~= before + varint_bytes(v));
            return;
        }
    }
}

/// Number of bytes a variable byte integer encoding occupies (values above
/// the four-byte range are counted as four).
pub fn variable_length_size(value: usize) -> (r: usize)
    ensures
        r == varint_size(value as nat),
{
    if value <= 127 {
        1
    } else if value <= 16_383 {
        2
    } else if value <= 2_097_151 {
        3
    } else {
        4
    }
}

/// The size [`variable_length_size`] reports.
pub open spec fn varint_size(v: nat) -> nat {
    if v <= 127 {
        1
    } else if v <= 16383 {
        2
    } else if v <= 2097151 {
        3
    } else {
        4
    }
}

/// A value within the four-byte range is encoded in exactly the number of
/// bytes [`variable_length_size`] reports, and reading the encoding back
/// (followed by anything) gives the value and that length.
pub proof fn lemma_varint_roundtrip(v: nat, rest: Seq<u8>)
    requires
        v <= MAX_VARINT,
    ensures
        varint_bytes(v).len() == varint_size(v),
        spec_read_varint(varint_bytes(v) + rest) == Ok::<(nat, int), ErrorView>(
            (v, varint_size(v) as int),
        ),
{
    reveal_with_fuel(varint_bytes, 4);
    reveal_with_fuel(varint_from, 4);
    let s = varint_bytes(v) + rest;
    if v < 128 {
        assert(s[0] == v);
    } else if v < 16384 {
        assert(varint_bytes(v / 128) == seq![(v / 128) as u8]);
        assert(s[0] == v % 128 + 128);
        assert(s[1] == v / 128);
    } else if v < 2097152 {
        assert(varint_bytes(v / 128 / 128) == seq![(v / 128 / 128) as u8]);
        assert(s[0] == v % 128 + 128);
        assert(s[1] == (v / 128) % 128 + 128);
        assert(s[2] == v / 128 / 128);
    } else {
        assert(varint_bytes(v / 128 / 128 / 128) == seq![(v / 128 / 128 / 128) as u8]);
        assert(s[0] == v % 128 + 128);
        assert(s[1] == (v / 128) % 128 + 128);
        assert(s[2] == (v / 128 / 128) % 128 + 128);
        assert(s[3] == v / 128 / 128 / 128);
    }
}

// ── Strings and binary data ──────────────────────────────────────────────────

/// A length-prefixed field: two big-endian length bytes, then that many
/// bytes.  The payload and the number of bytes taken, or `Incomplete`.
pub open spec fn spec_read_prefixed(s: Seq<u8>) -> Result<(Seq<u8>, int), ErrorView> {
    if s.len() < 2 {
        Err(ErrorView::Incomplete)
    } else if s.len() - 2 < be16(s, 0) {
        Err(ErrorView::Incomplete)
    } else {
        Ok((s.subrange(2, 2 + be16(s, 0)), 2 + be16(s, 0)))
    }
}

/// A UTF-8 string field: a length-prefixed field whose bytes must be valid
/// UTF-8.
pub open spec fn spec_read_string(s: Seq<u8>) -> Result<(Seq<char>, int), ErrorView> {
    match spec_read_prefixed(s) {
        Ok((b, n)) => if valid_utf8(b) {
            Ok((decode_utf8(b), n))
        } else {
            Err(ErrorView::InvalidUtf8)
        },
        Err(e) => Err(e),
    }
}

/// The bytes of a length-prefixed field.  The length is written as a 16-bit
/// number, so a field of more than 65535 bytes gets a wrapped length.
pub open spec fn prefixed_bytes(b: Seq<u8>) -> Seq<u8> {
    u16_bytes(b.len() as u16) + b
}

/// The bytes of a UTF-8 string field.
pub open spec fn string_bytes(c: Seq<char>) -> Seq<u8> {
    prefixed_bytes(encode_utf8(c))
}

/// Reading back a length-prefixed field of at most 65535 bytes gives it back.
pub proof fn lemma_prefixed_roundtrip(b: Seq<u8>, rest: Seq<u8>)
    requires
        b.len() <= 65535,
    ensures
        spec_read_prefixed(prefixed_bytes(b) + rest) == Ok::<(Seq<u8>, int), ErrorView>(
            (b, b.len() + 2int),
        ),
{
    let s = prefixed_bytes(b) + rest;
    lemma_u16_roundtrip(b.len() as u16, b + rest);
    assert(s =~= u16_bytes(b.len() as u16) + (b + rest));
    assert(s.subrange(2, 2 + b.len() as int) =~= b);
}

/// Reading back a string field of at most 65535 bytes gives the string back.
pub proof fn lemma_string_roundtrip(c: Seq<char>, rest: Seq<u8>)
    requires
        encode_utf8(c).len() <= 65535,
    ensures
        spec_read_string(string_bytes(c) + rest) == Ok::<(Seq<char>, int), ErrorView>(
            (c, encode_utf8(c).len() + 2int),
        ),
{
    lemma_prefixed_roundtrip(encode_utf8(c), rest);
    encode_utf8_valid_utf8(c);
    encode_utf8_decode_utf8(c);
}

/// `String::from_utf8`: the bytes become a `String` exactly when they are
/// valid UTF-8, and then the string's UTF-8 encoding is those bytes.
#[verifier::external_body]
pub(crate) fn string_from_utf8(bytes: Vec<u8>) -> (r: Option<String>)
    ensures
        r is Some <==> valid_utf8(bytes@),
        r matches Some(s) ==> encode_utf8(s@) == bytes@,
{
    String::from_utf8(bytes).ok()
}

/// Read a length-prefixed field: its bytes and the number of bytes taken.
pub fn read_binary_data(src: &[u8]) -> (r: Result<(Vec<u8>, usize), Error>)
    ensures
        match spec_read_prefixed(src@) {
            Ok((b, n)) => r matches Ok((v, m)) && v@ == b && m == n,
            Err(e) => r matches Err(x) && x@ == e,
        },
{
    if src.len() < 2 {
        return Err(Error::Incomplete);
    }
    let len = get_u16(src, 0) as usize;
    if src.len() - 2 < len {
        return Err(Error::Incomplete);
    }
    let mut out: Vec<u8> = Vec::new();
    append_bytes(&mut out, &src[2..2 + len]);
    assert(out@ =~= src@.subrange(2, 2 + len));
    Ok((out, 2 + len))
}

/// Read a UTF-8 string field: the string and the number of bytes taken.
pub fn read_utf8_string(src: &[u8]) -> (r: Result<(String, usize), Error>)
    ensures
        match spec_read_string(src@) {
            Ok((c, n)) => r matches Ok((s, m)) && s@ == c && m == n,
            Err(e) => r matches Err(x) && x@ == e,
        },
{
    let (bytes, n) = read_binary_data(src)?;
    let ghost b = bytes@;
    match string_from_utf8(bytes) {
        Some(s) => {
            proof {
                encode_utf8_decode_utf8(s@);
            }
            Ok((s, n))
        },
        None => Err(Error::InvalidUtf8),
    }
}

/// Append a UTF-8 string field (2-byte big-endian length, then the bytes).
pub fn put_utf8_string(dst: &mut Vec<u8>, s: &str)
    ensures
        final(dst)@ == old(dst)@ + string_bytes(s@),
{
    let b = s.as_bytes();
    put_u16(dst, b.len() as u16);
    append_bytes(dst, b);
    assert(dst@ =~= old(dst)@ + string_bytes(s@));
}

/// Append a length-prefixed binary field (2-byte big-endian length, then the
/// bytes).
pub fn put_binary_data(dst: &mut Vec<u8>, data: &[u8])
    ensures
        final(dst)@ == old(dst)@ + prefixed_bytes(data@),
{
    put_u16(dst, data.len() as u16);
    append_bytes(dst, data);
    assert(dst@ =~= old(dst)@ + prefixed_bytes(data@));
}

/// Write the variable byte integer encoding of a value to a buffer.
pub fn write_variable_length(dst: &mut BytesMut, value: usize)
    requires
        buffer_bytes(*old(dst)).len() + varint_bytes(value as nat).len() <= isize::MAX,
    ensures
        buffer_bytes(*final(dst)) == buffer_bytes(*old(dst)) + varint_bytes(value as nat),
{
    let mut v: Vec<u8> = Vec::new();
    put_variable_length(&mut v, value);
    buffer_extend(dst, v.as_slice());
}

/// Write a UTF-8 string field (2-byte big-endian length, then the bytes)
/// to a buffer.
pub fn write_utf8_string(dst: &mut BytesMut, s: &str)
    requires
        buffer_bytes(*old(dst)).len() + string_bytes(s@).len() <= isize::MAX,
    ensures
        buffer_bytes(*final(dst)) == buffer_bytes(*old(dst)) + string_bytes(s@),
{
    let mut v: Vec<u8> = Vec::new();
    put_utf8_string(&mut v, s);
    buffer_extend(dst, v.as_slice());
}

/// Write a length-prefixed binary field (2-byte big-endian length, then the
/// bytes) to a buffer.
pub fn write_binary_data(dst: &mut BytesMut, data: &[u8])
    requires
        buffer_bytes(*old(dst)).len() + prefixed_bytes(data@).len() <= isize::MAX,
    ensures
        buffer_bytes(*final(dst)) == buffer_bytes(*old(dst)) + prefixed_bytes(data@),
{
    let mut v: Vec<u8> = Vec::new();
    put_binary_data(&mut v, data);
    buffer_extend(dst, v.as_slice());
}

} // verus!
