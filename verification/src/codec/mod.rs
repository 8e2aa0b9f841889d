//! The MQTT frame codec: decoding and encoding of all control packets.
//!
//! The codec works on byte buffers only: the I/O layer calls [`decode`]
//! whenever bytes arrive and [`encode`] to queue a packet for sending.  The
//! first packet of a connection is decoded without a version (CONNECT
//! carries its own); later ones with the version CONNECT negotiated.

pub mod connect;
pub mod control;
pub mod fields;
pub mod frame;
pub mod publish;
pub mod subscribe;

use crate::buffer::{buffer_advance, buffer_bytes, buffer_extend, buffer_reserve, buffer_slice};
use crate::error::Error;
use crate::packet::ControlPacket;
use crate::version::ProtocolVersion;
use crate::wire::{DecodeFailure, Fail};
use bytes::BytesMut;
use frame::{decode_frame, encode_packet, spec_decode_frame, spec_encode, Frame, FrameOutcome};
use vstd::prelude::*;

verus! {

/// Try to decode one packet from the front of `src`.
///
/// Returns `Ok(None)` while the buffer does not yet hold a whole frame
/// (nothing is consumed; room is reserved when the frame length is known).
/// A rejected fixed header consumes nothing; a whole frame is consumed
/// whether its body decodes or is rejected.  A whole frame whose fields run
/// past the end of its body is malformed.
pub fn decode(src: &mut BytesMut, version: Option<ProtocolVersion>) -> (r: Result<
    Option<ControlPacket>,
    Error,
>)
    ensures
        match spec_decode_frame(buffer_bytes(*old(src)), version) {
            Frame::NeedMore => r matches Ok(None) && buffer_bytes(*final(src)) == buffer_bytes(
                *old(src),
            ),
            Frame::Invalid(e) => r matches Err(x) && x@ == e && buffer_bytes(*final(src))
                == buffer_bytes(*old(src)),
            Frame::Complete(n, Ok(p)) => r matches Ok(Some(q)) && q@ == p && buffer_bytes(
                *final(src),
            ) == buffer_bytes(*old(src)).skip(n),
            Frame::Complete(n, Err(Fail::Rejected(e))) => r matches Err(x) && x@ == e
                && buffer_bytes(*final(src)) == buffer_bytes(*old(src)).skip(n),
            Frame::Complete(n, Err(Fail::Truncated)) => r matches Err(Error::MalformedPayload(_))
                && buffer_bytes(*final(src)) == buffer_bytes(*old(src)).skip(n),
        },
{
    let outcome = decode_frame(buffer_slice(src), version);
    match outcome {
        FrameOutcome::NeedMore(k) => {
            if k > 0 {
                buffer_reserve(src, k);
            }
            Ok(None)
        },
        FrameOutcome::Invalid(e) => Err(e),
        FrameOutcome::Complete(n, res) => {
            buffer_advance(src, n);
            match res {
                Ok(p) => Ok(Some(p)),
                Err(DecodeFailure::Invalid(e)) => Err(e),
                Err(DecodeFailure::Truncated) => Err(
                    Error::MalformedPayload("a field runs past the end of the packet".to_owned()),
                ),
            }
        },
    }
}

/// Encode a packet for a protocol version and append its frame to `dst`.
pub fn encode(packet: &ControlPacket, version: ProtocolVersion, dst: &mut BytesMut)
    requires
        buffer_bytes(*old(dst)).len() + spec_encode(packet@, version).len() <= isize::MAX,
    ensures
        buffer_bytes(*final(dst)) == buffer_bytes(*old(dst)) + spec_encode(packet@, version),
{
    let bytes = encode_packet(packet, version);
    buffer_extend(dst, bytes.as_slice());
}

} // verus!
