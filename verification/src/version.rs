//! The MQTT protocol version.

use crate::error::Error;
use vstd::prelude::*;

verus! {

/// The MQTT protocol version negotiated during the CONNECT handshake.
#[derive(Debug, Clone, Copy, PartialEq, Eq, Structural, Hash)]
pub enum ProtocolVersion {
    /// MQTT 3.1.1: protocol level byte 4.
    V311,
    /// MQTT 5.0: protocol level byte 5.
    V500,
}

/// The protocol level byte of a version.
pub open spec fn version_level(v: ProtocolVersion) -> u8 {
    match v {
        ProtocolVersion::V311 => 4,
        ProtocolVersion::V500 => 5,
    }
}

impl ProtocolVersion {
    /// Decode from the protocol level byte in the CONNECT packet.
    pub fn from_u8(level: u8) -> (r: Result<Self, Error>)
        ensures
            level == 4 ==> r == Ok::<ProtocolVersion, Error>(ProtocolVersion::V311),
            level == 5 ==> r == Ok::<ProtocolVersion, Error>(ProtocolVersion::V500),
            level != 4 && level != 5 ==> (r matches Err(Error::UnsupportedProtocolVersion(x))
                && x == level),
    {
        match level {
            4 => Ok(ProtocolVersion::V311),
            5 => Ok(ProtocolVersion::V500),
            v => Err(Error::UnsupportedProtocolVersion(v)),
        }
    }

    /// Encode back to the wire byte.
    pub fn as_u8(self) -> (r: u8)
        ensures
            r == version_level(self),
    {
        match self {
            ProtocolVersion::V311 => 4,
            ProtocolVersion::V500 => 5,
        }
    }

    /// True for MQTT 5.0.
    pub fn is_v5(self) -> (r: bool)
        ensures
            r == (self == ProtocolVersion::V500),
    {
        match self {
            ProtocolVersion::V311 => false,
            ProtocolVersion::V500 => true,
        }
    }

    /// The human readable name of the version ("MQTT 3.1.1" or "MQTT 5.0").
    pub fn display_name(self) -> (r: &'static str)
        ensures
            self == ProtocolVersion::V311 ==> r@ == "MQTT 3.1.1"@,
            self == ProtocolVersion::V500 ==> r@ == "MQTT 5.0"@,
    {
        match self {
            ProtocolVersion::V311 => "MQTT 3.1.1",
            ProtocolVersion::V500 => "MQTT 5.0",
        }
    }
}

/// Decoding the level byte of a version gives that version back.
pub proof fn lemma_version_roundtrip(v: ProtocolVersion)
    ensures
        version_level(v) == 4 || version_level(v) == 5,
        version_level(v) == 4 <==> v == ProtocolVersion::V311,
{
}

} // verus!
