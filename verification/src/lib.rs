//! A sans-I/O MQTT 3.1.1 / 5.0 protocol engine with verified codecs, topic
//! rules and broker bookkeeping.

pub mod buffer;
pub mod client;
pub mod codec;
pub mod error;
pub mod packet;
pub mod properties;
pub mod topic;
pub mod version;
pub mod wire;
pub mod broker;

pub use error::Error;
pub use packet::ControlPacket;
pub use properties::Properties;
pub use version::ProtocolVersion;

use vstd::prelude::*;

verus! {

/// Quality of Service level for MQTT message delivery.
#[derive(Debug, Clone, Copy, PartialEq, Eq, Structural, PartialOrd, Ord, Hash)]
pub enum QoS {
    /// At most once delivery: fire and forget, no acknowledgement.
    AtMostOnce,
    /// At least once delivery: PUBACK handshake.
    AtLeastOnce,
    /// Exactly once delivery: PUBREC, PUBREL, PUBCOMP handshake.
    ExactlyOnce,
}

/// The wire number of a QoS level.
pub open spec fn qos_value(q: QoS) -> u8 {
    match q {
        QoS::AtMostOnce => 0,
        QoS::AtLeastOnce => 1,
        QoS::ExactlyOnce => 2,
    }
}

/// The QoS level that a wire number denotes, if any.
pub open spec fn qos_from_value(v: u8) -> Option<QoS> {
    if v == 0 {
        Some(QoS::AtMostOnce)
    } else if v == 1 {
        Some(QoS::AtLeastOnce)
    } else if v == 2 {
        Some(QoS::ExactlyOnce)
    } else {
        None
    }
}

impl QoS {
    /// Decode a QoS level from its wire number; any value above 2 is refused.
    pub fn from_u8(v: u8) -> (r: Result<Self, Error>)
        ensures
            match qos_from_value(v) {
                Some(q) => r == Ok::<QoS, Error>(q),
                None => r matches Err(Error::InvalidQoS(x)) && x == v,
            },
    {
        match v {
            0 => Ok(QoS::AtMostOnce),
            1 => Ok(QoS::AtLeastOnce),
            2 => Ok(QoS::ExactlyOnce),
            _ => Err(Error::InvalidQoS(v)),
        }
    }

    /// The wire number of this QoS level.
    pub fn as_u8(self) -> (r: u8)
        ensures
            r == qos_value(self),
    {
        match self {
            QoS::AtMostOnce => 0,
            QoS::AtLeastOnce => 1,
            QoS::ExactlyOnce => 2,
        }
    }
}

/// Decoding the wire number of a QoS level gives that level back, and the
/// only wire numbers that decode are those of the three levels.
pub proof fn lemma_qos_roundtrip(q: QoS, v: u8)
    ensures
        qos_from_value(qos_value(q)) == Some(q),
        qos_from_value(v) matches Some(p) ==> qos_value(p) == v,
        qos_from_value(v) is Some <==> v <= 2,
{
}

} // verus!
