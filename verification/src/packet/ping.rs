//! PINGREQ and PINGRESP packets: a fixed header only, used to keep a
//! connection alive.

use vstd::prelude::*;

verus! {

/// PINGREQ: client to broker, "I'm still alive."
#[derive(Debug, Clone, Copy, PartialEq, Eq, Default)]
pub struct PingReq;

/// PINGRESP: broker to client, "I see you."
#[derive(Debug, Clone, Copy, PartialEq, Eq, Default)]
pub struct PingResp;

} // verus!
