//! UNSUBACK lives in `unsubscribe`; this module re-exports it.

pub use crate::packet::unsubscribe::{UnsubAck, UnsubAckReason};
