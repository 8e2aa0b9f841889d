//! SUBACK lives in `subscribe`; this module re-exports it.

pub use crate::packet::subscribe::{SubAck, SubAckReason};
