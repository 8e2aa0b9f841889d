//! AUTH packet (MQTT 5.0 only), used for challenge-response authentication
//! between client and broker after the initial CONNECT.

use crate::packet::opt_props;
use crate::properties::{Properties, PropertiesView};
use vstd::prelude::*;

verus! {

/// AUTH packet.
#[derive(Debug, Clone, PartialEq)]
pub struct Auth {
    /// The authentication reason code.
    pub reason_code: AuthReason,
    /// AUTH properties (they carry the authentication method).
    pub properties: Option<Properties>,
}

/// The mathematical value of an [`Auth`].
pub struct AuthView {
    pub reason_code: AuthReason,
    pub properties: Option<PropertiesView>,
}

impl View for Auth {
    type V = AuthView;

    open spec fn view(&self) -> AuthView {
        AuthView { reason_code: self.reason_code, properties: opt_props(self.properties) }
    }
}

/// Reason codes for the AUTH packet.
#[derive(Debug, Clone, Copy, PartialEq, Eq, Structural)]
pub enum AuthReason {
    /// 0x00: authentication is successful.
    Success,
    /// 0x18: the server initiates or continues a challenge.
    ContinueAuthentication,
    /// 0x19: the client initiates a re-authentication.
    ReAuthenticate,
}

/// The wire code of an AUTH reason.
pub open spec fn auth_reason_code(r: AuthReason) -> u8 {
    match r {
        AuthReason::Success => 0x00,
        AuthReason::ContinueAuthentication => 0x18,
        AuthReason::ReAuthenticate => 0x19,
    }
}

/// The AUTH reason a wire code decodes to; unknown codes decode to `Success`.
pub open spec fn auth_reason_from_code(v: u8) -> AuthReason {
    if v == 0x18 {
        AuthReason::ContinueAuthentication
    } else if v == 0x19 {
        AuthReason::ReAuthenticate
    } else {
        AuthReason::Success
    }
}

impl AuthReason {
    /// Decode a reason code; unknown codes become `Success`.
    pub fn from_u8(v: u8) -> (r: Self)
        ensures
            r == auth_reason_from_code(v),
    {
        match v {
            0x00 => Self::Success,
            0x18 => Self::ContinueAuthentication,
            0x19 => Self::ReAuthenticate,
            _ => Self::Success,
        }
    }

    /// The wire code of this reason.
    pub fn as_u8(self) -> (r: u8)
        ensures
            r == auth_reason_code(self),
    {
        match self {
            Self::Success => 0x00,
            Self::ContinueAuthentication => 0x18,
            Self::ReAuthenticate => 0x19,
        }
    }
}

impl Default for AuthReason {
    fn default() -> (r: Self)
        ensures
            r == AuthReason::Success,
    {
        AuthReason::Success
    }
}

/// Decoding the code of an AUTH reason gives the reason back.
pub proof fn lemma_auth_reason_roundtrip(r: AuthReason)
    ensures
        auth_reason_from_code(auth_reason_code(r)) == r,
{
}

} // verus!
