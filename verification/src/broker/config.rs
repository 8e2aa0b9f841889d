//! Broker configuration.

use vstd::prelude::*;

verus! {

/// How clients are authenticated.
#[derive(Debug, Clone, Copy, PartialEq, Eq, Structural)]
pub enum AuthMode {
    /// Every client is accepted.
    Anonymous,
    /// A user name and password from the configured users.
    Basic,
    /// A configured token in the password field.
    Token,
}

/// One user of basic authentication.
#[derive(Debug, Clone)]
pub struct UserConfig {
    pub username: String,
    pub password: String,
}

/// The broker's settings.
#[derive(Debug, Clone)]
pub struct Config {
    pub host: String,
    pub port: u16,
    pub max_packet_size: u32,
    pub receive_maximum: u16,
    pub auth_mode: AuthMode,
    pub users: Vec<UserConfig>,
    /// The tokens accepted by token authentication.
    pub tokens: Vec<String>,
}

/// The (user name, password) pairs of a list of users.
pub open spec fn user_pairs(users: Seq<UserConfig>) -> Seq<(Seq<char>, Seq<char>)> {
    users.map_values(|u: UserConfig| (u.username@, u.password@))
}

/// The characters of a list of strings.
pub open spec fn string_seq(s: Seq<String>) -> Seq<Seq<char>> {
    s.map_values(|x: String| x@)
}

impl Default for Config {
    /// Listen on 127.0.0.1:1883, accept packets up to the MQTT maximum
    /// (268435455 bytes), a receive maximum of 1000, anonymous access.
    fn default() -> (r: Self)
        ensures
            r.host@ == "127.0.0.1"@,
            r.port == 1883,
            r.max_packet_size == 268_435_455,
            r.receive_maximum == 1000,
            r.auth_mode == AuthMode::Anonymous,
            r.users@.len() == 0,
            r.tokens@.len() == 0,
    {
        Config {
            host: "127.0.0.1".to_owned(),
            port: 1883,
            max_packet_size: 268_435_455,
            receive_maximum: 1000,
            auth_mode: AuthMode::Anonymous,
            users: Vec::new(),
            tokens: Vec::new(),
        }
    }
}

} // verus!
