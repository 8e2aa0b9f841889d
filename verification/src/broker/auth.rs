//! Client authentication: anonymous, user name and password, or token.

use crate::broker::config::{string_seq, user_pairs, AuthMode, Config, UserConfig};
use crate::topic::{bytes_eq, lemma_utf8_injective};
use vstd::prelude::*;
use vstd::string::*;
use vstd::utf8::*;

verus! {

/// The characters of an optional user name.
pub open spec fn opt_name(o: Option<&str>) -> Option<Seq<char>> {
    match o {
        Some(s) => Some(s@),
        None => None,
    }
}

/// The bytes of an optional password.
pub open spec fn opt_secret(o: Option<&[u8]>) -> Option<Seq<u8>> {
    match o {
        Some(b) => Some(b@),
        None => None,
    }
}

/// A way to decide whether a client may connect, from the user name and
/// password of its CONNECT.
pub trait Authenticator {
    /// Whether the credentials are accepted.
    spec fn accepts(&self, username: Option<Seq<char>>, password: Option<Seq<u8>>) -> bool;

    /// Decide on the credentials of a CONNECT.
    fn authenticate(&self, username: Option<&str>, password: Option<&[u8]>) -> (r: bool)
        ensures
            r == self.accepts(opt_name(username), opt_secret(password)),
    ;
}

/// Accepts every connection.
pub struct AnonymousAuthenticator;

impl Authenticator for AnonymousAuthenticator {
    open spec fn accepts(&self, username: Option<Seq<char>>, password: Option<Seq<u8>>) -> bool {
        true
    }

    fn authenticate(&self, _username: Option<&str>, _password: Option<&[u8]>) -> (r: bool) {
        true
    }
}

/// The password of each user name: where a name is configured twice, the
/// later entry wins.
pub open spec fn user_map(users: Seq<(Seq<char>, Seq<char>)>) -> Map<Seq<char>, Seq<char>>
    decreases users.len(),
{
    if users.len() == 0 {
        Map::empty()
    } else {
        user_map(users.drop_last()).insert(users.last().0, users.last().1)
    }
}

/// User name and password authentication.
pub struct BasicAuthenticator {
    users: Vec<(String, String)>,
}

/// The (user name, password) pairs of a list of string pairs.
pub open spec fn pair_seq(v: Seq<(String, String)>) -> Seq<(Seq<char>, Seq<char>)> {
    v.map_values(|p: (String, String)| (p.0@, p.1@))
}

impl BasicAuthenticator {
    /// The password of each known user.
    pub closed spec fn passwords(&self) -> Map<Seq<char>, Seq<char>> {
        user_map(pair_seq(self.users@))
    }

    /// Take the users of the configuration.
    pub fn new(config: &Config) -> (r: Self)
        ensures
            r.passwords() == user_map(user_pairs(config.users@)),
    {
        let mut users: Vec<(String, String)> = Vec::new();
        let mut i: usize = 0;
        while i < config.users.len()
            invariant
                i <= config.users@.len(),
                pair_seq(users@) =~= user_pairs(config.users@.take(i as int)),
            decreases config.users@.len() - i,
        {
            let u: &UserConfig = &config.users[i];
            let name = u.username.clone();
            let pass = u.password.clone();
            let ghost before = users@;
            assert(pair_seq(before).len() == before.len());
            assert(user_pairs(config.users@.take(i as int)).len() == i);
            assert(before.len() == i);
            users.push((name, pass));
            proof {
                let a = pair_seq(users@);
                let b = user_pairs(config.users@.take(i + 1));
                assert forall|k: int| 0 <= k < i + 1 implies a[k] == b[k] by {
                    if k < i {
                        assert(users@[k] == before[k]);
                        assert(pair_seq(before)[k] == user_pairs(config.users@.take(i as int))[k]);
                    }
                }
                assert(a =~= b);
            }
            i = i + 1;
        }
        assert(config.users@.take(i as int) =~= config.users@);
        BasicAuthenticator { users }
    }
}

/// The password the last entry for `name` at or before position `i` gives.
proof fn lemma_user_map_last(users: Seq<(Seq<char>, Seq<char>)>, name: Seq<char>, i: int)
    requires
        0 <= i < users.len(),
        users[i].0 == name,
        forall|j: int| i < j < users.len() ==> users[j].0 != name,
    ensures
        user_map(users).contains_key(name),
        user_map(users)[name] == users[i].1,
    decreases users.len(),
{
    if i < users.len() - 1 {
        lemma_user_map_last(users.drop_last(), name, i);
    }
}

proof fn lemma_user_map_absent(users: Seq<(Seq<char>, Seq<char>)>, name: Seq<char>)
    requires
        forall|j: int| 0 <= j < users.len() ==> users[j].0 != name,
    ensures
        !user_map(users).contains_key(name),
    decreases users.len(),
{
    if users.len() > 0 {
        lemma_user_map_absent(users.drop_last(), name);
    }
}

impl Authenticator for BasicAuthenticator {
    /// A known user name with its password (the password's bytes are the
    /// UTF-8 bytes of the configured one); anything else is refused.
    open spec fn accepts(&self, username: Option<Seq<char>>, password: Option<Seq<u8>>) -> bool {
        match (username, password) {
            (Some(u), Some(p)) => self.passwords().contains_key(u) && encode_utf8(
                self.passwords()[u],
            ) == p,
            _ => false,
        }
    }

    fn authenticate(&self, username: Option<&str>, password: Option<&[u8]>) -> (r: bool) {
        match (username, password) {
            (Some(user), Some(pass)) => {
                assert(opt_name(username) == Some(user@));
                assert(opt_secret(password) == Some(pass@));
                let ub = user.as_bytes();
                let ghost us = pair_seq(self.users@);
                let mut i = self.users.len();
                while i > 0
                    invariant
                        i <= self.users@.len(),
                        us == pair_seq(self.users@),
                        ub@ == encode_utf8(user@),
                        opt_name(username) == Some(user@),
                        opt_secret(password) == Some(pass@),
                        forall|j: int| i <= j < us.len() ==> us[j].0 != user@,
                    decreases i,
                {
                    i = i - 1;
                    let entry = &self.users[i];
                    assert(us[i as int] == (entry.0@, entry.1@));
                    if bytes_eq(entry.0.as_str().as_bytes(), ub) {
                        proof {
                            lemma_utf8_injective(entry.0@, user@);
                            lemma_user_map_last(us, user@, i as int);
                        }
                        assert(self.passwords() == user_map(us));
                        let ok = bytes_eq(entry.1.as_str().as_bytes(), pass);
                        assert(ok == (encode_utf8(self.passwords()[user@]) == pass@));
                        return ok;
                    }
                }
                proof {
                    lemma_user_map_absent(us, user@);
                }
                false
            },
            _ => false,
        }
    }
}

/// Token authentication: the password field carries a token.
pub struct TokenAuthenticator {
    tokens: Vec<String>,
}

impl TokenAuthenticator {
    /// The accepted tokens.
    pub closed spec fn token_set(&self) -> Set<Seq<char>> {
        string_seq(self.tokens@).to_set()
    }

    /// Take the tokens of the configuration.
    pub fn new(config: &Config) -> (r: Self)
        ensures
            r.token_set() == string_seq(config.tokens@).to_set(),
    {
        let mut tokens: Vec<String> = Vec::new();
        let mut i: usize = 0;
        while i < config.tokens.len()
            invariant
                i <= config.tokens@.len(),
                string_seq(tokens@) =~= string_seq(config.tokens@.take(i as int)),
            decreases config.tokens@.len() - i,
        {
            let t = config.tokens[i].clone();
            let ghost before = tokens@;
            assert(string_seq(before).len() == before.len());
            assert(string_seq(config.tokens@.take(i as int)).len() == i);
            assert(before.len() == i);
            tokens.push(t);
            proof {
                let a = string_seq(tokens@);
                let b = string_seq(config.tokens@.take(i + 1));
                assert forall|k: int| 0 <= k < i + 1 implies a[k] == b[k] by {
                    if k < i {
                        assert(tokens@[k] == before[k]);
                        assert(string_seq(before)[k] == string_seq(config.tokens@.take(i as int))[k]);
                    }
                }
                assert(a =~= b);
            }
            i = i + 1;
        }
        assert(config.tokens@.take(i as int) =~= config.tokens@);
        TokenAuthenticator { tokens }
    }
}

impl Authenticator for TokenAuthenticator {
    /// A password whose bytes are the UTF-8 bytes of an accepted token; the
    /// user name plays no part.
    open spec fn accepts(&self, username: Option<Seq<char>>, password: Option<Seq<u8>>) -> bool {
        match password {
            Some(p) => exists|t: Seq<char>| self.token_set().contains(t) && encode_utf8(t) == p,
            None => false,
        }
    }

    fn authenticate(&self, _username: Option<&str>, password: Option<&[u8]>) -> (r: bool) {
        match password {
            Some(pass) => {
                assert(opt_secret(password) == Some(pass@));
                let ghost ts = string_seq(self.tokens@);
                let mut i: usize = 0;
                while i < self.tokens.len()
                    invariant
                        i <= self.tokens@.len(),
                        ts == string_seq(self.tokens@),
                        opt_secret(password) == Some(pass@),
                        forall|j: int| 0 <= j < i ==> encode_utf8(#[trigger] ts[j]) != pass@,
                    decreases self.tokens@.len() - i,
                {
                    assert(ts[i as int] == self.tokens@[i as int]@);
                    if bytes_eq(self.tokens[i].as_str().as_bytes(), pass) {
                        assert(ts.to_set().contains(ts[i as int]));
                        assert(encode_utf8(ts[i as int]) == pass@);
                        assert(self.token_set().contains(ts[i as int]));
                        return true;
                    }
                    i = i + 1;
                }
                assert forall|t: Seq<char>| ts.to_set().contains(t) implies encode_utf8(t)
                    != pass@ by {
                    let j = choose|j: int| 0 <= j < ts.len() && ts[j] == t;
                    assert(encode_utf8(ts[j]) != pass@);
                }
                false
            },
            None => false,
        }
    }
}

/// The authenticator the configuration selects.
pub enum ConfiguredAuthenticator {
    Anonymous(AnonymousAuthenticator),
    Basic(BasicAuthenticator),
    Token(TokenAuthenticator),
}

impl Authenticator for ConfiguredAuthenticator {
    open spec fn accepts(&self, username: Option<Seq<char>>, password: Option<Seq<u8>>) -> bool {
        match self {
            ConfiguredAuthenticator::Anonymous(a) => a.accepts(username, password),
            ConfiguredAuthenticator::Basic(a) => a.accepts(username, password),
            ConfiguredAuthenticator::Token(a) => a.accepts(username, password),
        }
    }

    fn authenticate(&self, username: Option<&str>, password: Option<&[u8]>) -> (r: bool) {
        match self {
            ConfiguredAuthenticator::Anonymous(a) => a.authenticate(username, password),
            ConfiguredAuthenticator::Basic(a) => a.authenticate(username, password),
            ConfiguredAuthenticator::Token(a) => a.authenticate(username, password),
        }
    }
}

/// Build the authenticator of the configured mode.
pub fn create_authenticator(config: &Config) -> (r: ConfiguredAuthenticator)
    ensures
        config.auth_mode == AuthMode::Anonymous ==> r is Anonymous,
        config.auth_mode == AuthMode::Basic ==> (r matches ConfiguredAuthenticator::Basic(b)
            && b.passwords() == user_map(user_pairs(config.users@))),
        config.auth_mode == AuthMode::Token ==> (r matches ConfiguredAuthenticator::Token(t)
            && t.token_set() == string_seq(config.tokens@).to_set()),
{
    match config.auth_mode {
        AuthMode::Anonymous => ConfiguredAuthenticator::Anonymous(AnonymousAuthenticator),
        AuthMode::Basic => ConfiguredAuthenticator::Basic(BasicAuthenticator::new(config)),
        AuthMode::Token => ConfiguredAuthenticator::Token(TokenAuthenticator::new(config)),
    }
}

} // verus!
