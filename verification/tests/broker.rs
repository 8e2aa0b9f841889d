use rustmq::broker::auth::{
    create_authenticator, AnonymousAuthenticator, Authenticator, BasicAuthenticator,
    TokenAuthenticator,
};
use rustmq::broker::config::{AuthMode, Config, UserConfig};
use rustmq::broker::topic_alias::TopicAliasMap;
use rustmq::broker::topic_trie::{Subscription, TopicTrie};
use rustmq::QoS;

#[test]
fn test_anonymous_authenticator() {
    let auth = AnonymousAuthenticator;
    assert!(auth.authenticate(None, None));
    assert!(auth.authenticate(Some("yash"), Some(b"pass123")));
}

#[test]
fn test_basic_authenticator() {
    let mut config = Config::default();
    config.users.push(UserConfig {
        username: "yash".to_string(),
        password: "securepassword".to_string(),
    });

    let auth = BasicAuthenticator::new(&config);

    // Correct credentials
    assert!(auth.authenticate(Some("yash"), Some(b"securepassword")));

    // Wrong password
    assert!(!auth.authenticate(Some("yash"), Some(b"wrongpassword")));

    // Non-existent user
    assert!(!auth.authenticate(Some("unknown"), Some(b"securepassword")));

    // Missing username
    assert!(!auth.authenticate(None, Some(b"securepassword")));

    // Missing password
    assert!(!auth.authenticate(Some("yash"), None));
}

#[test]
fn test_token_authenticator() {
    let mut config = Config::default();
    config.tokens.push("jwt-token-12345".to_string());

    let auth = TokenAuthenticator::new(&config);

    // Correct token in password field
    assert!(auth.authenticate(None, Some(b"jwt-token-12345")));

    // Wrong token
    assert!(!auth.authenticate(None, Some(b"bad-token")));

    // Missing token
    assert!(!auth.authenticate(None, None));
}

#[test]
fn test_factory_creation() {
    let mut config = Config::default();

    config.auth_mode = AuthMode::Anonymous;
    let auth = create_authenticator(&config);
    assert!(auth.authenticate(None, None)); // Anonymous succeeds

    config.auth_mode = AuthMode::Basic;
    let auth = create_authenticator(&config);
    assert!(!auth.authenticate(None, None)); // Basic fails without creds
}

#[test]
fn later_user_entry_wins() {
    let mut config = Config::default();
    config.users.push(UserConfig { username: "a".to_string(), password: "one".to_string() });
    config.users.push(UserConfig { username: "a".to_string(), password: "two".to_string() });
    let auth = BasicAuthenticator::new(&config);
    assert!(auth.authenticate(Some("a"), Some(b"two")));
    assert!(!auth.authenticate(Some("a"), Some(b"one")));
}

#[test]
fn invalid_utf8_password_is_refused() {
    let mut config = Config::default();
    config.tokens.push("t".to_string());
    let auth = TokenAuthenticator::new(&config);
    assert!(!auth.authenticate(None, Some(&[0xFFu8][..])));
}

#[test]
fn default_config_values() {
    let config = Config::default();
    assert_eq!(config.host, "127.0.0.1");
    assert_eq!(config.port, 1883);
    assert_eq!(config.max_packet_size, 268_435_455);
    assert_eq!(config.receive_maximum, 1000);
    assert_eq!(config.auth_mode, AuthMode::Anonymous);
    assert!(config.users.is_empty() && config.tokens.is_empty());
}

#[test]
fn topic_alias_insert_and_get() {
    let mut aliases = TopicAliasMap::new(2);
    assert!(aliases.get(1).is_none());
    assert!(aliases.insert(1, "a/b".to_string()));
    assert_eq!(aliases.get(1), Some("a/b"));
    assert!(aliases.insert(1, "c".to_string()));
    assert_eq!(aliases.get(1), Some("c"));
    assert!(!aliases.insert(0, "zero".to_string()));
    assert!(!aliases.insert(3, "too-big".to_string()));
    assert!(aliases.get(3).is_none());
}

fn sub(client: &str, filter: &str, qos: QoS) -> Subscription {
    Subscription {
        client_id: client.to_string(),
        filter: filter.to_string(),
        qos,
        no_local: false,
        retain_as_published: false,
        retain_handling: 0,
        subscription_identifier: None,
    }
}

fn clients(subs: &[Subscription]) -> Vec<String> {
    let mut v: Vec<String> = subs.iter().map(|s| s.client_id.clone()).collect();
    v.sort();
    v
}

#[test]
fn trie_matches_wildcards() {
    let mut trie = TopicTrie::new();
    trie.insert(sub("c1", "a/b/c", QoS::AtMostOnce));
    trie.insert(sub("c2", "a/+/c", QoS::AtLeastOnce));
    trie.insert(sub("c3", "a/#", QoS::ExactlyOnce));
    trie.insert(sub("c4", "#", QoS::AtMostOnce));
    trie.insert(sub("c5", "b/#", QoS::AtMostOnce));
    let (subs, shared) = trie.matches("a/b/c");
    assert_eq!(clients(&subs), vec!["c1", "c2", "c3", "c4"]);
    assert!(shared.is_empty());
    let (subs, _) = trie.matches("a");
    assert_eq!(clients(&subs), vec!["c3", "c4"]);
}

#[test]
fn trie_keeps_system_topics_from_wildcards() {
    let mut trie = TopicTrie::new();
    trie.insert(sub("c1", "#", QoS::AtMostOnce));
    trie.insert(sub("c2", "+/broker", QoS::AtMostOnce));
    trie.insert(sub("c3", "$SYS/#", QoS::AtMostOnce));
    let (subs, _) = trie.matches("$SYS/broker");
    assert_eq!(clients(&subs), vec!["c3"]);
}

#[test]
fn trie_insert_replaces_and_remove_reports() {
    let mut trie = TopicTrie::new();
    trie.insert(sub("c1", "x/y", QoS::AtMostOnce));
    trie.insert(sub("c1", "x/y", QoS::ExactlyOnce));
    let (subs, _) = trie.matches("x/y");
    assert_eq!(subs.len(), 1);
    assert_eq!(subs[0].qos, QoS::ExactlyOnce);
    assert!(trie.remove("x/y", "c1"));
    assert!(!trie.remove("x/y", "c1"));
    assert!(!trie.remove("never/inserted", "c1"));
    let (subs, _) = trie.matches("x/y");
    assert!(subs.is_empty());
}

#[test]
fn trie_shared_groups() {
    let mut trie = TopicTrie::new();
    trie.insert(sub("w1", "$share/workers/jobs/#", QoS::AtLeastOnce));
    trie.insert(sub("w2", "$share/workers/jobs/#", QoS::AtLeastOnce));
    trie.insert(sub("m1", "$share/monitor/jobs/+", QoS::AtMostOnce));
    let (subs, shared) = trie.matches("jobs/1");
    assert!(subs.is_empty());
    let mut names: Vec<String> = shared.iter().map(|(n, _)| n.clone()).collect();
    names.sort();
    assert_eq!(names, vec!["monitor", "workers"]);
    let workers = shared.iter().find(|(n, _)| n == "workers").unwrap();
    assert_eq!(clients(&workers.1), vec!["w1", "w2"]);
    assert!(trie.remove("$share/workers/jobs/#", "w1"));
    assert!(trie.remove("$share/workers/jobs/#", "w2"));
    let (_, shared) = trie.matches("jobs/1");
    assert_eq!(shared.len(), 1);
    assert_eq!(shared[0].0, "monitor");
}

#[test]
fn trie_matches_each_subscription_once() {
    let mut trie = TopicTrie::new();
    trie.insert(sub("c1", "$share/g/a/+", QoS::AtMostOnce));
    trie.insert(sub("c2", "$share/g/a/+", QoS::AtLeastOnce));
    trie.insert(sub("c3", "a/b", QoS::ExactlyOnce));
    trie.insert(sub("c3", "a/b", QoS::AtMostOnce));
    let (subs, shared) = trie.matches("a/b");
    assert_eq!(subs.len(), 1);
    assert_eq!(subs[0].client_id, "c3");
    assert_eq!(subs[0].qos, QoS::AtMostOnce);
    assert_eq!(shared.len(), 1);
    assert_eq!(shared[0].0, "g");
    assert_eq!(clients(&shared[0].1), vec!["c1", "c2"]);
    let (subs, shared) = trie.matches("a/b/c");
    assert!(subs.is_empty());
    assert!(shared.is_empty());
}
