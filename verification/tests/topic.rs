use rustmq::Error;
use rustmq::topic::{
    parse_shared_subscription, topic_matches, validate_publish_topic,
    validate_subscription_filter,
};

#[test]
fn valid_publish_topics() {
    assert!(validate_publish_topic("sensors/temp").is_ok());
    assert!(validate_publish_topic("a").is_ok());
    assert!(validate_publish_topic("$SYS/broker/uptime").is_ok());
}

#[test]
fn invalid_publish_topics() {
    assert!(validate_publish_topic("").is_err());
    assert!(validate_publish_topic("a/+/b").is_err());
    assert!(validate_publish_topic("a/#").is_err());
}

#[test]
fn valid_subscription_filters() {
    assert!(validate_subscription_filter("#").is_ok());
    assert!(validate_subscription_filter("a/+/b").is_ok());
    assert!(validate_subscription_filter("a/b/c/#").is_ok());
    assert!(validate_subscription_filter("+").is_ok());
    assert!(validate_subscription_filter("$share/workers/jobs/#").is_ok());
}

#[test]
fn invalid_subscription_filters() {
    assert!(validate_subscription_filter("a/#/b").is_err());
    assert!(validate_subscription_filter("a+b").is_err());
    assert!(validate_subscription_filter("$share//jobs/#").is_err());
    assert!(validate_subscription_filter("$share/w+k/jobs").is_err());
}

#[test]
fn topic_matching() {
    assert!(topic_matches("#", "a/b/c"));
    assert!(topic_matches("a/+/c", "a/b/c"));
    assert!(topic_matches("a/b/c", "a/b/c"));
    assert!(topic_matches("a/#", "a/b/c/d"));
    assert!(!topic_matches("a/b", "a/b/c"));
    assert!(!topic_matches("+", "a/b"));
    // System topics are not matched by plain wildcards.
    assert!(!topic_matches("#", "$SYS/broker"));
    assert!(!topic_matches("+/broker", "$SYS/broker"));
    // Filters that start with `$` match `$` topics.
    assert!(topic_matches("$SYS/#", "$SYS/broker/uptime"));
}

#[test]
fn shared_sub_parsing() {
    let (name, filter) = parse_shared_subscription("$share/workers/jobs/#").unwrap();
    assert_eq!(name, "workers");
    assert_eq!(filter, "jobs/#");
}

#[test]
fn hash_matches_parent_level() {
    assert!(topic_matches("sport/#", "sport"));
    assert!(topic_matches("sport/tennis/#", "sport/tennis"));
    assert!(!topic_matches("sport/+", "sport"));
}

#[test]
fn plain_filter_is_not_shared() {
    assert!(parse_shared_subscription("jobs/#").is_none());
    assert!(parse_shared_subscription("$share/nogroup").is_none());
}

#[test]
fn publish_topic_errors_name_the_topic() {
    assert!(validate_publish_topic("a\0b").is_err());
    assert!(validate_subscription_filter("").is_err());
}

#[test]
fn shared_filter_needs_a_bare_filter() {
    assert!(validate_subscription_filter("$share/g/").is_err());
    assert!(validate_subscription_filter("$share/g/a").is_ok());
}

fn message(r: Result<(), Error>) -> String {
    match r {
        Err(Error::InvalidTopic(m)) => m,
        other => panic!("unexpected {:?}", other),
    }
}

#[test]
fn refused_topics_name_their_rule() {
    assert_eq!(message(validate_publish_topic("")), "topic must not be empty");
    assert_eq!(message(validate_publish_topic("a/#/+")), "publish topic must not contain wildcard '#'");
    assert_eq!(message(validate_publish_topic("a/+")), "publish topic must not contain wildcard '+'");
    assert_eq!(message(validate_publish_topic("a\0b")), "topic must not contain null character");
    assert_eq!(
        message(validate_publish_topic(&"x".repeat(65_536))),
        "topic exceeds maximum length of 65535 bytes"
    );
    assert_eq!(message(validate_subscription_filter("")), "topic filter must not be empty");
    assert_eq!(message(validate_subscription_filter("a#/b")), "'#' must occupy an entire level by itself");
    assert_eq!(message(validate_subscription_filter("#/b")), "'#' must be the last level in a topic filter");
    assert_eq!(message(validate_subscription_filter("a/b+")), "'+' must occupy an entire level by itself");
    assert_eq!(message(validate_subscription_filter("a/\0")), "topic filter must not contain null character");
    assert_eq!(
        message(validate_subscription_filter("$share/g")),
        "shared subscription filter must be '$share/{name}/{filter}'"
    );
    assert_eq!(
        message(validate_subscription_filter("$share//a")),
        "share name in '$share/{name}/...' must not be empty"
    );
    assert_eq!(
        message(validate_subscription_filter("$share/a+/b")),
        "share name must not contain '+', '#', or '/'"
    );
    assert_eq!(message(validate_subscription_filter("$share/g/")), "topic filter must not be empty");
}
