use rustmq::broker::config::{AuthMode, Config, UserConfig};
use rustmq::broker::connection::{
    connack_for, read_timeout_secs, BrokerRequest, ConnectionAction, ConnectionState,
};
use rustmq::broker::engine::{Broker, BrokerToClientMessage, PublishOutcome};
use rustmq::broker::retained::RetainedStore;
use rustmq::broker::session::Session;
use rustmq::packet::connect::{ConnectReason, Will};
use rustmq::packet::disconnect::Disconnect;
use rustmq::packet::puback::PubRel;
use rustmq::packet::publish::Publish;
use rustmq::packet::subscribe::{RetainHandling, SubscriptionFilter};
use rustmq::packet::ControlPacket;
use rustmq::version::ProtocolVersion;
use rustmq::QoS;

fn filter(f: &str, qos: QoS) -> SubscriptionFilter {
    SubscriptionFilter::new(f.to_string(), qos)
}

fn connect(b: &mut Broker, id: &str, clean: bool) {
    let _ = b.handle_connect(id.to_string(), clean, None);
}

fn publish(b: &mut Broker, from: &str, topic: &str, payload: &[u8], qos: QoS, retain: bool) -> PublishOutcome {
    b.handle_publish(from, topic.to_string(), payload.to_vec(), qos, retain, None, 0)
}

/// (client id, topic, payload, qos, packet id, retain) of each delivered PUBLISH.
fn published(out: &PublishOutcome) -> Vec<(String, String, Vec<u8>, QoS, u16, bool)> {
    out.deliveries
        .iter()
        .map(|(c, m)| match m {
            BrokerToClientMessage::Publish(p) => {
                (c.clone(), p.topic.clone(), p.payload.clone(), p.qos, p.packet_id, p.retain)
            }
            other => panic!("unexpected message {:?}", other),
        })
        .collect()
}

#[test]
fn engine_first_connect_has_no_session() {
    let mut b = Broker::new(Config::default());
    let r = b.handle_connect("a".to_string(), true, None);
    assert!(!r.evicted);
    assert!(!r.session_present);
    assert!(r.queued.is_empty());
}

#[test]
fn engine_second_connect_evicts_first() {
    let mut b = Broker::new(Config::default());
    connect(&mut b, "a", false);
    let r = b.handle_connect("a".to_string(), false, None);
    assert!(r.evicted);
    assert!(r.session_present);
}

#[test]
fn engine_persistent_session_is_present_after_reconnect() {
    let mut b = Broker::new(Config::default());
    connect(&mut b, "a", false);
    b.handle_disconnect("a", 10);
    let r = b.handle_connect("a".to_string(), false, None);
    assert!(!r.evicted);
    assert!(r.session_present);
    let r = b.handle_connect("a".to_string(), true, None);
    assert!(!r.session_present);
}

#[test]
fn engine_publish_goes_at_the_lower_qos() {
    let mut b = Broker::new(Config::default());
    connect(&mut b, "sub", true);
    connect(&mut b, "pub", true);
    let (granted, sent) = b.handle_subscribe("sub", vec![filter("a/+", QoS::AtLeastOnce)], None, 0);
    assert_eq!(granted, vec![QoS::AtLeastOnce]);
    assert!(sent.is_empty());
    let out = publish(&mut b, "pub", "a/b", b"hi", QoS::ExactlyOnce, false);
    assert_eq!(
        published(&out),
        vec![("sub".to_string(), "a/b".to_string(), b"hi".to_vec(), QoS::AtLeastOnce, 1, false)]
    );
    let acks = out.acks.expect("a QoS 1 delivery owes an acknowledgement");
    assert_eq!(acks.len(), 1);
    assert_eq!(acks[0].client_id, "sub");
    // A QoS 0 publication takes no packet identifier and owes nothing.
    let out = publish(&mut b, "pub", "a/c", b"x", QoS::AtMostOnce, false);
    assert_eq!(
        published(&out),
        vec![("sub".to_string(), "a/c".to_string(), b"x".to_vec(), QoS::AtMostOnce, 0, false)]
    );
    assert!(out.acks.is_none());
}

#[test]
fn engine_no_match_delivers_nothing() {
    let mut b = Broker::new(Config::default());
    connect(&mut b, "sub", true);
    let _ = b.handle_subscribe("sub", vec![filter("a/b", QoS::AtMostOnce)], None, 0);
    let out = publish(&mut b, "sub", "a/c", b"x", QoS::AtLeastOnce, false);
    assert!(out.deliveries.is_empty());
    assert!(out.acks.is_none());
}

#[test]
fn engine_no_local_skips_own_messages() {
    let mut b = Broker::new(Config::default());
    connect(&mut b, "me", true);
    let mut f = filter("chat/#", QoS::AtMostOnce);
    f.no_local = true;
    let _ = b.handle_subscribe("me", vec![f], None, 0);
    let out = publish(&mut b, "me", "chat/room", b"hello", QoS::AtMostOnce, false);
    assert!(out.deliveries.is_empty());
    connect(&mut b, "other", true);
    let out = publish(&mut b, "other", "chat/room", b"hello", QoS::AtMostOnce, false);
    assert_eq!(out.deliveries.len(), 1);
}

#[test]
fn engine_offline_messages_wait_for_reconnect() {
    let mut b = Broker::new(Config::default());
    connect(&mut b, "sub", false);
    let _ = b.handle_subscribe("sub", vec![filter("t", QoS::AtLeastOnce)], None, 0);
    b.handle_disconnect("sub", 5);
    connect(&mut b, "pub", true);
    let out = publish(&mut b, "pub", "t", b"while away", QoS::AtLeastOnce, false);
    assert!(out.deliveries.is_empty());
    assert_eq!(out.acks.map(|v| v.len()), Some(1));
    let r = b.handle_connect("sub".to_string(), false, None);
    assert!(r.session_present);
    assert_eq!(r.queued.len(), 1);
    match &r.queued[0] {
        BrokerToClientMessage::Publish(p) => {
            assert_eq!(p.topic, "t");
            assert_eq!(p.payload, b"while away".to_vec());
            assert_eq!(p.qos, QoS::AtLeastOnce);
            assert_eq!(p.packet_id, 1);
        }
        other => panic!("unexpected message {:?}", other),
    }
    // The queue is handed out once.
    let r = b.handle_connect("sub".to_string(), false, None);
    assert!(r.queued.is_empty());
}

#[test]
fn engine_clean_session_ends_at_disconnect() {
    let mut b = Broker::new(Config::default());
    connect(&mut b, "sub", true);
    let _ = b.handle_subscribe("sub", vec![filter("t", QoS::AtLeastOnce)], None, 0);
    b.handle_disconnect("sub", 0);
    connect(&mut b, "pub", true);
    let out = publish(&mut b, "pub", "t", b"x", QoS::AtLeastOnce, false);
    assert!(out.deliveries.is_empty());
    assert!(out.acks.is_none());
    assert_eq!(b.handle_unsubscribe("sub", vec!["t".to_string()]), vec![false]);
}

#[test]
fn engine_retained_message_reaches_new_subscriber() {
    let mut b = Broker::new(Config::default());
    connect(&mut b, "pub", true);
    let _ = publish(&mut b, "pub", "home/temp", b"21", QoS::AtLeastOnce, true);
    connect(&mut b, "sub", true);
    let (granted, sent) = b.handle_subscribe("sub", vec![filter("home/#", QoS::ExactlyOnce)], Some(7), 0);
    assert_eq!(granted, vec![QoS::ExactlyOnce]);
    assert_eq!(sent.len(), 1);
    match &sent[0] {
        BrokerToClientMessage::Publish(p) => {
            assert_eq!(p.topic, "home/temp");
            assert_eq!(p.payload, b"21".to_vec());
            assert_eq!(p.qos, QoS::AtLeastOnce);
            assert!(p.retain);
            assert_eq!(p.subscription_identifier, Some(7));
            assert_eq!(p.packet_id, 1);
        }
        other => panic!("unexpected message {:?}", other),
    }
    // Retain handling 2 sends nothing.
    let mut f = filter("home/temp", QoS::AtMostOnce);
    f.retain_handling = RetainHandling::DoNotSend;
    let (_, sent) = b.handle_subscribe("sub", vec![f], None, 0);
    assert!(sent.is_empty());
}

#[test]
fn engine_empty_retained_payload_clears_topic() {
    let mut b = Broker::new(Config::default());
    connect(&mut b, "pub", true);
    let _ = publish(&mut b, "pub", "t", b"v", QoS::AtMostOnce, true);
    let _ = publish(&mut b, "pub", "t", b"", QoS::AtMostOnce, true);
    connect(&mut b, "sub", true);
    let (_, sent) = b.handle_subscribe("sub", vec![filter("t", QoS::AtMostOnce)], None, 0);
    assert!(sent.is_empty());
}

#[test]
fn engine_shared_subscription_round_robin() {
    let mut b = Broker::new(Config::default());
    connect(&mut b, "b", true);
    connect(&mut b, "a", true);
    connect(&mut b, "pub", true);
    let _ = b.handle_subscribe("b", vec![filter("$share/g/jobs", QoS::AtMostOnce)], None, 0);
    let _ = b.handle_subscribe("a", vec![filter("$share/g/jobs", QoS::AtMostOnce)], None, 0);
    let mut order = Vec::new();
    for _ in 0..4 {
        let out = publish(&mut b, "pub", "jobs", b"w", QoS::AtMostOnce, false);
        assert_eq!(out.deliveries.len(), 1);
        order.push(out.deliveries[0].0.clone());
    }
    assert_eq!(order, vec!["a", "b", "a", "b"]);
}

#[test]
fn engine_unsubscribe_reports_each_filter() {
    let mut b = Broker::new(Config::default());
    assert_eq!(b.handle_unsubscribe("nobody", vec!["x".to_string(), "y".to_string()]), vec![false, false]);
    connect(&mut b, "c", true);
    let _ = b.handle_subscribe("c", vec![filter("x", QoS::AtMostOnce)], None, 0);
    assert_eq!(b.handle_unsubscribe("c", vec!["x".to_string(), "x".to_string()]), vec![true, false]);
}

#[test]
fn engine_subscribe_without_session_grants_qos0() {
    let mut b = Broker::new(Config::default());
    let (granted, sent) = b.handle_subscribe(
        "ghost",
        vec![filter("a", QoS::ExactlyOnce), filter("b", QoS::AtLeastOnce)],
        None,
        0,
    );
    assert_eq!(granted, vec![QoS::AtMostOnce, QoS::AtMostOnce]);
    assert!(sent.is_empty());
}

#[test]
fn engine_pubrec_answers_with_pubrel() {
    let mut b = Broker::new(Config::default());
    connect(&mut b, "sub", true);
    connect(&mut b, "pub", true);
    let _ = b.handle_subscribe("sub", vec![filter("q2", QoS::ExactlyOnce)], None, 0);
    let out = publish(&mut b, "pub", "q2", b"x", QoS::ExactlyOnce, false);
    let pid = published(&out)[0].4;
    match b.handle_pubrec("sub", pid, 3) {
        Some(BrokerToClientMessage::PubRel(id)) => assert_eq!(id, pid),
        other => panic!("unexpected answer {:?}", other),
    }
    // The message is no longer waiting for PUBREC.
    assert!(b.handle_pubrec("sub", pid, 4).is_none());
    b.handle_pubcomp("sub", pid);
    b.handle_puback("sub", 99);
}

#[test]
fn session_packet_ids_wrap_to_one() {
    let mut s = Session::new("c".to_string(), true, None);
    assert_eq!(s.get_next_packet_id(), 1);
    assert_eq!(s.get_next_packet_id(), 2);
    s.next_packet_id = u16::MAX;
    assert_eq!(s.get_next_packet_id(), u16::MAX);
    assert_eq!(s.get_next_packet_id(), 1);
}

#[test]
fn session_expiry_starts_at_disconnect() {
    let mut s = Session::new("c".to_string(), false, Some(10));
    s.mark_connected();
    assert!(!s.is_expired(1_000));
    s.mark_disconnected(100);
    assert_eq!(s.session_expiry_time, Some(110));
    assert!(!s.is_expired(109));
    assert!(s.is_expired(110));
    s.mark_connected();
    assert!(!s.is_expired(1_000));

    let mut forever = Session::new("d".to_string(), false, Some(0xFFFF_FFFF));
    forever.mark_disconnected(5);
    assert_eq!(forever.session_expiry_time, None);
    assert!(!forever.is_expired(u64::MAX));
}

#[test]
fn retained_store_drops_expired_messages() {
    let mut store = RetainedStore::new();
    store.insert("a/b".to_string(), b"1".to_vec(), QoS::AtMostOnce, Some(5), 0);
    store.insert("a/c".to_string(), b"2".to_vec(), QoS::AtLeastOnce, None, 0);
    let got = store.get_matching("a/+", 4);
    assert_eq!(got.len(), 2);
    let got = store.get_matching("a/+", 5);
    assert_eq!(got.len(), 1);
    assert_eq!(got[0].topic, "a/c");
    assert!(store.get_matching("a/b", 6).is_empty());
}

#[test]
fn retained_store_matches_bare_filter_of_shared() {
    let mut store = RetainedStore::new();
    store.insert("a/b".to_string(), b"1".to_vec(), QoS::AtMostOnce, None, 0);
    store.insert("a/b".to_string(), b"2".to_vec(), QoS::AtMostOnce, None, 0);
    let got = store.get_matching("$share/g/a/#", 0);
    assert_eq!(got.len(), 1);
    assert_eq!(got[0].payload, b"2".to_vec());
}

#[test]
fn connection_qos2_publish_is_forwarded_once() {
    let mut c = ConnectionState::new();
    let mut p = Publish::new("t".to_string(), b"x".to_vec());
    p.qos = QoS::ExactlyOnce;
    p.packet_id = Some(9);
    let first = c.process_packet(ControlPacket::Publish(p.clone())).expect("not a CONNECT");
    assert!(first.iter().any(|a| matches!(a, ConnectionAction::Forward(_))));
    assert!(first
        .iter()
        .any(|a| matches!(a, ConnectionAction::Write(ControlPacket::PubRec(r)) if r.packet_id == 9)));
    let again = c.process_packet(ControlPacket::Publish(p)).expect("not a CONNECT");
    assert!(!again.iter().any(|a| matches!(a, ConnectionAction::Forward(_))));
    assert!(again
        .iter()
        .any(|a| matches!(a, ConnectionAction::Write(ControlPacket::PubRec(r)) if r.packet_id == 9)));
}

#[test]
fn connection_connack_answers() {
    let (ack, go_on) = connack_for(Some(Ok(true)));
    assert!(go_on);
    assert!(ack.session_present);
    assert_eq!(ack.reason_code, ConnectReason::Success);
    let (ack, go_on) = connack_for(Some(Err("bad credentials".to_string())));
    assert!(!go_on);
    assert_eq!(ack.reason_code, ConnectReason::NotAuthorized);
    let (ack, go_on) = connack_for(None);
    assert!(!go_on);
    assert_eq!(ack.reason_code, ConnectReason::ServerUnavailable);
}

#[test]
fn connection_broker_takeover_ends_v5_connection_with_disconnect() {
    let mut c = ConnectionState::new();
    c.version = ProtocolVersion::V500;
    let actions = c.on_broker_message(BrokerToClientMessage::DisconnectGracefully);
    assert!(matches!(actions.last(), Some(ConnectionAction::Close)));
    assert!(actions.iter().any(|a| matches!(a, ConnectionAction::Write(ControlPacket::Disconnect(_)))));
}

#[test]
fn connection_read_timeout() {
    assert_eq!(read_timeout_secs(60), 90);
    assert_eq!(read_timeout_secs(0), 86400);
}

#[test]
fn engine_retained_only_for_new_subscription() {
    let mut b = Broker::new(Config::default());
    connect(&mut b, "pub", true);
    let _ = publish(&mut b, "pub", "home/temp", b"21", QoS::AtMostOnce, true);
    connect(&mut b, "sub", true);
    let mut f = filter("home/#", QoS::AtMostOnce);
    f.retain_handling = RetainHandling::SendOnNewSubscription;
    let (_, sent) = b.handle_subscribe("sub", vec![f.clone()], None, 0);
    assert_eq!(sent.len(), 1);
    let (granted, sent) = b.handle_subscribe("sub", vec![f], None, 0);
    assert_eq!(granted, vec![QoS::AtMostOnce]);
    assert!(sent.is_empty());
    // SendOnSubscribe sends again on a repeated subscription.
    let (_, sent) = b.handle_subscribe("sub", vec![filter("home/#", QoS::AtMostOnce)], None, 0);
    assert_eq!(sent.len(), 1);
}

#[test]
fn connection_qos2_id_is_released_by_pubrel() {
    let mut c = ConnectionState::new();
    let mut p = Publish::new("t".to_string(), b"x".to_vec());
    p.qos = QoS::ExactlyOnce;
    p.packet_id = Some(9);
    let first = c.process_packet(ControlPacket::Publish(p.clone())).expect("not a CONNECT");
    assert!(first.iter().any(|a| matches!(a, ConnectionAction::Forward(_))));
    let rel = c.process_packet(ControlPacket::PubRel(PubRel::success(9))).expect("not a CONNECT");
    assert!(rel
        .iter()
        .any(|a| matches!(a, ConnectionAction::Write(ControlPacket::PubComp(r)) if r.packet_id == 9)));
    let mut q = Publish::new("t".to_string(), b"y".to_vec());
    q.qos = QoS::ExactlyOnce;
    q.packet_id = Some(9);
    let again = c.process_packet(ControlPacket::Publish(q)).expect("not a CONNECT");
    assert!(again.iter().any(|a| matches!(a, ConnectionAction::Forward(_))));
}

#[test]
fn engine_packet_ids_are_non_zero_above_qos0() {
    let mut b = Broker::new(Config::default());
    connect(&mut b, "sub", true);
    connect(&mut b, "pub", true);
    let _ = b.handle_subscribe("sub", vec![filter("t", QoS::ExactlyOnce)], None, 0);
    for _ in 0..3 {
        let out = publish(&mut b, "pub", "t", b"x", QoS::AtLeastOnce, false);
        assert!(published(&out).iter().all(|d| d.4 != 0));
    }
}

#[test]
fn engine_connect_checks_credentials() {
    let mut config = Config::default();
    config.auth_mode = AuthMode::Basic;
    config.users.push(UserConfig { username: "u".to_string(), password: "p".to_string() });
    let mut b = Broker::new(config);
    assert!(b.handle_connect_with_credentials("c".to_string(), true, None, Some("u"), Some(b"bad")).is_none());
    // Refused: no session was made.
    assert_eq!(b.handle_unsubscribe("c", vec!["x".to_string()]), vec![false]);
    let _ = b.handle_subscribe("c", vec![filter("x", QoS::AtMostOnce)], None, 0);
    let out = b.handle_connect_with_credentials("c".to_string(), true, None, Some("u"), Some(b"p"));
    let out = out.expect("accepted");
    assert!(!out.session_present);
}

#[test]
fn engine_disconnect_time_fits_the_clock() {
    let mut b = Broker::new(Config::default());
    assert!(b.disconnect_time_fits("nobody", u64::MAX));
    let _ = b.handle_connect("c".to_string(), false, Some(10));
    assert!(b.disconnect_time_fits("c", u64::MAX - 10));
    assert!(!b.disconnect_time_fits("c", u64::MAX - 9));
    b.handle_disconnect("c", u64::MAX - 10);
    let _ = b.handle_connect("forever".to_string(), false, Some(0xFFFF_FFFF));
    assert!(b.disconnect_time_fits("forever", u64::MAX));
}

#[test]
fn connection_will_is_published_unless_disconnected() {
    let mut c = ConnectionState::new();
    assert!(c.will_request().is_none());
    c.will = Some(Will {
        topic: "status/c".to_string(),
        payload: b"gone".to_vec(),
        qos: QoS::AtLeastOnce,
        retain: true,
        properties: None,
    });
    match c.will_request() {
        Some(BrokerRequest::Publish { topic, payload, qos, retain, expiry_secs }) => {
            assert_eq!(topic, "status/c");
            assert_eq!(payload, b"gone".to_vec());
            assert_eq!(qos, QoS::AtLeastOnce);
            assert!(retain);
            assert_eq!(expiry_secs, None);
        }
        other => panic!("unexpected {:?}", other),
    }
    let _ = c.process_packet(ControlPacket::Disconnect(Disconnect::normal())).expect("not a CONNECT");
    assert!(c.will_request().is_none());
}
