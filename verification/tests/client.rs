use rustmq::client::{
    disconnect_packet, handshake_outcome, ping_interval_secs, publish_waits_for, qos_from_arg, version_from_arg,
    ClientAction,
    ClientBuilder, ClientState, HandshakeOutcome, Waiting,
};
use rustmq::packet::connect::{ConnAck, ConnectReason};
use rustmq::packet::puback::{PubAck, PubComp, PubRec, PubRel};
use rustmq::packet::publish::Publish;
use rustmq::packet::{ControlPacket, PingResp};
use rustmq::version::ProtocolVersion;
use rustmq::QoS;

fn state() -> ClientState {
    let b = ClientBuilder::new("127.0.0.1".to_string(), 1883)
        .client_id("c1".to_string())
        .keep_alive(30)
        .version(ProtocolVersion::V311);
    ClientState::new(&b)
}

#[test]
fn client_builder_defaults() {
    let b = ClientBuilder::new("localhost".to_string(), 1883);
    assert_eq!(b.client_id, "");
    assert!(b.clean_start);
    assert_eq!(b.keep_alive, 60);
    assert_eq!(b.version, ProtocolVersion::V500);
    let b = b.credentials("u".to_string(), b"p".to_vec()).clean_start(false);
    assert_eq!(b.username.as_deref(), Some("u"));
    assert_eq!(b.password.as_deref(), Some(&b"p"[..]));
    assert!(!b.clean_start);
}

#[test]
fn client_connect_packet_carries_settings() {
    let s = state();
    let c = s.connect_packet();
    assert_eq!(c.client_id, "c1");
    assert_eq!(c.keep_alive, 30);
    assert!(c.clean_start);
    assert!(c.will.is_none());
}

#[test]
fn client_qos1_publish_waits_for_puback() {
    let mut s = state();
    let p = s.publish_packet("t".to_string(), b"x".to_vec(), QoS::AtLeastOnce, false);
    assert_eq!(p.packet_id, Some(1));
    // An acknowledgement of another identifier completes nothing.
    assert!(s.process_packet(ControlPacket::PubAck(PubAck::success(2))).is_empty());
    let acts = s.process_packet(ControlPacket::PubAck(PubAck::success(1)));
    assert!(matches!(acts.as_slice(), [ClientAction::Complete(Waiting::PubAck)]));
    assert_eq!(s.pending_puback, None);
}

#[test]
fn client_qos0_publish_takes_no_identifier() {
    let mut s = state();
    let p = s.publish_packet("t".to_string(), b"x".to_vec(), QoS::AtMostOnce, true);
    assert_eq!(p.packet_id, None);
    assert!(p.retain);
    assert_eq!(s.next_packet_id, 1);
}

#[test]
fn client_qos2_exchange() {
    let mut s = state();
    let p = s.publish_packet("t".to_string(), b"x".to_vec(), QoS::ExactlyOnce, false);
    let id = p.packet_id.unwrap();
    let acts = s.process_packet(ControlPacket::PubRec(PubRec::success(id)));
    assert!(matches!(acts.as_slice(), [ClientAction::Write(ControlPacket::PubRel(r))] if r.packet_id == id));
    let acts = s.process_packet(ControlPacket::PubComp(PubComp::success(id)));
    assert!(matches!(acts.as_slice(), [ClientAction::Complete(Waiting::PubComp)]));
}

#[test]
fn client_incoming_publish_is_delivered_and_acknowledged() {
    let mut s = state();
    let mut p = Publish::new("news".to_string(), b"hello".to_vec());
    p.qos = QoS::ExactlyOnce;
    p.packet_id = Some(42);
    let acts = s.process_packet(ControlPacket::Publish(p));
    assert_eq!(acts.len(), 2);
    match &acts[0] {
        ClientAction::Deliver(m) => {
            assert_eq!(m.topic, "news");
            assert_eq!(m.payload, b"hello".to_vec());
            assert_eq!(m.qos, QoS::ExactlyOnce);
        }
        other => panic!("unexpected action {:?}", other),
    }
    assert!(matches!(&acts[1], ClientAction::Write(ControlPacket::PubRec(r)) if r.packet_id == 42));
    let acts = s.process_packet(ControlPacket::PubRel(PubRel::success(42)));
    assert!(matches!(acts.as_slice(), [ClientAction::Write(ControlPacket::PubComp(r))] if r.packet_id == 42));
}

#[test]
fn client_subscribe_and_unsubscribe_wait_for_acks() {
    let mut s = state();
    let sub = s.subscribe_packet("a/#".to_string(), QoS::AtLeastOnce);
    assert_eq!(sub.packet_id, 1);
    assert_eq!(sub.filters.len(), 1);
    assert_eq!(s.pending_sub, Some(1));
    let unsub = s.unsubscribe_packet("a/#".to_string());
    assert_eq!(unsub.packet_id, 2);
    assert_eq!(s.pending_unsub, Some(2));
}

#[test]
fn client_packet_ids_wrap_to_one() {
    let mut s = state();
    s.next_packet_id = u16::MAX;
    assert_eq!(s.get_next_packet_id(), u16::MAX);
    assert_eq!(s.get_next_packet_id(), 1);
}

#[test]
fn client_handshake_outcomes() {
    let ok = ControlPacket::ConnAck(ConnAck {
        session_present: false,
        reason_code: ConnectReason::Success,
        properties: None,
    });
    assert_eq!(handshake_outcome(&ok), HandshakeOutcome::Accepted);
    let no = ControlPacket::ConnAck(ConnAck {
        session_present: false,
        reason_code: ConnectReason::NotAuthorized,
        properties: None,
    });
    assert_eq!(handshake_outcome(&no), HandshakeOutcome::Rejected(ConnectReason::NotAuthorized));
    assert_eq!(handshake_outcome(&ControlPacket::PingResp(PingResp)), HandshakeOutcome::Unexpected);
}

#[test]
fn client_ping_interval_and_disconnect() {
    assert_eq!(ping_interval_secs(15), 15);
    assert_eq!(ping_interval_secs(0), 86400);
    let d = disconnect_packet();
    assert!(d.properties.is_none());
}

#[test]
fn client_command_line_arguments() {
    assert_eq!(version_from_arg("3"), ProtocolVersion::V311);
    assert_eq!(version_from_arg("3.1.1"), ProtocolVersion::V311);
    assert_eq!(version_from_arg("5"), ProtocolVersion::V500);
    assert_eq!(version_from_arg("4"), ProtocolVersion::V500);
    assert_eq!(qos_from_arg(0), QoS::AtMostOnce);
    assert_eq!(qos_from_arg(1), QoS::AtLeastOnce);
    assert_eq!(qos_from_arg(2), QoS::ExactlyOnce);
    assert_eq!(qos_from_arg(7), QoS::AtMostOnce);
}

#[test]
fn client_publish_waits_by_qos() {
    assert_eq!(publish_waits_for(QoS::AtMostOnce), None);
    assert_eq!(publish_waits_for(QoS::AtLeastOnce), Some(Waiting::PubAck));
    assert_eq!(publish_waits_for(QoS::ExactlyOnce), Some(Waiting::PubComp));
}
