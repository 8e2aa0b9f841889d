use bytes::BytesMut;
use rustmq::codec::frame::encode_packet;
use rustmq::codec::{decode, encode};
use rustmq::packet::auth::{Auth, AuthReason};
use rustmq::packet::connect::{ConnAck, Connect, ConnectReason, Will};
use rustmq::packet::disconnect::{Disconnect, DisconnectReason};
use rustmq::packet::ping::{PingReq, PingResp};
use rustmq::packet::puback::{PubAck, PubRec, PubReason};
use rustmq::packet::publish::Publish;
use rustmq::packet::subscribe::{RetainHandling, SubAck, SubAckReason, Subscribe, SubscriptionFilter};
use rustmq::packet::unsubscribe::{UnsubAck, UnsubAckReason, Unsubscribe};
use rustmq::packet::ControlPacket;
use rustmq::properties::{
    read_binary_data, read_utf8_string, read_variable_length, write_binary_data, write_utf8_string,
    write_variable_length, Properties,
};
use rustmq::{Error, ProtocolVersion, QoS};

fn roundtrip(packet: ControlPacket, version: ProtocolVersion) -> ControlPacket {
    let mut buf = BytesMut::new();
    encode(&packet, version, &mut buf);
    decode(&mut buf, Some(version)).expect("decode error").expect("incomplete")
}

#[test]
fn roundtrip_connect_v311() {
    let pkt = ControlPacket::Connect(Connect {
        client_id: "test-client".into(),
        clean_start: true,
        keep_alive: 60,
        username: Some("user".into()),
        password: Some(b"pass".to_vec()),
        will: None,
        properties: None,
    });
    assert_eq!(roundtrip(pkt.clone(), ProtocolVersion::V311), pkt);
}

#[test]
fn roundtrip_connect_v5_with_will() {
    let mut props = Properties::new();
    props.session_expiry_interval = Some(3600);
    props.receive_maximum = Some(10);

    let mut will_props = Properties::new();
    will_props.will_delay_interval = Some(30);

    let pkt = ControlPacket::Connect(Connect {
        client_id: "v5-client".into(),
        clean_start: false,
        keep_alive: 120,
        username: None,
        password: None,
        will: Some(Will {
            topic: "devices/v5-client/status".into(),
            payload: b"offline".to_vec(),
            qos: QoS::AtLeastOnce,
            retain: true,
            properties: Some(will_props),
        }),
        properties: Some(props),
    });
    assert_eq!(roundtrip(pkt.clone(), ProtocolVersion::V500), pkt);
}

#[test]
fn roundtrip_connack_v311() {
    let pkt = ControlPacket::ConnAck(ConnAck {
        session_present: false,
        reason_code: ConnectReason::Success,
        properties: None,
    });
    assert_eq!(roundtrip(pkt.clone(), ProtocolVersion::V311), pkt);
}

#[test]
fn roundtrip_connack_v5() {
    let mut props = Properties::new();
    props.assigned_client_identifier = Some("server-assigned-id".into());
    props.server_keep_alive = Some(30);
    props.shared_subscription_available = Some(true);

    let pkt = ControlPacket::ConnAck(ConnAck {
        session_present: true,
        reason_code: ConnectReason::Success,
        properties: Some(props),
    });
    assert_eq!(roundtrip(pkt.clone(), ProtocolVersion::V500), pkt);
}

#[test]
fn roundtrip_publish_qos0() {
    let pkt = ControlPacket::Publish(Publish::new("a/b/c".to_string(), b"hello".to_vec()));
    assert_eq!(roundtrip(pkt.clone(), ProtocolVersion::V311), pkt);
}

#[test]
fn roundtrip_publish_qos1_v5() {
    let mut props = Properties::new();
    props.message_expiry_interval = Some(60);
    props.response_topic = Some("replies/here".into());
    props.user_properties.push(("unit".into(), "celsius".into()));

    let pkt = ControlPacket::Publish(Publish {
        dup: false,
        qos: QoS::AtLeastOnce,
        retain: false,
        topic: "sensors/temp".into(),
        packet_id: Some(42),
        payload: b"22.5".to_vec(),
        properties: Some(props),
    });
    assert_eq!(roundtrip(pkt.clone(), ProtocolVersion::V500), pkt);
}

#[test]
fn roundtrip_puback_v311() {
    let pkt = ControlPacket::PubAck(PubAck::success(7));
    assert_eq!(roundtrip(pkt.clone(), ProtocolVersion::V311), pkt);
}

#[test]
fn roundtrip_subscribe_v5_options() {
    let pkt = ControlPacket::Subscribe(Subscribe {
        packet_id: 3,
        filters: vec![
            SubscriptionFilter {
                topic_filter: "sensors/#".into(),
                qos: QoS::AtLeastOnce,
                no_local: true,
                retain_as_published: true,
                retain_handling: RetainHandling::SendOnNewSubscription,
            },
            SubscriptionFilter::new("alerts/+".to_string(), QoS::ExactlyOnce),
        ],
        properties: None,
    });
    assert_eq!(roundtrip(pkt.clone(), ProtocolVersion::V500), pkt);
}

#[test]
fn roundtrip_pingreq() {
    let pkt = ControlPacket::PingReq(PingReq);
    assert_eq!(roundtrip(pkt.clone(), ProtocolVersion::V311), pkt);
}

#[test]
fn roundtrip_pingresp() {
    let pkt = ControlPacket::PingResp(PingResp);
    assert_eq!(roundtrip(pkt.clone(), ProtocolVersion::V500), pkt);
}

#[test]
fn roundtrip_disconnect_v311() {
    let pkt = ControlPacket::Disconnect(Disconnect::normal());
    assert_eq!(roundtrip(pkt.clone(), ProtocolVersion::V311), pkt);
}

#[test]
fn roundtrip_disconnect_v5_reason() {
    let mut props = Properties::new();
    props.reason_string = Some("server shutting down".into());

    let pkt = ControlPacket::Disconnect(Disconnect {
        reason_code: DisconnectReason::ServerShuttingDown,
        properties: Some(props),
    });
    assert_eq!(roundtrip(pkt.clone(), ProtocolVersion::V500), pkt);
}

#[test]
fn roundtrip_auth() {
    let mut props = Properties::new();
    props.authentication_method = Some("SCRAM-SHA-256".into());
    props.authentication_data = Some(b"challenge-bytes".to_vec());

    let pkt = ControlPacket::Auth(Auth {
        reason_code: AuthReason::ContinueAuthentication,
        properties: Some(props),
    });
    assert_eq!(roundtrip(pkt.clone(), ProtocolVersion::V500), pkt);
}

#[test]
fn incomplete_returns_none() {
    let mut buf = BytesMut::from(&[0x30u8, 0x05][..]); // PUBLISH, remaining=5, no data yet
    let result = decode(&mut buf, Some(ProtocolVersion::V311)).unwrap();
    assert!(result.is_none());
    assert_eq!(&buf[..], &[0x30u8, 0x05][..]);
}

#[test]
fn roundtrip_variable_length() {
    for &value in &[0usize, 127, 128, 16_383, 16_384, 2_097_151, 268_435_455] {
        let mut buf = BytesMut::new();
        write_variable_length(&mut buf, value);
        let (decoded, used) = read_variable_length(&buf).unwrap();
        assert_eq!(value, decoded, "roundtrip failed for {}", value);
        assert_eq!(used, buf.len());
    }
}

#[test]
fn roundtrip_properties() {
    let mut props = Properties::new();
    props.message_expiry_interval = Some(3600);
    props.response_topic = Some("reply/here".into());
    props.user_properties.push(("unit".into(), "celsius".into()));
    props.user_properties.push(("sensor".into(), "A1".into()));
    props.receive_maximum = Some(20);
    props.session_expiry_interval = Some(300);

    let mut buf = BytesMut::new();
    props.encode(&mut buf);

    let (decoded, used) = Properties::decode(&buf).unwrap();
    assert_eq!(props, decoded);
    assert_eq!(used, buf.len());
}

#[test]
fn encoded_bytes_of_pingreq_and_puback() {
    let mut buf = BytesMut::new();
    encode(&ControlPacket::PingReq(PingReq), ProtocolVersion::V311, &mut buf);
    assert_eq!(&buf[..], &[0xC0u8, 0x00][..]);
    let mut buf = BytesMut::new();
    encode(&ControlPacket::PubAck(PubAck::success(0x0107)), ProtocolVersion::V311, &mut buf);
    assert_eq!(&buf[..], &[0x40u8, 0x02, 0x01, 0x07][..]);
    let mut buf = BytesMut::new();
    encode(&ControlPacket::PubAck(PubAck::success(7)), ProtocolVersion::V500, &mut buf);
    assert_eq!(&buf[..], &[0x40u8, 0x04, 0x00, 0x07, 0x00, 0x00][..]);
}

#[test]
fn decode_consumes_one_frame_and_keeps_the_rest() {
    let mut buf = BytesMut::new();
    encode(&ControlPacket::PingReq(PingReq), ProtocolVersion::V311, &mut buf);
    encode(&ControlPacket::PubAck(PubAck::success(9)), ProtocolVersion::V311, &mut buf);
    let first = decode(&mut buf, Some(ProtocolVersion::V311)).unwrap().unwrap();
    assert_eq!(first, ControlPacket::PingReq(PingReq));
    assert_eq!(buf.len(), 4);
    let second = decode(&mut buf, Some(ProtocolVersion::V311)).unwrap().unwrap();
    assert_eq!(second, ControlPacket::PubAck(PubAck::success(9)));
    assert_eq!(buf.len(), 0);
}

#[test]
fn connect_decodes_before_version_is_known() {
    let pkt = ControlPacket::Connect(Connect {
        client_id: "c".into(),
        clean_start: true,
        keep_alive: 0,
        username: None,
        password: None,
        will: None,
        properties: Some(Properties::new()),
    });
    let mut buf = BytesMut::new();
    encode(&pkt, ProtocolVersion::V500, &mut buf);
    assert_eq!(decode(&mut buf, None).unwrap().unwrap(), pkt);
}

#[test]
fn unknown_packet_type_is_rejected() {
    let mut buf = BytesMut::from(&[0x00u8, 0x00][..]);
    assert_eq!(decode(&mut buf, Some(ProtocolVersion::V311)), Err(Error::UnknownPacketType(0)));
    assert_eq!(buf.len(), 0);
}

#[test]
fn malformed_remaining_length_is_rejected() {
    let mut buf = BytesMut::from(&[0x30u8, 0xFF, 0xFF, 0xFF, 0xFF, 0x01][..]);
    assert_eq!(decode(&mut buf, Some(ProtocolVersion::V311)), Err(Error::MalformedRemainingLength));
    assert_eq!(buf.len(), 6);
}

#[test]
fn too_large_frame_is_rejected() {
    // Remaining length 16777216 (0x80 0x80 0x80 0x08) plus five header bytes.
    let mut buf = BytesMut::from(&[0x30u8, 0x80, 0x80, 0x80, 0x08][..]);
    assert_eq!(
        decode(&mut buf, Some(ProtocolVersion::V311)),
        Err(Error::PacketTooLarge(16_777_221))
    );
}

#[test]
fn zero_packet_id_is_rejected() {
    let mut buf = BytesMut::from(&[0x40u8, 0x02, 0x00, 0x00][..]);
    assert_eq!(decode(&mut buf, Some(ProtocolVersion::V311)), Err(Error::ZeroPacketId));
}

#[test]
fn bad_protocol_name_and_level_are_rejected() {
    let mut buf = BytesMut::from(&[0x10u8, 0x06, 0x00, 0x04, b'M', b'Q', b'T', b'X'][..]);
    assert_eq!(decode(&mut buf, None), Err(Error::InvalidProtocolName("MQTX".to_string())));
    let mut buf = BytesMut::from(&[0x10u8, 0x07, 0x00, 0x04, b'M', b'Q', b'T', b'T', 0x03][..]);
    assert_eq!(decode(&mut buf, None), Err(Error::UnsupportedProtocolVersion(3)));
}

#[test]
fn publish_qos3_is_rejected() {
    let mut buf = BytesMut::from(&[0x36u8, 0x03, 0x00, 0x01, b'a'][..]);
    assert_eq!(decode(&mut buf, Some(ProtocolVersion::V311)), Err(Error::InvalidQoS(3)));
}

#[test]
fn cut_fixed_field_is_malformed() {
    // A PUBACK whose body holds one byte of its two-byte packet identifier.
    let mut buf = BytesMut::from(&[0x40u8, 0x01, 0x05, 0xC0][..]);
    assert!(matches!(decode(&mut buf, Some(ProtocolVersion::V311)), Err(Error::MalformedPayload(_))));
    // The frame is consumed; the PINGREQ-sized rest stays.
    assert_eq!(&buf[..], &[0xC0u8][..]);
    // A PUBACK with no packet identifier at all.
    let mut buf = BytesMut::from(&[0x40u8, 0x00][..]);
    assert!(matches!(decode(&mut buf, Some(ProtocolVersion::V311)), Err(Error::MalformedPayload(_))));
    let mut whole = BytesMut::from(&[0x40u8, 0x02, 0x00, 0x05][..]);
    assert!(matches!(decode(&mut whole, Some(ProtocolVersion::V311)), Ok(Some(ControlPacket::PubAck(_)))));
}

#[test]
fn cut_properties_section_is_incomplete() {
    // Property length 5, but only two bytes follow.
    assert!(matches!(Properties::decode(&[0x05u8, 0x01, 0x01][..]), Err(Error::Incomplete)));
    // A one-byte section holding a property identifier without its value.
    assert!(matches!(Properties::decode(&[0x01u8, 0x01][..]), Err(Error::Incomplete)));
}

#[test]
fn roundtrip_acks_and_unsubscribe() {
    let pkt = ControlPacket::PubRec(PubRec {
        packet_id: 11,
        reason_code: PubReason::NoMatchingSubscribers,
        properties: Some(Properties::new()),
    });
    assert_eq!(roundtrip(pkt.clone(), ProtocolVersion::V500), pkt);
    let pkt = ControlPacket::SubAck(SubAck {
        packet_id: 3,
        reason_codes: vec![SubAckReason::GrantedQoS1, SubAckReason::NotAuthorized],
        properties: None,
    });
    assert_eq!(roundtrip(pkt.clone(), ProtocolVersion::V311), pkt);
    let pkt = ControlPacket::Unsubscribe(Unsubscribe {
        packet_id: 4,
        filters: vec!["a/b".into(), "c/#".into()],
        properties: None,
    });
    assert_eq!(roundtrip(pkt.clone(), ProtocolVersion::V311), pkt);
    let pkt = ControlPacket::UnsubAck(UnsubAck {
        packet_id: 4,
        reason_codes: vec![UnsubAckReason::Success, UnsubAckReason::NoSubscriptionExisted],
        properties: Some(Properties::new()),
    });
    assert_eq!(roundtrip(pkt.clone(), ProtocolVersion::V500), pkt);
}

#[test]
fn packet_type_names() {
    assert_eq!(ControlPacket::PingReq(PingReq).packet_type_name(), "PINGREQ");
    assert_eq!(ControlPacket::PubAck(PubAck::success(1)).packet_type_name(), "PUBACK");
}

#[test]
fn string_and_binary_fields_are_length_prefixed() {
    let mut buf = BytesMut::from(&b"x"[..]);
    write_utf8_string(&mut buf, "h\u{e9}");
    write_binary_data(&mut buf, &[7, 8, 9]);
    assert_eq!(&buf[..], &[b'x', 0, 3, b'h', 0xC3, 0xA9, 0, 3, 7, 8, 9][..]);
    let (s, used) = read_utf8_string(&buf[1..]).unwrap();
    assert_eq!(s, "h\u{e9}");
    assert_eq!(used, 5);
    let (b, used) = read_binary_data(&buf[6..]).unwrap();
    assert_eq!(b, vec![7, 8, 9]);
    assert_eq!(used, 5);
}

#[test]
fn encoded_len_is_what_encode_appends() {
    let mut props = Properties::new();
    props.content_type = Some("text/plain".into());
    props.topic_alias = Some(3);
    let mut buf = BytesMut::from(&b"ab"[..]);
    props.encode(&mut buf);
    assert_eq!(props.encoded_len(), buf.len() - 2);
    assert_eq!(&buf[..2], &b"ab"[..]);
    let mut v: Vec<u8> = Vec::new();
    props.encode_into(&mut v);
    assert_eq!(&v[..], &buf[2..]);
}

#[test]
fn encode_packet_is_the_frame_encode_appends() {
    let pkt = ControlPacket::PubAck(PubAck { packet_id: 7, reason_code: PubReason::Success, properties: None });
    let mut buf = BytesMut::new();
    encode(&pkt, ProtocolVersion::V311, &mut buf);
    assert_eq!(encode_packet(&pkt, ProtocolVersion::V311), buf.to_vec());
}
