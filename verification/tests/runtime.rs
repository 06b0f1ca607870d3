use bytes::{Bytes, BytesMut};
use pulse::auth::{AuthAclConfig, AuthAction, AuthConfig, AuthUserConfig, ConfiguredAuthenticator};
use pulse::config::BrokerConfig;
use pulse::connection::{
    CloseReason, ConnectOptions, ConnectionIdAllocator, ConnectionIdMap, TopicAliases,
    auth_failure_reason, close_reason_label, connack_capabilities, is_packet_parse_error,
    keep_alive_interval_ms, should_publish_will, validate_connect,
};
use pulse::delivery::{queue_offline_publish, retain_publish};
use pulse::flush::{connections_to_flush, part_deliveries, qos_name};
use pulse::gauges::{gauges, metrics_due};
use pulse::inflight::{next_packet_id, queue_pending_publish};
use pulse::message::{PendingPublish, is_message_expired, message_expires_at_ms};
use pulse::mqtt_codec::{fits_maximum_packet_size, fits_qos0_publish_fast, packet_size};
use pulse::netty::CodecError;
use pulse::packet::{
    ConnectPacket, MqttPacket, MqttProperty, PublishPacket, QoS, Subscription,
    SubscriptionOptions, Will,
};
use pulse::protocol::{
    BAD_AUTHENTICATION_METHOD, BAD_USER_NAME_OR_PASSWORD, CLIENT_IDENTIFIER_NOT_VALID,
    MALFORMED_PACKET, NOT_AUTHORIZED, PAYLOAD_FORMAT_INVALID, SUCCESS, TOPIC_NAME_INVALID,
};
use pulse::reason::{ack_packet, reason_properties};
use pulse::retained_message::RetainedMessage;
use pulse::retained_store::RetainedStore;
use pulse::session::{BrokerState, PersistenceChange, SessionEntry};
use pulse::subscription::{SubscriptionEntry, upsert_subscription};
use pulse::write::{BrokerWrite, PulseMqttCodec, preencoded_single_suback, suback_write};
use rs_netty::codec::{Encoder, MqttCodec};

fn packet() -> PublishPacket {
    PublishPacket {
        dup: false,
        qos: QoS::AtLeastOnce,
        retain: false,
        topic_name: "devices/value".to_string(),
        packet_id: None,
        properties: Vec::new(),
        payload: b"value".to_vec(),
    }
}

fn entry(client_id: &str, filter: &str) -> SubscriptionEntry {
    SubscriptionEntry {
        client_id: client_id.to_string(),
        filter: filter.to_string(),
        match_filter: filter.to_string(),
        shared_group: None,
        options: SubscriptionOptions::default(),
        subscription_identifier: None,
    }
}

fn exactly_once(filter: &str) -> Subscription {
    Subscription {
        topic_filter: filter.to_string(),
        options: SubscriptionOptions {
            maximum_qos: QoS::ExactlyOnce,
            ..SubscriptionOptions::default()
        },
    }
}

#[test]
fn broker_upsert_subscription_returns_updated_subscription_index() {
    let mut subscriptions = vec![entry("1", "devices/one"), entry("2", "devices/two")];

    let index =
        upsert_subscription(&mut subscriptions, "1", exactly_once("devices/one"), None).index;

    assert_eq!(index, 0);
    assert_eq!(subscriptions.len(), 2);
    assert_eq!(subscriptions[index].options.maximum_qos, QoS::ExactlyOnce);
}

#[test]
fn tests_upsert_subscription_returns_updated_subscription_index() {
    let mut subscriptions = vec![
        entry("client-one", "devices/one"),
        entry("client-two", "devices/two"),
    ];

    let upsert = upsert_subscription(
        &mut subscriptions,
        "client-one",
        exactly_once("devices/one"),
        Some(7),
    );

    assert_eq!(upsert.index, 0);
    assert!(!upsert.inserted);
    assert_eq!(subscriptions.len(), 2);
    assert_eq!(
        subscriptions[upsert.index].options.maximum_qos,
        QoS::ExactlyOnce
    );
    assert_eq!(subscriptions[upsert.index].subscription_identifier, Some(7));
}

#[test]
fn new_subscription_goes_to_the_end() {
    let mut subscriptions = vec![entry("client-one", "devices/one")];
    let upsert = upsert_subscription(
        &mut subscriptions,
        "client-two",
        exactly_once("$share/group/devices/one"),
        None,
    );
    assert_eq!(upsert.index, 1);
    assert!(upsert.inserted);
    assert_eq!(subscriptions[1].match_filter, "devices/one");
    assert_eq!(subscriptions[1].shared_group.as_deref(), Some("group"));
}

#[test]
fn queued_publishes_receive_stable_monotonic_sequences() {
    let mut session = SessionEntry::connected(60);

    assert!(queue_pending_publish(
        &mut session,
        &packet(),
        QoS::AtLeastOnce,
        false,
        None,
        None,
        10,
    ));
    assert!(queue_pending_publish(
        &mut session,
        &packet(),
        QoS::AtLeastOnce,
        false,
        None,
        None,
        10,
    ));

    assert_eq!(
        session
            .offline_queue
            .iter()
            .map(|queued| queued.sequence)
            .collect::<Vec<_>>(),
        vec![0, 1]
    );
    assert_eq!(session.next_offline_sequence, 2);
}

#[test]
fn queue_rejects_sequence_at_sql_integer_limit() {
    let mut session = SessionEntry::connected(60);
    session.next_offline_sequence = i64::MAX as u64;

    assert!(!queue_pending_publish(
        &mut session,
        &packet(),
        QoS::AtLeastOnce,
        false,
        None,
        None,
        10,
    ));
    assert!(session.offline_queue.is_empty());
    assert_eq!(session.next_offline_sequence, i64::MAX as u64);
}

#[test]
fn full_queue_takes_no_more() {
    let mut session = SessionEntry::connected(60);
    for count in 0..3 {
        assert_eq!(
            queue_pending_publish(
                &mut session,
                &packet(),
                QoS::AtLeastOnce,
                false,
                None,
                None,
                2,
            ),
            count < 2
        );
    }
}

#[test]
fn qos0_fast_size_check_matches_codec_for_plain_publish() {
    let packet = PublishPacket {
        dup: false,
        qos: QoS::AtMostOnce,
        retain: false,
        topic_name: "devices/a".to_string(),
        packet_id: None,
        properties: Vec::new(),
        payload: b"hello".to_vec(),
    };

    assert_eq!(
        fits_qos0_publish_fast(&packet, None, 32),
        fits_maximum_packet_size(&packet, 32)
    );
    assert_eq!(
        fits_qos0_publish_fast(&packet, None, 8),
        fits_maximum_packet_size(&packet, 8)
    );
}

#[test]
fn packet_sizes_are_those_of_the_wire() {
    assert_eq!(packet_size(&MqttPacket::PingReq), Some(2));
    let mut publish = packet();
    publish.qos = QoS::AtMostOnce;
    assert_eq!(packet_size(&MqttPacket::Publish(publish)), Some(23));
    let mut long = packet();
    long.qos = QoS::AtMostOnce;
    long.payload = vec![0; 200];
    assert_eq!(packet_size(&MqttPacket::Publish(long)), Some(219));
}

fn message(topic_name: &str, payload: &[u8]) -> RetainedMessage {
    RetainedMessage::new(
        QoS::AtMostOnce,
        topic_name.to_string(),
        Vec::new(),
        payload.to_vec(),
        None,
    )
}

#[test]
fn plain_qos0_message_precomputes_retained_publish_bytes() {
    let message = message("devices/a", b"hello");
    assert_eq!(
        message.preencoded_qos0.as_deref(),
        Some(&b"\x31\x11\x00\x09devices/a\x00hello"[..])
    );
}

#[test]
fn retained_message_with_properties_skips_plain_preencoding() {
    let message = RetainedMessage::new(
        QoS::AtMostOnce,
        "devices/a".to_string(),
        vec![MqttProperty::MessageExpiryInterval(60)],
        b"hello".to_vec(),
        Some(60_000),
    );

    assert!(message.preencoded_qos0.is_none());
}

#[test]
fn matches_exact_plus_hash_and_system_filters() {
    let mut store = RetainedStore::new();
    store.insert(
        "devices/a/temp".to_string(),
        message("devices/a/temp", b"a"),
    );
    store.insert(
        "devices/b/humidity".to_string(),
        message("devices/b/humidity", b"b"),
    );
    store.insert(
        "$SYS/broker/uptime".to_string(),
        message("$SYS/broker/uptime", b"sys"),
    );

    assert_eq!(store.matching("devices/a/temp", 0).len(), 1);
    assert_eq!(store.matching("devices/+/temp", 0).len(), 1);
    assert_eq!(store.matching("devices/#", 0).len(), 2);
    assert_eq!(store.matching("#", 0).len(), 2);
    assert_eq!(store.matching("$SYS/#", 0).len(), 1);
}

#[test]
fn matching_messages_come_in_the_order_of_their_levels() {
    let mut store = RetainedStore::new();
    for topic in ["b/a", "a/c", "a", "a/b/c"] {
        store.insert(topic.to_string(), message(topic, b"x"));
    }
    let topics: Vec<String> = store
        .matching("#", 0)
        .into_messages()
        .into_iter()
        .map(|message| message.topic_name)
        .collect();
    assert_eq!(topics, ["a", "a/b/c", "a/c", "b/a"]);
    assert!(store.matching("a/#/c", 0).is_empty());
    assert!(store.remove(&"a".to_string()).is_some());
    assert!(store.remove(&"a".to_string()).is_none());
    assert_eq!(store.len(), 3);
}

#[test]
fn expires_messages_lazily() {
    let mut store = RetainedStore::new();
    let mut retained = message("devices/expiring", b"x");
    retained.expires_at_ms = Some(10);
    store.insert("devices/expiring".to_string(), retained);

    assert_eq!(store.matching("devices/#", 9).len(), 1);
    assert!(store.matching("devices/#", 10).is_empty());
    assert_eq!(store.len(), 0);
    assert_eq!(store.payload_bytes(), 0);
}

fn retained_publish(topic_name: &str, payload: &[u8]) -> PublishPacket {
    PublishPacket {
        dup: false,
        qos: QoS::AtMostOnce,
        retain: true,
        topic_name: topic_name.to_string(),
        packet_id: None,
        properties: Vec::new(),
        payload: payload.to_vec(),
    }
}

#[test]
fn retain_publish_empty_payload_deletes_existing_message() {
    let mut state = BrokerState::new();
    let config = BrokerConfig::default();
    state.retained.insert(
        "devices/delete".to_string(),
        message("devices/delete", b"x"),
    );

    retain_publish(
        &mut state,
        &retained_publish("devices/delete", b""),
        &config,
        0,
    );

    assert!(state.retained.get(&"devices/delete".to_string()).is_none());
}

#[test]
fn enforces_message_and_payload_limits() {
    let mut state = BrokerState::new();
    let mut config = BrokerConfig::default();
    config.max_retained_messages = 1;
    config.max_retained_payload_bytes = 4;

    retain_publish(
        &mut state,
        &retained_publish("devices/one", b"1234"),
        &config,
        0,
    );
    retain_publish(
        &mut state,
        &retained_publish("devices/two", b"x"),
        &config,
        0,
    );
    retain_publish(
        &mut state,
        &retained_publish("devices/one", b"12345"),
        &config,
        0,
    );

    assert_eq!(state.retained.len(), 1);
    assert_eq!(
        state
            .retained
            .get(&"devices/one".to_string())
            .expect("retained")
            .payload,
        b"1234".to_vec()
    );
}

#[test]
fn persistence_changes_are_deduplicated_and_reset_wins() {
    let mut state = BrokerState::new();
    state.mark_client_changed("client-b".to_string());
    state.mark_client_reset("client-b".to_string());
    state.mark_client_changed("client-b".to_string());
    state.mark_client_changed("client-a".to_string());
    state.mark_retained_changed("topic/b".to_string());
    state.mark_retained_changed("topic/a".to_string());
    state.mark_retained_changed("topic/a".to_string());

    let expected = vec![
        PersistenceChange::ClientChanged("client-a".to_string()),
        PersistenceChange::ClientReset("client-b".to_string()),
        PersistenceChange::RetainedTopic("topic/a".to_string()),
        PersistenceChange::RetainedTopic("topic/b".to_string()),
    ];
    assert_eq!(state.persistence_changes(), expected);
    assert_eq!(state.persistence_changes(), expected);
    assert_eq!(state.take_persistence_changes(), expected);
    assert!(state.take_persistence_changes().is_empty());
}

#[test]
fn expiring_session_marks_client_for_projection_reset() {
    let mut state = BrokerState::new();
    state.sessions_by_client_id.insert(
        "expired".to_string(),
        SessionEntry::disconnected(60, Some(10)),
    );

    state.expire_sessions(10);

    assert!(
        !state
            .sessions_by_client_id
            .contains_key(&"expired".to_string())
    );
    assert_eq!(
        state.take_persistence_changes(),
        vec![PersistenceChange::ClientReset("expired".to_string())]
    );
}

#[test]
fn transient_session_is_not_marked_for_persistence() {
    let mut state = BrokerState::new();
    state
        .sessions_by_client_id
        .insert("transient".to_string(), SessionEntry::connected(0));

    state.mark_client_changed_if_durable("transient".to_string());

    assert!(state.take_persistence_changes().is_empty());
}

#[test]
fn packet_encoding_matches_mqtt_codec() {
    let mut expected = BytesMut::new();
    MqttCodec::new()
        .encode(
            rs_netty::codec::MqttPacket::Publish(rs_netty::codec::PublishPacket {
                dup: false,
                qos: rs_netty::codec::QoS::AtMostOnce,
                retain: true,
                topic_name: "devices/a".to_string(),
                packet_id: None,
                properties: Vec::new(),
                payload: Bytes::from_static(b"hello"),
            }),
            &mut expected,
        )
        .expect("encode mqtt packet");

    let actual = PulseMqttCodec::with_max_packet_size(1024)
        .encode(&BrokerWrite::packet(MqttPacket::Publish(retained_publish(
            "devices/a",
            b"hello",
        ))))
        .expect("encode broker write");

    assert_eq!(actual, expected.to_vec());
}

#[test]
fn preencoded_publish_is_appended_unchanged() {
    let bytes = b"\x31\x04\x00\x01a\x00".to_vec();

    let actual = PulseMqttCodec::with_max_packet_size(1024)
        .encode(&BrokerWrite::Preencoded {
            bytes: bytes.clone(),
            publish_qos: Some(QoS::AtMostOnce),
        })
        .expect("encode preencoded publish");

    assert_eq!(actual, bytes);
}

#[test]
fn preencoded_single_suback_uses_mqtt_wire_shape() {
    let actual = PulseMqttCodec::with_max_packet_size(1024)
        .encode(&preencoded_single_suback(7, 0))
        .expect("encode preencoded suback");

    assert_eq!(actual, b"\x90\x04\x00\x07\x00\x00".to_vec());
}

#[test]
fn long_writes_are_refused() {
    let codec = PulseMqttCodec::with_max_packet_size(4);
    assert!(matches!(
        codec.encode(&preencoded_single_suback(7, 0)),
        Err(CodecError::FrameTooLarge { current: 6, max: 4 })
    ));
    assert!(codec.encode(&BrokerWrite::packet(MqttPacket::Publish(packet()))).is_err());
    assert!(
        codec.decode(&[0xf0, 0x00]).is_err() || codec.decode(&[0x40, 0x02, 0x00, 0x00]).is_err(),
    );
}

#[test]
fn longer_subacks_are_packets() {
    let ack = pulse::packet::SubAckPacket {
        packet_id: 7,
        properties: Vec::new(),
        reason_codes: vec![0, 1],
    };
    assert!(matches!(suback_write(ack), BrokerWrite::Packet(_)));
}

#[test]
fn packet_identifiers_go_round_without_zero() {
    let mut session = SessionEntry::connected(0);
    session.next_packet_id = u16::MAX;
    assert_eq!(next_packet_id(&mut session), Some(u16::MAX));
    assert_eq!(next_packet_id(&mut session), Some(1));
    session.outbound_qos1.insert(
        2,
        PendingPublish {
            packet: packet(),
            expires_at_ms: None,
        },
    );
    assert_eq!(next_packet_id(&mut session), Some(3));
}

#[test]
fn message_expiry_counts_from_now() {
    let mut publish = packet();
    assert_eq!(message_expires_at_ms(&publish, 5), None);
    publish
        .properties
        .push(MqttProperty::MessageExpiryInterval(2));
    assert_eq!(message_expires_at_ms(&publish, 5), Some(2_005));
    assert_eq!(message_expires_at_ms(&publish, u64::MAX), Some(u64::MAX));
    assert!(is_message_expired(Some(5), 5));
    assert!(!is_message_expired(Some(6), 5));
    assert!(!is_message_expired(None, 5));
}

fn rules() -> ConfiguredAuthenticator {
    ConfiguredAuthenticator::new(AuthConfig {
        enabled: true,
        users: vec![AuthUserConfig {
            username: "alice".to_string(),
            password: "secret".to_string(),
        }],
        acl: vec![
            AuthAclConfig {
                username: "alice".to_string(),
                action: AuthAction::Publish,
                topic_filter: "devices/alice/#".to_string(),
            },
            AuthAclConfig {
                username: "alice".to_string(),
                action: AuthAction::Subscribe,
                topic_filter: "devices/+/temp".to_string(),
            },
        ],
    })
}

#[test]
fn permissions_are_denied_by_default() {
    let rules = rules();
    let alice = Some("alice".to_string());
    assert!(rules.authorize_publish(&alice, "devices/alice/temp"));
    assert!(!rules.authorize_publish(&alice, "devices/bob/temp"));
    assert!(!rules.authorize_publish(&None, "devices/alice/temp"));
    assert!(rules.authorize_subscribe(&alice, "devices/bob/temp"));
    assert!(rules.authorize_subscribe(&alice, "devices/+/temp"));
    assert!(!rules.authorize_subscribe(&alice, "devices/#"));
    assert!(!rules.authorize_subscribe(&alice, "devices/+/+"));
}

#[test]
fn passwords_are_compared_as_text() {
    let rules = rules();
    let alice = Some("alice".to_string());
    let found = rules
        .authenticate(&alice, &Some(b"secret".to_vec()))
        .expect("known user");
    assert_eq!(found.principal.as_deref(), Some("alice"));
    for password in [b"wrong".to_vec(), vec![0xff], Vec::new()] {
        assert!(matches!(
            rules.authenticate(&alice, &Some(password)),
            Err(BAD_USER_NAME_OR_PASSWORD)
        ));
    }
    assert!(rules.authenticate(&alice, &None).is_err());
    assert!(rules.authenticate(&None, &None).is_err());
}

fn connect_packet(client_id: &str) -> ConnectPacket {
    ConnectPacket {
        clean_start: true,
        keep_alive: 60,
        properties: Vec::new(),
        client_id: client_id.to_string(),
        will: None,
        username: None,
        password: None,
    }
}

#[test]
fn connect_packets_are_checked() {
    assert_eq!(validate_connect(&connect_packet("client")), None);
    let mut anonymous = connect_packet("");
    assert_eq!(validate_connect(&anonymous), None);
    anonymous.clean_start = false;
    assert_eq!(
        validate_connect(&anonymous),
        Some(CLIENT_IDENTIFIER_NOT_VALID)
    );
    assert_eq!(
        validate_connect(&connect_packet("a\0b")),
        Some(MALFORMED_PACKET)
    );
    let mut willing = connect_packet("client");
    willing.will = Some(Will {
        qos: QoS::AtMostOnce,
        retain: false,
        properties: vec![MqttProperty::PayloadFormatIndicator(2)],
        topic: "a".to_string(),
        payload: Vec::new(),
    });
    assert_eq!(validate_connect(&willing), Some(PAYLOAD_FORMAT_INVALID));
    willing.will = Some(Will {
        qos: QoS::AtMostOnce,
        retain: false,
        properties: Vec::new(),
        topic: "a/#".to_string(),
        payload: Vec::new(),
    });
    assert_eq!(validate_connect(&willing), Some(TOPIC_NAME_INVALID));
    for (property, reason_code) in [
        (MqttProperty::ReceiveMaximum(0), MALFORMED_PACKET),
        (MqttProperty::MaximumPacketSize(0), MALFORMED_PACKET),
        (MqttProperty::RequestProblemInformation(2), MALFORMED_PACKET),
        (MqttProperty::RequestResponseInformation(2), MALFORMED_PACKET),
        (
            MqttProperty::AuthenticationData(vec![1]),
            BAD_AUTHENTICATION_METHOD,
        ),
    ] {
        let mut packet = connect_packet("client");
        packet.properties.push(property);
        assert_eq!(validate_connect(&packet), Some(reason_code));
    }
}

#[test]
fn connect_options_have_defaults() {
    let options = ConnectOptions::from_properties(true, &Vec::new());
    assert_eq!(options.session_expiry_interval, 0);
    assert_eq!(options.receive_maximum, u16::MAX);
    assert_eq!(options.maximum_packet_size, u32::MAX);
    let options = ConnectOptions::from_properties(
        false,
        &vec![
            MqttProperty::SessionExpiryInterval(60),
            MqttProperty::ReceiveMaximum(3),
            MqttProperty::MaximumPacketSize(40),
            MqttProperty::ReceiveMaximum(4),
        ],
    );
    assert!(!options.clean_start);
    assert_eq!(options.session_expiry_interval, 60);
    assert_eq!(options.receive_maximum, 3);
    assert_eq!(options.maximum_packet_size, 40);
}

#[test]
fn capabilities_are_announced() {
    let properties = connack_capabilities(&BrokerConfig::default());
    assert_eq!(
        properties,
        vec![
            MqttProperty::ReceiveMaximum(1024),
            MqttProperty::MaximumPacketSize(16 * 1024 * 1024),
            MqttProperty::TopicAliasMaximum(1024),
            MqttProperty::MaximumQoS(2),
            MqttProperty::RetainAvailable(1),
            MqttProperty::WildcardSubscriptionAvailable(1),
            MqttProperty::SubscriptionIdentifierAvailable(1),
            MqttProperty::SharedSubscriptionAvailable(1),
        ]
    );
}

#[test]
fn topic_aliases_stand_for_topics() {
    let mut aliases = TopicAliases::new(2);
    let aliased = |topic: &str, alias: u16| {
        let mut publish = packet();
        publish.topic_name = topic.to_string();
        publish.properties.push(MqttProperty::TopicAlias(alias));
        publish
    };
    assert!(!aliases.resolve_publish(&mut aliased("", 1)));
    assert!(aliases.resolve_publish(&mut aliased("devices/a", 1)));
    let mut short = aliased("", 1);
    assert!(aliases.resolve_publish(&mut short));
    assert_eq!(short.topic_name, "devices/a");
    assert!(!aliases.resolve_publish(&mut aliased("devices/a", 0)));
    assert!(!aliases.resolve_publish(&mut aliased("devices/a", 3)));
}

#[test]
fn listeners_share_connection_numbers() {
    let mut allocator = ConnectionIdAllocator::new();
    let mut mqtt = ConnectionIdMap::allocated();
    let mut websocket = ConnectionIdMap::allocated();
    assert_eq!(mqtt.broker_id(&mut allocator, 7), 1);
    assert_eq!(websocket.broker_id(&mut allocator, 7), 2);
    assert_eq!(mqtt.broker_id(&mut allocator, 7), 1);
    assert_eq!(mqtt.remove(7), Some(1));
    assert_eq!(mqtt.remove(7), None);
    assert_eq!(mqtt.broker_id(&mut allocator, 7), 3);
    let mut own = ConnectionIdMap::Identity;
    assert_eq!(own.broker_id(&mut allocator, 9), 9);
    assert_eq!(own.remove(9), Some(9));
}

#[test]
fn close_reasons_decide_on_the_will() {
    assert!(should_publish_will(CloseReason::PeerClosed));
    assert!(!should_publish_will(CloseReason::ServerShutdown));
    assert!(is_packet_parse_error(CloseReason::FrameTooLarge));
    assert!(!is_packet_parse_error(CloseReason::IoError));
    assert_eq!(close_reason_label(CloseReason::IdleTimeout), "idle_timeout");
    assert_eq!(
        auth_failure_reason(BAD_AUTHENTICATION_METHOD),
        "bad_authentication_method"
    );
    assert_eq!(keep_alive_interval_ms(60), 90_000);
}

#[test]
fn acknowledgements_explain_failures() {
    let ack = ack_packet(3, NOT_AUTHORIZED);
    assert_eq!(ack.packet_id, 3);
    assert_eq!(
        ack.properties,
        vec![MqttProperty::ReasonString("not authorized".to_string())]
    );
    assert!(ack_packet(3, SUCCESS).properties.is_empty());
    assert_eq!(reason_properties(SUCCESS), Vec::new());
}

#[test]
fn counts_are_told_at_most_once_a_second() {
    assert!(metrics_due(0, 1_000));
    assert!(!metrics_due(1, 1_000));
    assert!(!metrics_due(2_000, 1_000));
    let mut state = BrokerState::new();
    let mut session = SessionEntry::connected(60);
    assert!(queue_pending_publish(
        &mut session,
        &packet(),
        QoS::AtLeastOnce,
        false,
        None,
        None,
        10,
    ));
    session.outbound_qos2_pubrel.insert(9, ());
    state
        .sessions_by_client_id
        .insert("client".to_string(), session);
    state.qos2_inflight.insert(
        (1, 2),
        PendingPublish {
            packet: packet(),
            expires_at_ms: None,
        },
    );
    let counts = gauges(&state);
    assert_eq!(counts.session_queue, 1);
    assert_eq!(counts.qos1_inflight, 0);
    assert_eq!(counts.qos2_inflight, 2);
}

#[test]
fn flushes_go_to_each_connection_once() {
    assert_eq!(connections_to_flush(&vec![3, 1, 3, 2, 1]), vec![3, 1, 2]);
    assert_eq!(qos_name(QoS::ExactlyOnce), "2");
    let delivery = |connection_id: u64| pulse::delivery::Delivery {
        connection_id,
        packet: preencoded_single_suback(1, 0),
    };
    let (own, others) = part_deliveries(vec![delivery(1), delivery(2), delivery(1)], 1);
    assert_eq!(own.len(), 2);
    assert_eq!(others.len(), 1);
    assert_eq!(others[0].connection_id, 2);
}

#[test]
fn offline_sessions_queue_only_what_outlasts_them() {
    let mut state = BrokerState::new();
    state
        .sessions_by_client_id
        .insert("client".to_string(), SessionEntry::disconnected(60, None));
    let mut subscription = entry("client", "devices/value");
    assert!(!queue_offline_publish(&mut state, &subscription, &packet(), 10, 0));
    subscription.options.maximum_qos = QoS::AtLeastOnce;
    assert!(queue_offline_publish(&mut state, &subscription, &packet(), 10, 0));
    assert!(
        !queue_offline_publish(&mut state, &entry("stranger", "devices/value"), &packet(), 10, 0),
    );
}
