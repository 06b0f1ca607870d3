//! Sequences of broker operations and what they come to.
use pulse::auth::ConfiguredAuthenticator;
use pulse::broker::Broker;
use pulse::config::BrokerConfig;
use pulse::connection::ConnectOptions;
use pulse::delivery::Delivery;
use pulse::packet::{
    MqttPacket, PublishPacket, QoS, SubscribePacket, Subscription, SubscriptionOptions,
    UnsubscribePacket,
};
use pulse::protocol::{QOS_1_GRANTED, QUOTA_EXCEEDED, TOPIC_FILTER_INVALID};
use pulse::storage::delta::PersistentProjection;
use pulse::storage::frames::{replay_v2, ReplayMode, V2_MAGIC};
use pulse::storage::log::BinaryStorage;
use pulse::write::BrokerWrite;

const NOW_MS: u64 = 1_000_000;

fn options(clean_start: bool, session_expiry_interval: u32) -> ConnectOptions {
    ConnectOptions {
        clean_start,
        session_expiry_interval,
        receive_maximum: 10,
        maximum_packet_size: 1024,
    }
}

fn connect(
    broker: &mut Broker,
    connection_id: u64,
    client_id: &str,
    clean_start: bool,
) -> Vec<Delivery> {
    broker
        .connect(
            connection_id,
            client_id.to_string(),
            None,
            None,
            options(clean_start, 60),
            NOW_MS,
        )
        .redeliveries
}

fn subscribe(broker: &mut Broker, connection_id: u64, filter: &str) -> (Vec<u8>, Vec<Delivery>) {
    let (suback, retained) = broker.subscribe(
        connection_id,
        SubscribePacket {
            packet_id: 1,
            properties: Vec::new(),
            subscriptions: vec![Subscription {
                topic_filter: filter.to_string(),
                options: SubscriptionOptions {
                    maximum_qos: QoS::AtLeastOnce,
                    no_local: false,
                    retain_as_published: false,
                    retain_handling: 0,
                },
            }],
        },
        NOW_MS,
    );
    (suback.reason_codes, retained)
}

fn publication(topic_name: &str, payload: &[u8], qos: QoS, retain: bool) -> PublishPacket {
    PublishPacket {
        dup: false,
        qos,
        retain,
        topic_name: topic_name.to_string(),
        packet_id: if qos == QoS::AtMostOnce { None } else { Some(1) },
        properties: Vec::new(),
        payload: payload.to_vec(),
    }
}

fn sent(delivery: &Delivery) -> &PublishPacket {
    match &delivery.packet {
        BrokerWrite::Packet(packet) => match &**packet {
            MqttPacket::Publish(packet) => packet,
            _ => panic!("no publication"),
        },
        BrokerWrite::Preencoded { .. } => panic!("no packet"),
    }
}

#[test]
fn group_members_take_turns() {
    let mut broker = Broker::new();
    for (connection_id, client_id) in [(1, "a"), (2, "b"), (3, "c")] {
        connect(&mut broker, connection_id, client_id, true);
        subscribe(&mut broker, connection_id, "$share/workers/jobs/+");
    }
    let mut turns = Vec::new();
    for _ in 0..6 {
        let deliveries =
            broker.publish(9, &publication("jobs/1", b"x", QoS::AtMostOnce, false), NOW_MS);
        assert_eq!(deliveries.len(), 1);
        turns.push(deliveries[0].connection_id);
    }
    assert_eq!(turns, vec![1, 2, 3, 1, 2, 3]);
}

#[test]
fn queued_publications_go_out_in_order() {
    let mut broker = Broker::new();
    connect(&mut broker, 1, "reader", false);
    assert_eq!(subscribe(&mut broker, 1, "news/#").0, vec![QOS_1_GRANTED]);
    broker.remove_connection(1, NOW_MS);
    for payload in [b"1", b"2", b"3"] {
        let deliveries =
            broker.publish(9, &publication("news/today", payload, QoS::AtLeastOnce, false), NOW_MS);
        assert!(deliveries.is_empty());
    }
    let deliveries = connect(&mut broker, 2, "reader", false);
    let payloads: Vec<&[u8]> = deliveries
        .iter()
        .map(|delivery| sent(delivery).payload.as_slice())
        .collect();
    assert_eq!(payloads, vec![b"1".as_slice(), b"2".as_slice(), b"3".as_slice()]);
    assert!(deliveries.iter().all(|delivery| !sent(delivery).dup));
}

#[test]
fn unacknowledged_publication_is_sent_again() {
    let mut broker = Broker::new();
    connect(&mut broker, 1, "reader", false);
    subscribe(&mut broker, 1, "news/#");
    let first =
        broker.publish(9, &publication("news/today", b"1", QoS::AtLeastOnce, false), NOW_MS);
    assert_eq!(first.len(), 1);
    broker.remove_connection(1, NOW_MS);
    let again = connect(&mut broker, 2, "reader", false);
    assert_eq!(again.len(), 1);
    assert_eq!(again[0].connection_id, 2);
    assert!(sent(&again[0]).dup);
    assert_eq!(sent(&again[0]).packet_id, sent(&first[0]).packet_id);
    assert_eq!(sent(&again[0]).payload, b"1".to_vec());
    let packet_id = sent(&again[0]).packet_id.unwrap();
    assert!(broker.complete_outbound_qos1(2, packet_id, NOW_MS).is_some());
    broker.remove_connection(2, NOW_MS);
    assert!(connect(&mut broker, 3, "reader", false).is_empty());
}

#[test]
fn unsubscribed_client_hears_no_more() {
    let mut broker = Broker::new();
    connect(&mut broker, 1, "reader", true);
    subscribe(&mut broker, 1, "news/#");
    subscribe(&mut broker, 1, "weather/#");
    broker.unsubscribe(
        1,
        &UnsubscribePacket {
            packet_id: 2,
            properties: Vec::new(),
            topic_filters: vec!["news/#".to_string()],
        },
    );
    let publish = publication("news/today", b"x", QoS::AtMostOnce, false);
    assert!(broker.publish(9, &publish, NOW_MS).is_empty());
    let publish = publication("weather/today", b"x", QoS::AtMostOnce, false);
    assert_eq!(broker.publish(9, &publish, NOW_MS).len(), 1);
}

#[test]
fn refused_subscription_is_not_held() {
    let mut broker = Broker::new();
    connect(&mut broker, 1, "reader", true);
    let (reason_codes, retained) = subscribe(&mut broker, 1, "news/#/today");
    assert_eq!(reason_codes, vec![TOPIC_FILTER_INVALID]);
    assert!(retained.is_empty());
    assert_eq!(broker.state.subscriptions.len(), 0);
}

#[test]
fn retained_message_is_sent_until_it_is_cleared() {
    let mut broker = Broker::new();
    broker.publish(9, &publication("news/today", b"old", QoS::AtMostOnce, true), NOW_MS);
    broker.publish(9, &publication("news/today", b"new", QoS::AtMostOnce, true), NOW_MS);
    connect(&mut broker, 1, "early", true);
    let (_, retained) = subscribe(&mut broker, 1, "news/+");
    assert_eq!(retained.len(), 1);
    assert_eq!(sent(&retained[0]).payload, b"new".to_vec());
    assert!(sent(&retained[0]).retain);
    broker.publish(9, &publication("news/today", b"", QoS::AtMostOnce, true), NOW_MS);
    connect(&mut broker, 2, "late", true);
    let (_, retained) = subscribe(&mut broker, 2, "news/+");
    assert!(retained.is_empty());
}

#[test]
fn session_is_found_until_it_expires() {
    let mut broker = Broker::new();
    connect(&mut broker, 1, "reader", false);
    broker.remove_connection(1, NOW_MS);
    let back = broker.connect(
        2,
        "reader".to_string(),
        None,
        None,
        options(false, 60),
        NOW_MS + 59_999,
    );
    assert!(back.session_present);
    broker.remove_connection(2, NOW_MS);
    let late = broker.connect(
        3,
        "reader".to_string(),
        None,
        None,
        options(false, 60),
        NOW_MS + 60_000,
    );
    assert!(!late.session_present);
    let anew = broker.connect(4, "reader".to_string(), None, None, options(true, 60), NOW_MS);
    assert!(!anew.session_present);
    assert_eq!(anew.replaced_connection, Some(3));
}

fn restart(broker: Broker, now_ms: u64) -> Broker {
    let mut storage = BinaryStorage::open(PersistentProjection::new(), NOW_MS);
    storage.state = broker.state;
    let mut log = V2_MAGIC.to_vec();
    let pending = storage.begin_commit().unwrap().expect("something to store");
    log.extend_from_slice(&pending.frames);
    storage.finish_commit(&pending.patches).unwrap();
    assert!(storage.begin_commit().unwrap().is_none());

    let mut projection = replay_v2(&log, ReplayMode::AllowPhysicalTail).unwrap();
    projection.canonicalize_for_offline_recovery(now_ms);
    Broker::with_state(
        projection.into_state(now_ms),
        BrokerConfig::default(),
        ConfiguredAuthenticator::default(),
    )
}

#[test]
fn broker_recovers_retained_messages_after_restart() {
    let mut broker = Broker::new();
    broker.publish(9, &publication("devices/stored", b"durable", QoS::AtLeastOnce, true), NOW_MS);
    let mut broker = restart(broker, NOW_MS);
    connect(&mut broker, 1, "subscriber", true);
    let (_, retained) = subscribe(&mut broker, 1, "devices/+");
    assert_eq!(retained.len(), 1);
    assert_eq!(sent(&retained[0]).payload, b"durable".to_vec());
    assert_eq!(sent(&retained[0]).qos, QoS::AtLeastOnce);
    assert!(sent(&retained[0]).retain);
}

#[test]
fn broker_recovers_offline_queue_after_restart() {
    let mut broker = Broker::new();
    connect(&mut broker, 1, "subscriber", false);
    subscribe(&mut broker, 1, "devices/stored");
    broker.remove_connection(1, NOW_MS);
    let publish = publication("devices/stored", b"durable-offline", QoS::AtLeastOnce, false);
    assert!(broker.publish(9, &publish, NOW_MS).is_empty());
    let mut broker = restart(broker, NOW_MS + 1);
    let deliveries = connect(&mut broker, 1, "subscriber", false);
    assert_eq!(deliveries.len(), 1);
    assert_eq!(sent(&deliveries[0]).topic_name, "devices/stored");
    assert_eq!(sent(&deliveries[0]).payload, b"durable-offline".to_vec());
    assert!(!sent(&deliveries[0]).dup);
    assert!(sent(&deliveries[0]).packet_id.is_some());
}

#[test]
fn broker_recovers_outbound_inflight_after_restart() {
    let mut broker = Broker::new();
    connect(&mut broker, 1, "subscriber", false);
    subscribe(&mut broker, 1, "devices/stored");
    let publish = publication("devices/stored", b"durable-inflight", QoS::AtLeastOnce, false);
    let first = broker.publish(9, &publish, NOW_MS);
    assert_eq!(first.len(), 1);
    broker.remove_connection(1, NOW_MS);
    let mut broker = restart(broker, NOW_MS + 1);
    let again = connect(&mut broker, 1, "subscriber", false);
    assert_eq!(again.len(), 1);
    assert!(sent(&again[0]).dup);
    assert_eq!(sent(&again[0]).packet_id, sent(&first[0]).packet_id);
    assert_eq!(sent(&again[0]).payload, b"durable-inflight".to_vec());
}

#[test]
fn broker_drops_expired_sessions_on_restart() {
    let mut broker = Broker::new();
    connect(&mut broker, 1, "subscriber", false);
    subscribe(&mut broker, 1, "devices/stored");
    broker.remove_connection(1, NOW_MS);
    let broker = restart(broker, NOW_MS + 60_000);
    assert_eq!(broker.state.sessions_by_client_id.len(), 0);
    assert_eq!(broker.state.subscriptions.len(), 0);
}

#[test]
fn new_broker_is_empty_and_has_the_usual_limits() {
    let broker = Broker::new();
    assert_eq!(broker.config, BrokerConfig::default());
    assert_eq!(broker.config.server_receive_maximum, 1024);
    assert_eq!(broker.config.max_retained_messages, 1024);
    assert_eq!(broker.state.subscriptions.len(), 0);
    assert_eq!(broker.state.sessions_by_client_id.len(), 0);
    assert_eq!(broker.state.retained.len(), 0);
    assert!(!broker.shutting_down);
}

#[test]
fn client_holds_each_filter_once_and_no_more_than_it_may() {
    let config = BrokerConfig {
        max_subscriptions_per_client: 2,
        ..BrokerConfig::default()
    };
    let mut broker = Broker::with_config_and_auth(config, ConfiguredAuthenticator::default());
    connect(&mut broker, 1, "reader", true);
    assert_eq!(subscribe(&mut broker, 1, "a").0, vec![QOS_1_GRANTED]);
    assert_eq!(subscribe(&mut broker, 1, "a").0, vec![QOS_1_GRANTED]);
    assert_eq!(subscribe(&mut broker, 1, "b").0, vec![QOS_1_GRANTED]);
    assert_eq!(subscribe(&mut broker, 1, "c").0, vec![QUOTA_EXCEEDED]);
    assert_eq!(broker.state.subscriptions.len(), 2);
    let client = broker.state.clients_by_connection.get(&1).unwrap();
    assert_eq!(client.subscription_count, 2);
    let session = broker
        .state
        .sessions_by_client_id
        .get(&"reader".to_string())
        .unwrap();
    assert_eq!(session.expires_at_ms, None);
    let again = broker.connect(
        2,
        "reader".to_string(),
        None,
        None,
        options(false, 60),
        NOW_MS + 1_000_000_000,
    );
    assert!(again.session_present);
}
