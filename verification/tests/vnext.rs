use pulse::storage::log::CommitPolicy;
use pulse::vnext::broker_core::BrokerCore;
use pulse::vnext::durable_log::{DurableLogEvent, InflightDirection, decode_event, encode_event};
use pulse::vnext::durable_state::{DurableLog, log_start};
use pulse::vnext::routing::{RouteSubscription, RouterIndex};
use pulse::vnext::session_table::SessionTable;
use pulse::vnext::shard::{ShardCommand, ShardRuntime};

#[test]
fn matches_exact_plus_and_hash_filters() {
    let mut index = RouterIndex::new();
    index.insert(RouteSubscription::new("exact", "devices/a/temp", None));
    index.insert(RouteSubscription::new("plus", "devices/+/temp", None));
    index.insert(RouteSubscription::new("hash", "devices/#", None));

    let matches = index.matches("devices/a/temp");
    let clients: Vec<&str> = matches.iter().map(|sub| sub.client_id.as_str()).collect();
    assert!(clients.contains(&"exact"));
    assert!(clients.contains(&"plus"));
    assert!(clients.contains(&"hash"));
}

#[test]
fn hash_filter_matches_parent_level() {
    let mut index = RouterIndex::new();
    index.insert(RouteSubscription::new("hash", "devices/#", None));

    let matches = index.matches("devices");
    assert_eq!(matches.len(), 1);
    assert_eq!(matches[0].client_id, "hash");
}

#[test]
fn system_topics_only_match_system_filters() {
    let mut index = RouterIndex::new();
    index.insert(RouteSubscription::new("all", "#", None));
    index.insert(RouteSubscription::new("sys", "$SYS/#", None));

    let matches = index.matches("$SYS/broker/uptime");
    assert_eq!(matches.len(), 1);
    assert_eq!(matches[0].client_id, "sys");
}

#[test]
fn shared_subscription_keeps_original_filter_and_match_filter() {
    let mut index = RouterIndex::new();
    index.insert(RouteSubscription::new(
        "member-a",
        "$share/group/devices/+",
        Some(7),
    ));

    let matches = index.matches("devices/a");
    assert_eq!(matches.len(), 1);
    assert_eq!(matches[0].filter, "$share/group/devices/+");
    assert_eq!(matches[0].match_filter, "devices/+");
    assert_eq!(matches[0].shared_group.as_deref(), Some("group"));
    assert_eq!(matches[0].subscription_identifier, Some(7));
}

#[test]
fn remove_deletes_only_matching_client_filter_pair() {
    let mut index = RouterIndex::new();
    index.insert(RouteSubscription::new("a", "devices/+", None));
    index.insert(RouteSubscription::new("b", "devices/+", None));
    index.remove("a", "devices/+");

    let matches = index.matches("devices/one");
    assert_eq!(matches.len(), 1);
    assert_eq!(matches[0].client_id, "b");
}

#[test]
fn session_table_reuses_existing_session_on_reconnect() {
    let mut table = SessionTable::new();
    table.upsert_connected("client-a", 1, 60);
    assert!(table.set_next_packet_id("client-a", 42));
    table.disconnect("client-a", Some(123));

    let session = table.upsert_connected("client-a", 2, 120);
    assert_eq!(session.next_packet_id, 42);
    assert_eq!(session.shard_id, 2);
    assert_eq!(session.session_expiry_interval, 120);
    assert!(session.connected);
    assert!(session.expires_at_ms.is_none());
}

#[test]
fn shard_keeps_payload_as_shared_bytes() {
    let payload = b"hello".to_vec();
    let mut shard = ShardRuntime::new(3);
    shard.enqueue_delivery("client-a", "devices/a", payload.clone());

    assert_eq!(shard.id(), 3);
    assert_eq!(shard.queue_len(), 1);
    let command = shard
        .drain_commands()
        .into_iter()
        .next()
        .expect("queued command");
    match command {
        ShardCommand::Deliver {
            client_id,
            topic_name,
            payload: delivered,
        } => {
            assert_eq!(client_id, "client-a");
            assert_eq!(topic_name, "devices/a");
            assert_eq!(delivered, payload);
        }
        ShardCommand::DisconnectSlowConsumer { .. } => {
            panic!("unexpected disconnect command")
        }
    }
    assert_eq!(shard.queue_len(), 0);
}

#[test]
fn shard_selection_is_stable() {
    let core = BrokerCore::in_memory(4);
    assert_eq!(
        core.shard_for_client("client-a"),
        core.shard_for_client("client-a")
    );
    assert!(core.shard_for_client("client-a") < core.shard_count());
}

#[test]
fn shards_are_chosen_by_hash() {
    let core = BrokerCore::in_memory(1000);
    assert_eq!(core.shard_for_client(""), 0xcbf29ce484222325usize % 1000);
    assert_eq!(core.shard_for_client("a"), 0xaf63dc4c8601ec8cusize % 1000);
    assert_eq!(BrokerCore::in_memory(0).shard_count(), 1);
}

#[test]
fn core_routes_recovered_wal_subscriptions() {
    let mut bytes = log_start();
    {
        let mut core =
            BrokerCore::with_wal(2, &bytes, CommitPolicy::Balanced).expect("open broker core");
        let route = RouteSubscription::new("client-a", "devices/+/temp", None);
        let write = core
            .log_upsert(&route)
            .expect("loggable subscription")
            .expect("a log");
        bytes.extend_from_slice(&write.bytes);
        core.upsert_subscription(route);
        assert!(core.flush_storage());
    }

    let core = BrokerCore::with_wal(2, &bytes, CommitPolicy::Balanced).expect("reopen broker core");
    let matches = core.match_publish("devices/alpha/temp");
    assert_eq!(matches.len(), 1);
    assert_eq!(matches[0].client_id, "client-a");
}

#[test]
fn wal_replays_latest_state() {
    let mut bytes = log_start();
    {
        let mut log = DurableLog::open(CommitPolicy::Balanced);
        for event in [
            DurableLogEvent::SessionUpsert {
                client_id: "client-a".to_string(),
                session_expiry_interval: 60,
                expires_at_ms: Some(123),
                next_packet_id: 7,
            },
            DurableLogEvent::SubscriptionUpsert {
                client_id: "client-a".to_string(),
                filter: "devices/+".to_string(),
                match_filter: "devices/+".to_string(),
                shared_group: None,
                subscription_identifier: Some(9),
            },
            DurableLogEvent::SubscriptionDelete {
                client_id: "client-a".to_string(),
                filter: "devices/+".to_string(),
            },
            DurableLogEvent::InflightUpsert {
                client_id: "client-a".to_string(),
                packet_id: 42,
                qos: 1,
                direction: InflightDirection::Outbound,
                expires_at_ms: None,
            },
        ] {
            let write = log.append(&event).expect("append event");
            assert!(!write.sync);
            bytes.extend_from_slice(&write.bytes);
        }
        assert!(log.flush());
    }

    let state = DurableLog::replay(&bytes).expect("replay wal");
    let session = state
        .sessions
        .get(&"client-a".to_string())
        .expect("recovered session");
    assert_eq!(session.next_packet_id, 7);
    assert!(state.subscriptions.is_empty());
    assert_eq!(state.inflight.len(), 1);
}

#[test]
fn replay_missing_wal_returns_empty_state() {
    for bytes in [&b""[..], &b"PVWAL"[..]] {
        let state = DurableLog::replay(bytes).expect("replay missing wal");
        assert!(state.sessions.is_empty());
        assert!(state.subscriptions.is_empty());
        assert!(state.retained.is_empty());
        assert!(state.offline.is_empty());
        assert!(state.inflight.is_empty());
    }
}

#[test]
fn event_log_refuses_what_it_cannot_read() {
    let message = |bytes: &[u8]| match DurableLog::replay(bytes) {
        Ok(_) => panic!("log was read"),
        Err(message) => message,
    };
    assert_eq!(message(b"PVWAL2\n"), "invalid Pulse vNext WAL header");
    let with = |payload: &[u8]| {
        let mut bytes = log_start();
        bytes.extend_from_slice(&(payload.len() as u32).to_le_bytes());
        bytes.extend_from_slice(payload);
        bytes
    };
    assert_eq!(
        message(&with(&[2, 1])),
        "unsupported Pulse vNext WAL event version"
    );
    assert_eq!(
        message(&with(&[1, 10])),
        "unknown Pulse vNext WAL event kind 10"
    );
    assert_eq!(message(&with(&[1])), "truncated WAL event");
    assert_eq!(message(&with(&[1, 5, 9, 0, 0, 0])), "truncated WAL event");
    assert_eq!(message(&with(&[1, 5, 1, 0, 0, 0, 0xff])), "invalid WAL string");
    assert_eq!(
        message(&with(&[1, 9, 1, 0, 0, 0, b'a', 1, 0, 3])),
        "invalid inflight direction"
    );
}

#[test]
fn cut_event_log_gives_the_whole_records() {
    let mut log = DurableLog::open(CommitPolicy::Strict);
    let mut bytes = log_start();
    assert_eq!(bytes, b"PVWAL1\n".to_vec());
    let first = log
        .append(&DurableLogEvent::OfflineEnqueue {
            client_id: "a".to_string(),
            sequence: 1,
            packet_id: Some(2),
            payload_len: 3,
            expires_at_ms: None,
        })
        .expect("append first");
    assert!(first.sync);
    bytes.extend_from_slice(&first.bytes);
    let end = bytes.len();
    let second = log
        .append(&DurableLogEvent::OfflineAck {
            client_id: "a".to_string(),
            sequence: 1,
        })
        .expect("append second");
    bytes.extend_from_slice(&second.bytes);
    for cut in end..bytes.len() {
        let state = DurableLog::replay(&bytes[..cut]).expect("replay cut log");
        assert_eq!(state.offline.len(), 1);
    }
    let state = DurableLog::replay(&bytes).expect("replay whole log");
    assert!(state.offline.is_empty());
}

#[test]
fn events_read_back() {
    let event = DurableLogEvent::RetainUpsert {
        topic_name: "devices/a".to_string(),
        qos: 2,
        payload_len: 5,
        expires_at_ms: Some(9),
    };
    let bytes = encode_event(&event).expect("encode event");
    assert_eq!(
        bytes,
        b"\x01\x04\x09\x00\x00\x00devices/a\x02\x05\x00\x00\x00\x01\x09\x00\x00\x00\x00\x00\x00\x00"
            .to_vec()
    );
    assert_eq!(decode_event(&bytes).expect("decode event"), event);
}

#[test]
fn balanced_log_is_flushed_in_groups() {
    let mut log = DurableLog::open(CommitPolicy::Balanced);
    let event = DurableLogEvent::RetainDelete {
        topic_name: "t".to_string(),
    };
    for count in 1..=128 {
        let write = log.append(&event).expect("append");
        assert_eq!(write.sync, count % 64 == 0);
    }
}

#[test]
fn cut_events_are_refused_wherever_they_are_cut() {
    let event = DurableLogEvent::InflightUpsert {
        client_id: "client".to_string(),
        packet_id: 7,
        qos: 1,
        direction: InflightDirection::Outbound,
        expires_at_ms: Some(9),
    };
    let bytes = encode_event(&event).unwrap();
    for count in 0..bytes.len() {
        assert_eq!(
            decode_event(&bytes[..count]).err().as_deref(),
            Some("truncated WAL event")
        );
    }
    assert_eq!(decode_event(&bytes).unwrap(), event);
    assert_eq!(
        decode_event(&[2, 1]).err().as_deref(),
        Some("unsupported Pulse vNext WAL event version")
    );
    assert_eq!(
        decode_event(&[1, 10]).err().as_deref(),
        Some("unknown Pulse vNext WAL event kind 10")
    );
}

#[test]
fn putting_a_subscription_again_replaces_it() {
    let mut index = RouterIndex::new();
    index.insert(RouteSubscription::new("a", "devices/+", Some(1)));
    index.insert(RouteSubscription::new("a", "devices/#", Some(2)));
    index.insert(RouteSubscription::new("b", "devices/+", None));
    index.insert(RouteSubscription::new("a", "devices/+", Some(3)));
    index.insert(RouteSubscription::new("c", "devices/#/x", None));
    let mut found: Vec<(String, String, Option<u32>)> = index
        .matches("devices/one")
        .into_iter()
        .map(|route| (route.client_id, route.filter, route.subscription_identifier))
        .collect();
    found.sort();
    assert_eq!(
        found,
        vec![
            ("a".to_string(), "devices/#".to_string(), Some(2)),
            ("a".to_string(), "devices/+".to_string(), Some(3)),
            ("b".to_string(), "devices/+".to_string(), None),
        ]
    );
    index.remove("a", "devices/+");
    assert_eq!(index.matches("devices/one").len(), 2);
    assert!(index.matches("devices/+").is_empty());
}
