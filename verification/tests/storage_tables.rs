//! Rows of database tables, kept in memory as an engine keeps them.
use std::collections::{BTreeMap, BTreeSet};

use pulse::message::PendingPublish;
use pulse::ordered_map::OrderedMap;
use pulse::packet::{PublishPacket, QoS, SubscriptionOptions, qos_to_u8};
use pulse::retained_message::RetainedMessage;
use pulse::session::{BrokerState, SessionEntry};
use pulse::storage::delta::PersistentProjection;
use pulse::storage::offline_state::OfflineState;
use pulse::storage::patch_codec::encode_retained;
use pulse::storage::projection::prepare_patches;
use pulse::storage::snapshot::{
    ClientPatch, ClientSnapshot, QueuedSnapshot, SessionSnapshot, StoragePatch,
    SubscriptionSnapshot,
};
use pulse::subscription::SubscriptionEntry;
use pulse::storage::tables::{
    InflightRow, OfflineRow, OutOfRange, RetainedRow, SessionRow, SubscriptionRow, TableChange,
    bool_to_u8, client_patch_changes, moment_from_row, moment_to_row, qos_from_row,
};

fn pending(qos: QoS, packet_id: Option<u16>, payload: &[u8]) -> PendingPublish {
    PendingPublish {
        packet: PublishPacket {
            dup: false,
            qos,
            retain: false,
            topic_name: "devices/a".to_string(),
            packet_id,
            properties: Vec::new(),
            payload: payload.to_vec(),
        },
        expires_at_ms: Some(u64::MAX),
    }
}

fn session_row(next_offline_sequence: i64) -> SessionRow {
    SessionRow {
        client_id: "client".to_string(),
        session_expiry_interval: 60,
        expires_at_ms: None,
        next_packet_id: 1,
        next_offline_sequence,
    }
}

#[test]
fn legacy_negative_offline_identifiers_fail_closed_on_load() {
    let invalid_fixture = |session_sequence: i64, queued_sequence: Option<i64>| {
        let mut state = OfflineState::new();
        state.load_session(session_row(session_sequence))?;
        if let Some(sequence) = queued_sequence {
            state.load_offline(OfflineRow {
                client_id: "client".to_string(),
                sequence,
                packet: vec![0],
                expires_at_ms: None,
            })?;
        }
        Ok::<OfflineState, OutOfRange>(state)
    };

    assert_eq!(
        invalid_fixture(-1, None).err(),
        Some(OutOfRange { column: 4, value: -1 })
    );
    assert_eq!(
        invalid_fixture(1, Some(-1)).err(),
        Some(OutOfRange { column: 1, value: -1 })
    );
    assert!(invalid_fixture(1, Some(0)).is_ok());
}

#[test]
fn rows_hold_numbers_as_they_are() {
    assert_eq!(moment_from_row(moment_to_row(Some(u64::MAX))), Some(u64::MAX));
    assert_eq!(moment_to_row(Some(7)), Some(7));
    assert_eq!(moment_from_row(None), None);
    assert_eq!(qos_from_row(1), QoS::AtLeastOnce);
    assert_eq!(qos_from_row(2), QoS::ExactlyOnce);
    assert_eq!(qos_from_row(9), QoS::AtMostOnce);
    assert_eq!(bool_to_u8(true), 1);
}

#[test]
fn changes_come_back_as_rows() {
    let mut offline = OrderedMap::new();
    offline.insert(0, pending(QoS::AtLeastOnce, None, b"queued"));
    let mut qos1 = OrderedMap::new();
    qos1.insert(1, pending(QoS::AtLeastOnce, Some(1), b"one"));
    let mut qos2_publish = OrderedMap::new();
    qos2_publish.insert(2, pending(QoS::ExactlyOnce, Some(2), b"two"));
    let mut qos2_pubrel = OrderedMap::new();
    qos2_pubrel.insert(3, ());
    let mut subscriptions = OrderedMap::new();
    subscriptions.insert(
        "$share/g/devices/#".to_string(),
        SubscriptionSnapshot {
            client_id: "client".to_string(),
            filter: "$share/g/devices/#".to_string(),
            match_filter: "devices/#".to_string(),
            shared_group: Some("g".to_string()),
            maximum_qos: QoS::ExactlyOnce,
            no_local: true,
            retain_as_published: false,
            retain_handling: 2,
            subscription_identifier: None,
        },
    );
    let client = ClientSnapshot {
        session: SessionSnapshot {
            session_expiry_interval: 60,
            expires_at_ms: Some(5),
            next_packet_id: 4,
            next_offline_sequence: 1,
        },
        subscriptions,
        offline,
        qos1,
        qos2_publish,
        qos2_pubrel,
    };
    let patch = ClientPatch::reset("client".to_string(), &client);
    let changes = client_patch_changes(&patch).expect("every publication has a wire form");
    assert!(matches!(changes[0], TableChange::DeleteSession));
    assert!(matches!(changes[1], TableChange::UpsertSession(_)));
    assert_eq!(changes.len(), 7);

    let mut state = OfflineState::new();
    for change in changes {
        match change {
            TableChange::UpsertSession(session) => state
                .load_session(SessionRow {
                    client_id: "client".to_string(),
                    session_expiry_interval: session.session_expiry_interval,
                    expires_at_ms: moment_to_row(session.expires_at_ms),
                    next_packet_id: session.next_packet_id,
                    next_offline_sequence: session.next_offline_sequence as i64,
                })
                .expect("session row"),
            TableChange::UpsertSubscription(subscription) => {
                state.load_subscription(SubscriptionRow {
                    client_id: subscription.client_id,
                    filter: subscription.filter,
                    match_filter: String::new(),
                    shared_group: subscription.shared_group,
                    maximum_qos: 2,
                    no_local: bool_to_u8(subscription.no_local),
                    retain_as_published: bool_to_u8(subscription.retain_as_published),
                    retain_handling: subscription.retain_handling,
                    subscription_identifier: subscription.subscription_identifier,
                })
            }
            TableChange::UpsertOffline {
                sequence,
                packet,
                expires_at_ms,
            } => state
                .load_offline(OfflineRow {
                    client_id: "client".to_string(),
                    sequence: sequence as i64,
                    packet,
                    expires_at_ms: moment_to_row(expires_at_ms),
                })
                .expect("offline row"),
            TableChange::UpsertInflight {
                qos,
                packet_id,
                packet,
                expires_at_ms,
            } => state.load_outbound_inflight(InflightRow {
                client_id: "client".to_string(),
                packet_id,
                qos: if qos == QoS::AtLeastOnce { 1 } else { 2 },
                packet,
                expires_at_ms: moment_to_row(expires_at_ms),
            }),
            TableChange::InsertPubrel(packet_id) => {
                state.load_outbound_pubrel("client".to_string(), packet_id)
            }
            _ => {}
        }
    }
    let session = state
        .sessions
        .get(&"client".to_string())
        .expect("loaded session");
    assert_eq!(session.expires_at_ms, Some(5));
    assert_eq!(session.next_packet_id, 4);
    assert_eq!(
        session.offline_queue[0],
        QueuedSnapshot {
            sequence: 0,
            pending: pending(QoS::AtLeastOnce, None, b"queued"),
        }
    );
    assert_eq!(
        session.outbound_qos1.get(&1),
        Some(&pending(QoS::AtLeastOnce, Some(1), b"one"))
    );
    assert_eq!(
        session.outbound_qos2_publish.get(&2),
        Some(&pending(QoS::ExactlyOnce, Some(2), b"two"))
    );
    assert!(session.outbound_qos2_pubrel.contains_key(&3));
    assert_eq!(state.subscriptions[0].match_filter, "devices/#");
    assert_eq!(state.subscriptions[0].options.retain_handling, 2);
}

#[test]
fn rows_of_nobody_are_dropped() {
    let mut state = OfflineState::new();
    state.load_outbound_pubrel("ghost".to_string(), 1);
    state.load_outbound_inflight(InflightRow {
        client_id: "ghost".to_string(),
        packet_id: 1,
        qos: 1,
        packet: vec![0],
        expires_at_ms: None,
    });
    assert!(state.sessions.is_empty());
}

#[test]
fn retained_rows_come_back() {
    let message = RetainedMessage::new(
        QoS::AtLeastOnce,
        "devices/a".to_string(),
        Vec::new(),
        b"x".to_vec(),
        Some(9),
    );
    let mut state = OfflineState::new();
    state.load_retained(RetainedRow {
        topic_name: "devices/a".to_string(),
        packet: encode_retained(&message).expect("wire form"),
        expires_at_ms: moment_to_row(Some(9)),
    });
    state.load_retained(RetainedRow {
        topic_name: "devices/b".to_string(),
        packet: vec![0xff],
        expires_at_ms: None,
    });
    assert_eq!(state.retained.len(), 1);
    assert_eq!(state.retained.get(&"devices/a".to_string()), Some(&message));
    let projection = state.into_projection();
}

#[test]
fn deleting_a_client_is_one_change() {
    let changes = client_patch_changes(&ClientPatch::delete("client".to_string()))
        .expect("nothing to write");
    assert_eq!(changes.len(), 1);
    assert!(matches!(changes[0], TableChange::DeleteSession));
}

type Blob = (Vec<u8>, Option<i64>);

#[derive(Default)]
struct Tables {
    sessions: BTreeMap<String, (u32, Option<i64>, u16, i64)>,
    subscriptions: BTreeMap<(String, String), (String, Option<String>, [u8; 4], Option<u32>)>,
    retained: BTreeMap<String, Blob>,
    inflight: BTreeMap<(String, u16, u8), Blob>,
    pubrel: BTreeSet<(String, u16)>,
    offline: BTreeMap<(String, i64), Blob>,
    touched: BTreeSet<String>,
}

impl Tables {
    fn apply(&mut self, client: &str, change: TableChange) {
        let id = client.to_string();
        self.touched.insert(id.clone());
        match change {
            TableChange::DeleteSession => {
                self.sessions.remove(&id);
                self.subscriptions.retain(|key, _| key.0 != id);
                self.inflight.retain(|key, _| key.0 != id);
                self.pubrel.retain(|key| key.0 != id);
                self.offline.retain(|key, _| key.0 != id);
            }
            TableChange::UpsertSession(session) => {
                self.sessions.insert(
                    id,
                    (
                        session.session_expiry_interval,
                        moment_to_row(session.expires_at_ms),
                        session.next_packet_id,
                        session.next_offline_sequence as i64,
                    ),
                );
            }
            TableChange::DeleteSubscription(filter) => {
                self.subscriptions.remove(&(id, filter));
            }
            TableChange::UpsertSubscription(subscription) => {
                self.subscriptions.insert(
                    (id, subscription.filter),
                    (
                        subscription.match_filter,
                        subscription.shared_group,
                        [
                            qos_to_u8(subscription.maximum_qos),
                            bool_to_u8(subscription.no_local),
                            bool_to_u8(subscription.retain_as_published),
                            subscription.retain_handling,
                        ],
                        subscription.subscription_identifier,
                    ),
                );
            }
            TableChange::DeleteOfflineThrough(through) => {
                self.offline
                    .retain(|key, _| key.0 != id || key.1 > through as i64);
            }
            TableChange::UpsertOffline {
                sequence,
                packet,
                expires_at_ms,
            } => {
                self.offline
                    .insert((id, sequence as i64), (packet, moment_to_row(expires_at_ms)));
            }
            TableChange::DeleteInflight { qos, packet_id } => {
                self.inflight.remove(&(id, packet_id, qos_to_u8(qos)));
            }
            TableChange::UpsertInflight {
                qos,
                packet_id,
                packet,
                expires_at_ms,
            } => {
                self.inflight.insert(
                    (id, packet_id, qos_to_u8(qos)),
                    (packet, moment_to_row(expires_at_ms)),
                );
            }
            TableChange::DeletePubrel(packet_id) => {
                self.pubrel.remove(&(id, packet_id));
            }
            TableChange::InsertPubrel(packet_id) => {
                self.pubrel.insert((id, packet_id));
            }
        }
    }

    fn load(&self) -> OfflineState {
        let mut state = OfflineState::new();
        for (client_id, row) in &self.sessions {
            state
                .load_session(SessionRow {
                    client_id: client_id.clone(),
                    session_expiry_interval: row.0,
                    expires_at_ms: row.1,
                    next_packet_id: row.2,
                    next_offline_sequence: row.3,
                })
                .expect("session row");
        }
        for ((client_id, filter), row) in &self.subscriptions {
            state.load_subscription(SubscriptionRow {
                client_id: client_id.clone(),
                filter: filter.clone(),
                match_filter: row.0.clone(),
                shared_group: row.1.clone(),
                maximum_qos: row.2[0],
                no_local: row.2[1],
                retain_as_published: row.2[2],
                retain_handling: row.2[3],
                subscription_identifier: row.3,
            });
        }
        for (topic_name, row) in &self.retained {
            state.load_retained(RetainedRow {
                topic_name: topic_name.clone(),
                packet: row.0.clone(),
                expires_at_ms: row.1,
            });
        }
        for ((client_id, packet_id, qos), row) in &self.inflight {
            state.load_outbound_inflight(InflightRow {
                client_id: client_id.clone(),
                packet_id: *packet_id,
                qos: *qos,
                packet: row.0.clone(),
                expires_at_ms: row.1,
            });
        }
        for (client_id, packet_id) in &self.pubrel {
            state.load_outbound_pubrel(client_id.clone(), *packet_id);
        }
        for ((client_id, sequence), row) in &self.offline {
            state
                .load_offline(OfflineRow {
                    client_id: client_id.clone(),
                    sequence: *sequence,
                    packet: row.0.clone(),
                    expires_at_ms: row.1,
                })
                .expect("offline row");
        }
        state
    }
}

struct TableStorage {
    tables: Tables,
    projection: PersistentProjection,
    state: BrokerState,
}

impl TableStorage {
    fn open(tables: Tables) -> Self {
        let projection = tables.load().into_projection();
        let state = projection.into_state(1);
        TableStorage {
            tables,
            projection,
            state,
        }
    }

    fn with_state(&mut self, operation: impl Fn(&mut BrokerState)) {
        operation(&mut self.state);
        let changes = self.state.persistence_changes();
        for patch in prepare_patches(&self.projection, &self.state, &changes) {
            patch.validate().expect("valid patch");
            match &patch {
                StoragePatch::Client(client) => {
                    for change in client_patch_changes(client).expect("wire form") {
                        self.tables.apply(&client.client_id, change);
                    }
                }
                StoragePatch::Retained(retained) => match &retained.message {
                    Some(message) => {
                        self.tables.retained.insert(
                            retained.topic_name.clone(),
                            (
                                encode_retained(message).expect("wire form"),
                                moment_to_row(message.expires_at_ms),
                            ),
                        );
                    }
                    None => {
                        self.tables.retained.remove(&retained.topic_name);
                    }
                },
            }
            self.projection.apply_patch(&patch).expect("apply patch");
        }
        self.state.take_persistence_changes();
    }
}

fn stored(
    qos: QoS,
    topic_name: &str,
    packet_id: Option<u16>,
    payload: &[u8],
    expires_at_ms: Option<u64>,
) -> PendingPublish {
    PendingPublish {
        packet: PublishPacket {
            dup: false,
            qos,
            retain: false,
            topic_name: topic_name.to_string(),
            packet_id,
            properties: Vec::new(),
            payload: payload.to_vec(),
        },
        expires_at_ms,
    }
}

fn round_trip(expires_at_ms: u64, sequence: u64) {
    let mut storage = TableStorage::open(Tables::default());
    storage.with_state(|state| {
        let mut session = SessionEntry::disconnected(60, Some(expires_at_ms));
        session.next_packet_id = 7;
        session.outbound_qos1.insert(
            1,
            stored(
                QoS::AtLeastOnce,
                "devices/inflight",
                Some(1),
                b"inflight",
                Some(456),
            ),
        );
        session.offline_queue.push_back(QueuedSnapshot {
            sequence,
            pending: stored(
                QoS::AtLeastOnce,
                "devices/offline",
                None,
                b"offline",
                Some(789),
            ),
        });
        session.next_offline_sequence = sequence + 1;
        state
            .sessions_by_client_id
            .insert("client".to_string(), session);
        state.subscriptions.push(SubscriptionEntry {
            client_id: "client".to_string(),
            filter: "devices/one".to_string(),
            match_filter: "devices/one".to_string(),
            shared_group: None,
            options: SubscriptionOptions {
                maximum_qos: QoS::ExactlyOnce,
                no_local: true,
                retain_as_published: true,
                retain_handling: 1,
            },
            subscription_identifier: Some(42),
        });
        state.retained.insert(
            "devices/one".to_string(),
            RetainedMessage::new(
                QoS::AtLeastOnce,
                "devices/one".to_string(),
                Vec::new(),
                b"hello".to_vec(),
                Some(999),
            ),
        );
        state.mark_client_reset("client".to_string());
        state.mark_retained_changed("devices/one".to_string());
    });

    let storage = TableStorage::open(storage.tables);
    let state = &storage.state;
    let session = state
        .sessions_by_client_id
        .get(&"client".to_string())
        .expect("persisted session");
    assert_eq!(session.session_expiry_interval, 60);
    assert_eq!(session.expires_at_ms, Some(expires_at_ms));
    assert_eq!(session.next_packet_id, 7);
    let inflight = session.outbound_qos1.get(&1).expect("persisted inflight");
    assert_eq!(inflight.packet.payload, b"inflight".to_vec());
    assert_eq!(inflight.expires_at_ms, Some(456));
    let offline = session.offline_queue.front().expect("persisted offline");
    assert_eq!(offline.sequence, sequence);
    assert_eq!(offline.pending.packet.payload, b"offline".to_vec());
    assert_eq!(offline.pending.packet.packet_id, None);
    assert_eq!(offline.pending.expires_at_ms, Some(789));
    assert_eq!(session.next_offline_sequence, sequence + 1);

    let subscription = state
        .subscriptions
        .iter()
        .find(|subscription| subscription.client_id == "client")
        .expect("persisted subscription");
    assert_eq!(subscription.filter, "devices/one");
    assert_eq!(subscription.match_filter, "devices/one");
    assert_eq!(subscription.shared_group, None);
    assert_eq!(subscription.options.maximum_qos, QoS::ExactlyOnce);
    assert!(subscription.options.no_local);
    assert!(subscription.options.retain_as_published);
    assert_eq!(subscription.options.retain_handling, 1);
    assert_eq!(subscription.subscription_identifier, Some(42));

    let retained = state
        .retained
        .get(&"devices/one".to_string())
        .expect("persisted retained");
    assert_eq!(retained.qos, QoS::AtLeastOnce);
    assert_eq!(retained.payload, b"hello".to_vec());
    assert_eq!(retained.expires_at_ms, Some(999));
}

#[test]
fn mod_sqlite_storage_loads_persisted_sessions_subscriptions_and_retained_messages() {
    round_trip(i64::MAX as u64, 3);
}

#[test]
fn sqlite_sqlite_storage_loads_persisted_sessions_subscriptions_and_retained_messages() {
    round_trip(123, 0);
}

fn subscription(client_id: &str, filter: &str) -> SubscriptionEntry {
    SubscriptionEntry {
        client_id: client_id.to_string(),
        filter: filter.to_string(),
        match_filter: filter.to_string(),
        shared_group: None,
        options: SubscriptionOptions {
            maximum_qos: QoS::AtLeastOnce,
            no_local: false,
            retain_as_published: false,
            retain_handling: 0,
        },
        subscription_identifier: None,
    }
}

fn queued(sequence: u64, topic_name: &str, payload: &[u8]) -> QueuedSnapshot {
    QueuedSnapshot {
        sequence,
        pending: stored(QoS::AtLeastOnce, topic_name, None, payload, None),
    }
}

#[test]
fn sqlite_merge_is_scoped_and_delete_cascades_one_client() {
    let mut storage = TableStorage::open(Tables::default());
    storage.with_state(|state| {
        let mut client_a = SessionEntry::disconnected(60, None);
        client_a.next_packet_id = 3;
        client_a.next_offline_sequence = 2;
        client_a.offline_queue.push_back(queued(0, "offline/zero", b"zero"));
        client_a.offline_queue.push_back(queued(1, "offline/one", b"one"));
        client_a.outbound_qos1.insert(
            1,
            stored(QoS::AtLeastOnce, "inflight/qos1", Some(1), b"qos1", None),
        );
        client_a.outbound_qos2_publish.insert(
            2,
            stored(QoS::ExactlyOnce, "inflight/qos2", Some(2), b"qos2", None),
        );
        client_a.outbound_qos2_pubrel.insert(3, ());
        state
            .sessions_by_client_id
            .insert("client-a".to_string(), client_a);
        let mut client_b = SessionEntry::disconnected(60, None);
        client_b.next_offline_sequence = 1;
        client_b.offline_queue.push_back(queued(0, "b/offline", b"protected"));
        client_b.outbound_qos1.insert(
            10,
            stored(QoS::AtLeastOnce, "b/qos1", Some(10), b"protected", None),
        );
        client_b.outbound_qos2_publish.insert(
            11,
            stored(QoS::ExactlyOnce, "b/qos2", Some(11), b"protected", None),
        );
        client_b.outbound_qos2_pubrel.insert(12, ());
        state
            .sessions_by_client_id
            .insert("client-b".to_string(), client_b);
        state.subscriptions.push(subscription("client-a", "a/old"));
        state.subscriptions.push(subscription("client-a", "a/keep"));
        state
            .subscriptions
            .push(subscription("client-b", "b/protected"));
        state.mark_client_reset("client-a".to_string());
        state.mark_client_reset("client-b".to_string());
    });
    storage.tables.touched.clear();

    storage.with_state(|state| {
        let mut client_a = state
            .sessions_by_client_id
            .remove(&"client-a".to_string())
            .expect("client-a session");
        client_a.next_packet_id = 7;
        client_a.next_offline_sequence = 3;
        client_a.offline_queue.pop_front();
        client_a.offline_queue.push_back(queued(2, "offline/two", b"two"));
        client_a.outbound_qos1.remove(&1);
        client_a.outbound_qos1.insert(
            4,
            stored(QoS::AtLeastOnce, "inflight/qos1-new", Some(4), b"four", None),
        );
        client_a.outbound_qos2_publish.remove(&2);
        client_a.outbound_qos2_publish.insert(
            5,
            stored(QoS::ExactlyOnce, "inflight/qos2-new", Some(5), b"five", None),
        );
        client_a.outbound_qos2_pubrel.remove(&3);
        client_a.outbound_qos2_pubrel.insert(6, ());
        state
            .sessions_by_client_id
            .insert("client-a".to_string(), client_a);
        state.subscriptions.retain(|subscription| {
            subscription.client_id != "client-a" || subscription.filter != "a/old"
        });
        state.subscriptions.push(subscription("client-a", "a/new"));
        state.mark_client_changed("client-a".to_string());
    });
    let tables = &storage.tables;
    let only_a: BTreeSet<String> = ["client-a".to_string()].into_iter().collect();
    assert_eq!(tables.touched, only_a);
    let client_a = &tables.sessions["client-a"];
    assert_eq!((client_a.2, client_a.3), (7, 3));
    assert!(tables.sessions.contains_key("client-b"));
    let offline_sequences: Vec<i64> = tables
        .offline
        .keys()
        .filter(|key| key.0 == "client-a")
        .map(|key| key.1)
        .collect();
    assert_eq!(offline_sequences, vec![1, 2]);
    let inflight: Vec<(u16, u8)> = tables
        .inflight
        .keys()
        .filter(|key| key.0 == "client-a")
        .map(|key| (key.1, key.2))
        .collect();
    assert_eq!(inflight, vec![(4, 1), (5, 2)]);
    let pubrel: Vec<u16> = tables
        .pubrel
        .iter()
        .filter(|key| key.0 == "client-a")
        .map(|key| key.1)
        .collect();
    assert_eq!(pubrel, vec![6]);
    assert!(tables
        .subscriptions
        .contains_key(&("client-b".to_string(), "b/protected".to_string())));

    storage.with_state(|state| {
        state.sessions_by_client_id.remove(&"client-a".to_string());
        state
            .subscriptions
            .retain(|subscription| subscription.client_id != "client-a");
        state.mark_client_reset("client-a".to_string());
    });
    let tables = &storage.tables;
    assert_eq!(tables.touched, only_a);
    let left: Vec<&String> = tables.sessions.keys().collect();
    assert_eq!(left, vec!["client-b"]);
    assert_eq!(tables.subscriptions.len(), 1);
    assert_eq!(tables.offline.len(), 1);
    assert_eq!(tables.inflight.len(), 2);
    assert_eq!(tables.pubrel.len(), 1);
}

#[test]
fn retained_row_under_another_topic_is_kept_under_the_row_topic() {
    let message = RetainedMessage::new(
        QoS::AtMostOnce,
        "devices/packet".to_string(),
        Vec::new(),
        b"x".to_vec(),
        None,
    );
    let mut tables = Tables::default();
    tables.retained.insert(
        "devices/row".to_string(),
        (encode_retained(&message).expect("wire form"), None),
    );
    let mut storage = TableStorage::open(tables);
    assert_eq!(storage.state.retained.len(), 1);
    assert!(storage
        .state
        .retained
        .get(&"devices/packet".to_string())
        .is_none());
    assert_eq!(
        storage.state.retained.get(&"devices/row".to_string()),
        Some(&message)
    );
    let found = storage.state.retained.matching("devices/row", 1).into_messages();
    assert_eq!(found.len(), 1);
    assert_eq!(found[0].topic_name, "devices/packet");
    let found = storage.state.retained.matching("devices/+", 1).into_messages();
    assert_eq!(found.len(), 1);
    let found = storage.state.retained.matching("devices/packet", 1).into_messages();
    assert!(found.is_empty());
}
