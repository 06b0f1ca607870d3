//! Log directories kept in memory, opened and written as a storage engine does.
use std::collections::BTreeMap;

use pulse::message::PendingPublish;
use pulse::mqtt_codec::encode_publish;
use pulse::packet::{PublishPacket, QoS, SubscriptionOptions};
use pulse::retained_message::RetainedMessage;
use pulse::session::{BrokerState, PersistenceChange, SessionEntry};
use pulse::storage::bytes::Writer;
use pulse::storage::delta::PersistentProjection;
use pulse::storage::frames::{
    ReplayMode, V2_MAGIC, crc32, encoded_patches_len, replay_v2, write_frame, write_patches,
};
use pulse::storage::legacy::{
    V1_MAGIC, V1_OUTBOUND_REPLACE, decode_v1_record, replay_v1_into, replay_v1_log,
};
use pulse::storage::log::{BinaryStorage, CommitPolicy, LogState, WalCompactConfig};
use pulse::storage::manifest::{
    LEGACY_CHECKPOINT_FILE_NAME, LEGACY_LOG_FILE_NAME, MANIFEST_FILE_NAME, V2_CHECKPOINT_PREFIX,
    V2_WAL_PREFIX, WalManifest, is_left_over, legacy_wal_file_name, next_v2_epoch, read_manifest,
    tmp_file_name, v2_checkpoint_file_name, v2_wal_file_name,
};
use pulse::storage::offline_state::OfflineState;
use pulse::storage::patch_codec::{RETAINED_PATCH, encode_patch, encode_retained};
use pulse::storage::patch_decode::decode_patch;
use pulse::storage::projection::prepare_patches;
use pulse::storage::recovery::{
    Generation, ReadPlan, StartPlan, plan_compaction, plan_offline_start, plan_reading,
    plan_v2_start,
};
use pulse::storage::snapshot::{
    CLIENT_PATCH_VERSION, ClientPatch, QueuedSnapshot, RetainedPatch, StoragePatch,
};
use pulse::subscription::SubscriptionEntry;

const V1_LEGACY_FIXTURE_HEX: &str = "5042494e310a11000000010500000076616c69643c000000000700a5ae0521\
26000000030500000076616c69640700000076616c69642f230700000076616c69642f230001000000006e0adb4326000\
000030500000067686f73740700000067686f73742f230700000067686f73742f230001000000004127e9dc3300000008\
0500000076616c696401000000040000160000003214000b76616c69642f746f7069630004006c6976650000000000000\
000ff9f0f4735000000080500000067686f737401000000010000180000003216000b67686f73742f746f706963000100\
6f727068616e000000000000000030ba648f2b000000070500000067686f73740100000000180000003216000b67686f7\
3742f746f7069630001006f727068616e6844bc0e";

const NOW_MS: u64 = 1_000_000;

fn fixture_bytes() -> Vec<u8> {
    V1_LEGACY_FIXTURE_HEX
        .as_bytes()
        .chunks_exact(2)
        .map(|digits| u8::from_str_radix(std::str::from_utf8(digits).unwrap(), 16).unwrap())
        .collect()
}

fn text(value: &str) -> String {
    value.to_string()
}

struct Dir {
    files: BTreeMap<String, Vec<u8>>,
}

struct Open {
    storage: BinaryStorage,
    log: LogState,
    wal: String,
}

impl Dir {
    fn new() -> Self {
        Dir {
            files: BTreeMap::new(),
        }
    }

    fn names(&self) -> Vec<String> {
        self.files.keys().cloned().collect()
    }

    fn manifest(&self) -> WalManifest {
        let contents = String::from_utf8(self.files[MANIFEST_FILE_NAME].clone()).unwrap();
        read_manifest(&contents).unwrap()
    }

    fn install(&mut self, generation: Generation) {
        self.files.insert(
            v2_checkpoint_file_name(generation.epoch),
            generation.checkpoint,
        );
        self.files
            .insert(v2_wal_file_name(generation.epoch), generation.wal);
        self.files
            .insert(text(MANIFEST_FILE_NAME), generation.manifest.into_bytes());
        let manifest = self.manifest();
        self.files.retain(|name, _| !is_left_over(&manifest, name));
    }

    fn plan(&self, now_ms: u64) -> Result<StartPlan, String> {
        let manifest = self
            .files
            .get(MANIFEST_FILE_NAME)
            .map(|bytes| String::from_utf8(bytes.clone()).unwrap());
        let names = self.names();
        match plan_reading(
            manifest.as_deref(),
            self.files.contains_key(LEGACY_LOG_FILE_NAME),
        )? {
            ReadPlan::V2 {
                checkpoint,
                active_log,
                active_epoch,
            } => plan_v2_start(
                active_epoch,
                &self.files[&checkpoint],
                &self.files[&active_log],
                &names,
                now_ms,
            ),
            ReadPlan::V1 {
                checkpoint,
                active_log,
            } => {
                let mut state = replay_v1_log(&self.files[&checkpoint], ReplayMode::Strict)?;
                replay_v1_into(
                    &self.files[&active_log],
                    &mut state,
                    ReplayMode::AllowPhysicalTail,
                )?;
                plan_offline_start(&state, &names, now_ms)
            }
            ReadPlan::LegacyLog => {
                let state = replay_v1_log(
                    &self.files[LEGACY_LOG_FILE_NAME],
                    ReplayMode::AllowPhysicalTail,
                )?;
                plan_offline_start(&state, &names, now_ms)
            }
            ReadPlan::Nothing => plan_offline_start(&OfflineState::new(), &names, now_ms),
        }
    }

    fn open_with(&mut self, compact: WalCompactConfig, now_ms: u64) -> Result<Open, String> {
        let plan = self.plan(now_ms)?;
        if let Some(valid_len) = plan.truncate {
            let wal = self.manifest().active_log;
            self.files.get_mut(&wal).unwrap().truncate(valid_len as usize);
        }
        if let Some(generation) = plan.generation {
            self.install(generation);
        }
        let wal = v2_wal_file_name(plan.active_epoch);
        let current_bytes = self.files[&wal].len() as u64;
        Ok(Open {
            storage: BinaryStorage::open(plan.projection, now_ms),
            log: LogState::open(
                plan.active_epoch,
                CommitPolicy::Strict,
                compact,
                current_bytes,
            ),
            wal,
        })
    }

    fn open(&mut self) -> Result<Open, String> {
        self.open_with(WalCompactConfig::default(), NOW_MS)
    }

    fn with_state(&mut self, open: &mut Open, operation: impl Fn(&mut BrokerState)) {
        operation(&mut open.storage.state);
        let Some(pending) = open.storage.begin_commit().unwrap() else {
            return;
        };
        assert_eq!(
            encoded_patches_len(&pending.patches).unwrap(),
            pending.frames.len() as u64
        );
        self.files
            .get_mut(&open.wal)
            .unwrap()
            .extend_from_slice(&pending.frames);
        assert!(open.log.appended(pending.frames.len() as u64, pending.patches.len()));
        open.storage.finish_commit(&pending.patches).unwrap();
        if open.log.compaction_due(0) {
            let generation =
                plan_compaction(&open.log, &open.storage.projection, &self.names()).unwrap();
            open.log.compacted(generation.epoch);
            open.wal = v2_wal_file_name(generation.epoch);
            self.install(generation);
        }
    }
}

fn compact_always() -> WalCompactConfig {
    WalCompactConfig {
        max_bytes: V2_MAGIC.len() as u64,
        interval_ms: 0,
    }
}

fn publish(topic_name: &str, payload: &[u8], qos: QoS) -> PublishPacket {
    PublishPacket {
        dup: false,
        qos,
        retain: false,
        topic_name: topic_name.to_string(),
        packet_id: None,
        properties: Vec::new(),
        payload: payload.to_vec(),
    }
}

fn retained(topic_name: &str, payload: &[u8], expires_at_ms: Option<u64>) -> RetainedMessage {
    RetainedMessage::new(
        QoS::AtMostOnce,
        topic_name.to_string(),
        Vec::new(),
        payload.to_vec(),
        expires_at_ms,
    )
}

fn retained_patch(topic_name: &str, payload: &[u8]) -> StoragePatch {
    StoragePatch::Retained(RetainedPatch {
        topic_name: topic_name.to_string(),
        message: Some(retained(topic_name, payload, None)),
    })
}

fn state_with_qos1(count: u16) -> BrokerState {
    let mut state = BrokerState::new();
    let mut session = SessionEntry::disconnected(60, Some(123));
    for packet_id in 1..=count {
        session.outbound_qos1.insert(
            packet_id,
            PendingPublish {
                packet: PublishPacket {
                    packet_id: Some(packet_id),
                    ..publish("devices/qos1", b"payload", QoS::AtLeastOnce)
                },
                expires_at_ms: None,
            },
        );
    }
    state.sessions_by_client_id.insert(text("client"), session);
    state
}

fn seed_persistent_state(state: &mut BrokerState) {
    let mut session = SessionEntry::disconnected(60, Some(u64::MAX));
    session.next_packet_id = 7;
    session.next_offline_sequence = 4;
    session.offline_queue.push_back(QueuedSnapshot {
        sequence: 3,
        pending: PendingPublish {
            packet: publish("devices/offline", b"offline", QoS::AtLeastOnce),
            expires_at_ms: Some(456),
        },
    });
    session.outbound_qos1.insert(
        4,
        PendingPublish {
            packet: PublishPacket {
                packet_id: Some(4),
                ..publish("devices/inflight", b"inflight", QoS::AtLeastOnce)
            },
            expires_at_ms: Some(789),
        },
    );
    session.outbound_qos2_pubrel.insert(9, ());
    state.sessions_by_client_id.insert(text("client"), session);
    state.subscriptions.push(SubscriptionEntry {
        client_id: "client".to_string(),
        filter: "devices/#".to_string(),
        match_filter: "devices/#".to_string(),
        shared_group: None,
        options: SubscriptionOptions {
            maximum_qos: QoS::AtLeastOnce,
            no_local: false,
            retain_as_published: false,
            retain_handling: 0,
        },
        subscription_identifier: Some(11),
    });
    state.retained.insert(
        text("devices/retained"),
        retained("devices/retained", b"retained", Some(999)),
    );
    state.mark_client_reset(text("client"));
    state.mark_retained_changed(text("devices/retained"));
}

#[test]
fn recovers_pbin2_state() {
    let mut dir = Dir::new();
    {
        let mut open = dir.open().unwrap();
        dir.with_state(&mut open, seed_persistent_state);
    }
    let open = dir.open().unwrap();
    let state = &open.storage.state;
    let session = state.sessions_by_client_id.get(&text("client")).unwrap();
    assert_eq!(session.next_packet_id, 7);
    assert_eq!(session.next_offline_sequence, 4);
    assert_eq!(session.offline_queue.front().unwrap().sequence, 3);
    assert!(session.outbound_qos1.contains_key(&4));
    assert!(session.outbound_qos2_pubrel.contains_key(&9));
    assert_eq!(state.subscriptions.len(), 1);
    assert!(state.retained.contains_key(&text("devices/retained")));
}

#[test]
fn v2_unknown_tag_and_complete_crc_failure_are_rejected() {
    let mut dir = Dir::new();
    drop(dir.open().unwrap());
    let wal = dir.manifest().active_log;
    let payload = [99u8];
    let file = dir.files.get_mut(&wal).unwrap();
    file.extend_from_slice(&(payload.len() as u32).to_le_bytes());
    file.extend_from_slice(&payload);
    file.extend_from_slice(&crc32(&payload).to_le_bytes());
    assert_eq!(dir.open().err().as_deref(), Some("unknown PBIN2 frame tag"));

    let mut dir = Dir::new();
    drop(dir.open().unwrap());
    let wal = dir.manifest().active_log;
    let patch = StoragePatch::Retained(RetainedPatch {
        topic_name: "missing".to_string(),
        message: None,
    });
    let payload = encode_patch(&patch).unwrap();
    let file = dir.files.get_mut(&wal).unwrap();
    file.extend_from_slice(&(payload.len() as u32).to_le_bytes());
    file.extend_from_slice(&payload);
    file.extend_from_slice(&0u32.to_le_bytes());
    assert_eq!(
        dir.open().err().as_deref(),
        Some("PBIN2 frame checksum mismatch")
    );
}

#[test]
fn pbin2_rejects_trailing_bytes_in_nested_mqtt_packet() {
    let message = retained("devices/trailing", b"payload", None);
    let mut mqtt_packet = encode_retained(&message).unwrap();
    let record = |mqtt_packet: &[u8]| {
        let mut writer = Writer::new();
        writer.u8(RETAINED_PATCH);
        writer.string("devices/trailing");
        writer.bool(true);
        writer.opt_u64(None);
        writer.block(mqtt_packet);
        writer.bytes
    };
    assert!(decode_patch(&record(&mqtt_packet)).is_ok());
    mqtt_packet.push(0);
    assert!(decode_patch(&record(&mqtt_packet)).is_err());
}

#[test]
fn active_wal_allows_only_physical_tail() {
    let mut dir = Dir::new();
    {
        let mut open = dir.open().unwrap();
        dir.with_state(&mut open, seed_persistent_state);
    }
    let wal = dir.manifest().active_log;
    dir.files
        .get_mut(&wal)
        .unwrap()
        .extend_from_slice(&[12, 0, 0]);
    {
        let mut open = dir.open().unwrap();
        dir.with_state(&mut open, |state| {
            state
                .retained
                .insert(text("after/tail"), retained("after/tail", b"ok", None));
            state.mark_retained_changed(text("after/tail"));
        });
    }
    let open = dir.open().unwrap();
    let state = &open.storage.state;
    assert!(state.retained.contains_key(&text("after/tail")));
    assert!(state.sessions_by_client_id.contains_key(&text("client")));
}

#[test]
fn active_wal_accepts_every_final_frame_truncation_but_rejects_middle_corruption() {
    let first = write_patches(&vec![retained_patch("matrix/first", b"first")]).unwrap();
    let second = write_patches(&vec![retained_patch("matrix/second", b"second")]).unwrap();
    let mut complete = V2_MAGIC.to_vec();
    complete.extend_from_slice(&first);
    complete.extend_from_slice(&second);
    let first_end = V2_MAGIC.len() + first.len();

    for cut in 0..V2_MAGIC.len() {
        assert!(
            replay_v2(&complete[..cut], ReplayMode::AllowPhysicalTail).is_err(),
            "active WAL accepted an incomplete header at byte {cut}"
        );
    }
    for cut in V2_MAGIC.len()..complete.len() {
        let projection = replay_v2(&complete[..cut], ReplayMode::AllowPhysicalTail)
            .unwrap_or_else(|error| panic!("active WAL truncation at {cut}: {error}"));
        assert_eq!(
            projection.retained.contains_key(&text("matrix/first")),
            cut >= first_end
        );
        assert!(!projection.retained.contains_key(&text("matrix/second")));
    }

    let mut corrupted = complete;
    corrupted[V2_MAGIC.len() + 4] ^= 0x7f;
    assert!(replay_v2(&corrupted, ReplayMode::AllowPhysicalTail).is_err());
}

#[test]
fn pbin2_rejects_unknown_client_patch_version_with_valid_crc() {
    let mut payload =
        encode_patch(&StoragePatch::Client(ClientPatch::delete(text("client")))).unwrap();
    payload[1] = CLIENT_PATCH_VERSION + 1;
    let mut bytes = V2_MAGIC.to_vec();
    bytes.extend_from_slice(&write_frame(&payload).unwrap());

    assert!(replay_v2(&bytes, ReplayMode::AllowPhysicalTail).is_err());
}

#[test]
fn compaction_uses_generation_scoped_files() {
    let mut dir = Dir::new();
    let mut open = dir.open_with(compact_always(), NOW_MS).unwrap();
    dir.with_state(&mut open, seed_persistent_state);
    let manifest = dir.manifest();
    assert_eq!(manifest.version, 2);
    assert_eq!(manifest.active_epoch, 2);
    assert!(manifest.checkpoint.starts_with(V2_CHECKPOINT_PREFIX));
    assert!(manifest.active_log.starts_with(V2_WAL_PREFIX));
    assert!(dir.files.contains_key(&manifest.checkpoint));
    assert!(dir.files.contains_key(&manifest.active_log));
    assert!(!dir.files.contains_key(LEGACY_LOG_FILE_NAME));
    assert_eq!(dir.files.len(), 3);
}

#[test]
fn qos1_ack_patch_size_does_not_depend_on_remaining_inflight() {
    let patch_len = |count: u16| {
        let mut state = state_with_qos1(count);
        let projection = PersistentProjection::from_state(&state);
        let mut session = state.sessions_by_client_id.remove(&text("client")).unwrap();
        session.outbound_qos1.remove(&1);
        state.sessions_by_client_id.insert(text("client"), session);
        let patches = prepare_patches(
            &projection,
            &state,
            &vec![PersistenceChange::ClientChanged(text("client"))],
        );
        assert_eq!(patches.len(), 1);
        encode_patch(&patches[0]).unwrap().len()
    };
    let one_remaining = patch_len(2);
    let thousand_remaining = patch_len(1_001);
    assert_eq!(one_remaining, thousand_remaining);
    assert!(one_remaining < 64);
}

#[test]
fn offline_queue_drain_writes_linear_patch_bytes() {
    let drain_bytes = |count: u64| {
        let mut state = BrokerState::new();
        let mut session = SessionEntry::disconnected(60, Some(u64::MAX));
        session.next_offline_sequence = count;
        for sequence in 0..count {
            session.offline_queue.push_back(QueuedSnapshot {
                sequence,
                pending: PendingPublish {
                    packet: publish("devices/offline", b"payload", QoS::AtLeastOnce),
                    expires_at_ms: None,
                },
            });
        }
        state.sessions_by_client_id.insert(text("client"), session);
        let mut projection = PersistentProjection::from_state(&state);
        let mut total_bytes = 0;
        let mut patch_bytes = None;

        for _ in 0..count {
            let mut session = state.sessions_by_client_id.remove(&text("client")).unwrap();
            session.offline_queue.pop_front().unwrap();
            state.sessions_by_client_id.insert(text("client"), session);
            let patches = prepare_patches(
                &projection,
                &state,
                &vec![PersistenceChange::ClientChanged(text("client"))],
            );
            assert_eq!(patches.len(), 1);
            let encoded_len = encode_patch(&patches[0]).unwrap().len();
            assert_eq!(*patch_bytes.get_or_insert(encoded_len), encoded_len);
            total_bytes += encoded_len;
            projection.apply_patch(&patches[0]).unwrap();
        }
        (total_bytes, patch_bytes.unwrap())
    };

    let (one_hundred_total, patch_bytes) = drain_bytes(100);
    let (one_thousand_total, _) = drain_bytes(1_000);
    assert_eq!(one_hundred_total, patch_bytes * 100);
    assert_eq!(one_thousand_total, patch_bytes * 1_000);
    assert!(patch_bytes < 64);
}

#[test]
fn client_frames_are_sorted_by_client_id() {
    let mut state = BrokerState::new();
    state
        .sessions_by_client_id
        .insert(text("zeta"), SessionEntry::disconnected(60, Some(1)));
    state
        .sessions_by_client_id
        .insert(text("alpha"), SessionEntry::disconnected(60, Some(1)));
    let patches = prepare_patches(
        &PersistentProjection::new(),
        &state,
        &vec![
            PersistenceChange::ClientReset(text("zeta")),
            PersistenceChange::ClientReset(text("alpha")),
        ],
    );
    let client_ids = patches
        .iter()
        .map(|patch| match patch {
            StoragePatch::Client(patch) => patch.client_id.as_str(),
            StoragePatch::Retained(_) => panic!("unexpected retained patch"),
        })
        .collect::<Vec<_>>();
    assert_eq!(client_ids, ["alpha", "zeta"]);
}

#[test]
fn checkpoint_rejects_every_truncation() {
    let mut dir = Dir::new();
    let mut open = dir.open_with(compact_always(), NOW_MS).unwrap();
    dir.with_state(&mut open, seed_persistent_state);
    let checkpoint = dir.files[&dir.manifest().checkpoint].clone();
    assert!(replay_v2(&checkpoint, ReplayMode::Strict).is_ok());
    for cut in 0..checkpoint.len() {
        assert!(
            replay_v2(&checkpoint[..cut], ReplayMode::Strict).is_err(),
            "checkpoint truncation at byte {cut} was accepted"
        );
    }
}

#[test]
fn migrates_fixed_pbin1_legacy_and_drops_orphans() {
    let mut dir = Dir::new();
    dir.files.insert(text(LEGACY_LOG_FILE_NAME), fixture_bytes());

    let open = dir.open().unwrap();
    let state = &open.storage.state;
    let session = state.sessions_by_client_id.get(&text("valid")).unwrap();
    assert!(session.outbound_qos1.contains_key(&4));
    assert_eq!(state.subscriptions.len(), 1);
    assert_eq!(state.subscriptions[0].client_id, "valid");
    assert!(!state.sessions_by_client_id.contains_key(&text("ghost")));

    let manifest = dir.manifest();
    assert_eq!(manifest.version, 2);
    assert!(!dir.files.contains_key(LEGACY_LOG_FILE_NAME));
    let projection = replay_v2(&dir.files[&manifest.checkpoint], ReplayMode::Strict).unwrap();
    assert_eq!(projection.clients.len(), 1);
    assert!(projection.clients.contains_key(&text("valid")));
}

#[test]
fn migrates_large_pbin1_orphan_outbound_without_checkpointing_payload() {
    const ORPHAN_QOS1_COUNT: u16 = 22_566;

    let encoded_packet = encode_publish(&PublishPacket {
        packet_id: Some(1),
        ..publish("orphan/qos1", &[b'x'; 905], QoS::AtLeastOnce)
    })
    .unwrap();
    let mut payload = Writer::new();
    payload.u8(V1_OUTBOUND_REPLACE);
    payload.string("orphan");
    payload.len(usize::from(ORPHAN_QOS1_COUNT));
    for packet_id in 1..=ORPHAN_QOS1_COUNT {
        payload.u16(packet_id);
        payload.opt_u64(None);
        payload.block(&encoded_packet);
    }
    payload.len(0);
    payload.len(0);
    let mut legacy = V1_MAGIC.to_vec();
    legacy.extend_from_slice(&write_frame(&payload.bytes).unwrap());
    assert!(legacy.len() > 20_000_000);
    let mut dir = Dir::new();
    dir.files.insert(text(LEGACY_LOG_FILE_NAME), legacy);

    let open = dir.open().unwrap();
    assert!(open.storage.state.sessions_by_client_id.is_empty());

    let checkpoint = &dir.files[&dir.manifest().checkpoint];
    let projection = replay_v2(checkpoint, ReplayMode::Strict).unwrap();
    assert!(projection.clients.is_empty());
    assert!(checkpoint.len() < 64);
    assert!(!dir.files.contains_key(LEGACY_LOG_FILE_NAME));
}

#[test]
fn migrates_fixed_pbin1_manifest_layout() {
    let mut dir = Dir::new();
    dir.files
        .insert(text(LEGACY_CHECKPOINT_FILE_NAME), fixture_bytes());
    dir.files.insert(legacy_wal_file_name(5), V1_MAGIC.to_vec());
    dir.files.insert(
        text(MANIFEST_FILE_NAME),
        b"version=1\ncheckpoint=broker.checkpoint\nactive_log=broker.binlog.5\nactive_epoch=5\n"
            .to_vec(),
    );

    let open = dir.open().unwrap();
    let state = &open.storage.state;
    assert!(state.sessions_by_client_id.contains_key(&text("valid")));
    assert!(!state.sessions_by_client_id.contains_key(&text("ghost")));
    assert_eq!(dir.manifest().version, 2);
    assert!(!dir.files.contains_key(LEGACY_CHECKPOINT_FILE_NAME));
    assert!(!dir.files.contains_key(&legacy_wal_file_name(5)));
}

#[test]
fn transient_client_is_absent_from_compacted_checkpoint() {
    let mut dir = Dir::new();
    let mut open = dir.open_with(compact_always(), NOW_MS).unwrap();
    dir.with_state(&mut open, |state| {
        let mut session = SessionEntry::disconnected(0, None);
        for packet_id in 1..=1_000 {
            session.outbound_qos1.insert(
                packet_id,
                PendingPublish {
                    packet: PublishPacket {
                        packet_id: Some(packet_id),
                        ..publish("transient", b"payload", QoS::AtLeastOnce)
                    },
                    expires_at_ms: None,
                },
            );
        }
        state
            .sessions_by_client_id
            .insert(text("transient"), session);
        state.mark_client_reset(text("transient"));
    });
    let checkpoint = &dir.files[&dir.manifest().checkpoint];
    let projection = replay_v2(checkpoint, ReplayMode::Strict).unwrap();
    assert!(!projection.clients.contains_key(&text("transient")));
}

#[test]
fn recovered_session_deadline_is_persisted_once() {
    let mut dir = Dir::new();
    {
        let mut open = dir.open().unwrap();
        dir.with_state(&mut open, |state| {
            state
                .sessions_by_client_id
                .insert(text("finite"), SessionEntry::disconnected(60, None));
            state.mark_client_reset(text("finite"));
        });
    }
    let deadline = |dir: &mut Dir, now_ms: u64| {
        let open = dir.open_with(WalCompactConfig::default(), now_ms).unwrap();
        let session = open
            .storage
            .state
            .sessions_by_client_id
            .get(&text("finite"))
            .unwrap();
        session.expires_at_ms.expect("recovered deadline")
    };
    let first_deadline = deadline(&mut dir, NOW_MS);
    let first_epoch = dir.manifest().active_epoch;
    let second_deadline = deadline(&mut dir, NOW_MS + 2);
    assert_eq!(first_deadline, NOW_MS + 60_000);
    assert_eq!(second_deadline, first_deadline);
    assert_eq!(dir.manifest().active_epoch, first_epoch);
}

#[test]
fn manifests_are_checked() {
    let fault = |contents: &str| match read_manifest(contents) {
        Ok(_) => panic!("manifest was read"),
        Err(message) => message,
    };
    assert_eq!(fault("version"), "invalid manifest line: version");
    assert_eq!(
        fault("version=x"),
        "invalid manifest version: invalid digit found in string"
    );
    assert_eq!(
        fault("version="),
        "invalid manifest version: cannot parse integer from empty string"
    );
    assert_eq!(
        fault("version=4294967296"),
        "invalid manifest version: number too large to fit in target type"
    );
    assert_eq!(
        fault("active_epoch=-1"),
        "invalid manifest active_epoch: invalid digit found in string"
    );
    assert_eq!(
        fault("version=1\nversion=1"),
        "duplicate manifest field: version"
    );
    assert_eq!(
        fault("checkpoint=a\ncheckpoint=b"),
        "duplicate manifest field: checkpoint"
    );
    assert_eq!(fault("colour=red"), "unknown manifest field: colour");
    assert_eq!(fault(""), "manifest missing version");
    assert_eq!(fault("version=2"), "manifest missing checkpoint");
    assert_eq!(
        fault("version=2\ncheckpoint=c"),
        "manifest missing active_log"
    );
    assert_eq!(
        fault("version=2\ncheckpoint=c\nactive_log=l"),
        "manifest missing active_epoch"
    );
    let plan = |contents: &str| match plan_reading(Some(contents), false) {
        Ok(_) => panic!("manifest was accepted"),
        Err(message) => message,
    };
    let tail = "checkpoint=c\nactive_log=l\nactive_epoch=1\n";
    assert_eq!(
        plan(&format!("version=3\n{tail}")),
        "unsupported Pulse binary manifest version 3"
    );
    assert_eq!(
        plan(&format!("version=2\n{tail}")),
        "PBIN2 manifest has an unsupported format"
    );
    assert_eq!(
        plan(&format!("version=2\nformat=pbin2\n{tail}")),
        "PBIN2 manifest files do not match active_epoch"
    );
    assert_eq!(
        plan(&format!("version=1\nformat=pbin2\n{tail}")),
        "PBIN1 manifest unexpectedly declares a format"
    );
    assert_eq!(
        plan(&format!("version=1\n{tail}")),
        "PBIN1 manifest active_log does not match active_epoch"
    );
    assert_eq!(
        plan("version=1\ncheckpoint=../c\nactive_log=broker.binlog.1\nactive_epoch=1\n"),
        "manifest path must be a file name: ../c"
    );
}

#[test]
fn manifests_read_back() {
    let manifest = WalManifest::v2(17);
    assert_eq!(
        manifest.encode(),
        "version=2\nformat=pbin2\ncheckpoint=broker.pbin2.checkpoint.17\n\
         active_log=broker.pbin2.wal.17\nactive_epoch=17\n"
    );
    let found = read_manifest(&format!("\r\n {}\n", manifest.encode())).unwrap();
    assert_eq!(found.version, 2);
    assert_eq!(found.format.as_deref(), Some("pbin2"));
    assert_eq!(found.checkpoint, "broker.pbin2.checkpoint.17");
    assert_eq!(found.active_log, "broker.pbin2.wal.17");
    assert_eq!(found.active_epoch, 17);
}

#[test]
fn files_of_other_generations_are_left_over() {
    let manifest = WalManifest::v2(3);
    for (name, stale) in [
        ("broker.manifest", false),
        ("broker.manifest.tmp", true),
        ("broker.pbin2.checkpoint.3", false),
        ("broker.pbin2.checkpoint.2", true),
        ("broker.pbin2.checkpoint.x", false),
        ("broker.pbin2.wal.3", false),
        ("broker.pbin2.wal.4", true),
        ("broker.binlog", true),
        ("broker.checkpoint", true),
        ("broker.binlog.9", true),
        ("notes.txt", false),
    ] {
        assert_eq!(is_left_over(&manifest, name), stale, "{name}");
    }
    assert_eq!(tmp_file_name("a"), "a.tmp");
    let names = vec![
        text("broker.pbin2.wal.4"),
        text("broker.pbin2.checkpoint.11"),
        text("broker.binlog.99"),
    ];
    assert_eq!(next_v2_epoch(&names), Ok(12));
    assert_eq!(next_v2_epoch(&Vec::new()), Ok(1));
    let last = vec![format!("broker.pbin2.wal.{}", u64::MAX)];
    assert_eq!(next_v2_epoch(&last), Err("PBIN2 epoch exhausted"));
}

#[test]
fn log_is_flushed_and_compacted_by_policy() {
    let open = |policy: CommitPolicy| {
        LogState::open(
            1,
            policy,
            WalCompactConfig {
                max_bytes: 100,
                interval_ms: 1_000,
            },
            6,
        )
    };
    let mut strict = open(CommitPolicy::Strict);
    assert!(strict.appended(10, 1));
    let mut balanced = open(CommitPolicy::Balanced);
    assert!(!balanced.appended(10, 63));
    assert!(balanced.appended(10, 1));
    assert!(!balanced.appended(10, 1));
    let mut fast = open(CommitPolicy::Fast);
    assert!(!fast.appended(10, 1_000));
    assert!(!fast.compaction_due(999));
    assert!(fast.compaction_due(1_000));
    assert!(!open(CommitPolicy::Fast).compaction_due(1_000));
    fast.appended(85, 1);
    assert!(fast.compaction_due(0));
    fast.compacted(7);
    assert!(!fast.compaction_due(1_000));
    assert_eq!(fast.current_bytes, 6);
    assert_eq!(
        CommitPolicy::from_str("balanced").expect("policy"),
        CommitPolicy::Balanced
    );
    assert_eq!(
        CommitPolicy::from_str("slow").err().unwrap().message(),
        "storage.commit_policy must be one of strict, balanced, fast; got `slow`"
    );
}

#[test]
fn checksums_are_those_of_crc32() {
    assert_eq!(crc32(b"123456789"), 0xcbf4_3926);
    assert_eq!(crc32(b""), 0);
}

#[test]
fn old_records_are_checked() {
    let fault = |bytes: &[u8]| decode_v1_record(bytes).err();
    assert_eq!(fault(&[]), Some("unexpected end of PBIN record"));
    assert_eq!(fault(&[9]), Some("unknown PBIN1 record tag"));
    assert_eq!(fault(&[2, 1, 0, 0, 0, 0xff]), Some("PBIN string is not UTF-8"));
    assert_eq!(
        fault(&[2, 1, 0, 0, 0, b'a', 0]),
        Some("PBIN record contains trailing bytes")
    );
    assert_eq!(
        fault(&[5, 1, 0, 0, 0, b'a', 0, 1, 0, 0, 0, 0]),
        Some("invalid PBIN1 retained packet")
    );
    assert_eq!(
        fault(&[8, 1, 0, 0, 0, b'a', 0, 0, 0, 0, 0, 0, 0, 0, 2, 0, 0, 0, 1, 0, 1, 0]),
        Some("duplicate PBIN1 PUBREL packet identifier")
    );
}

#[test]
fn patches_have_one_length() {
    let bytes = encode_patch(&retained_patch("devices/a", b"payload")).unwrap();
    assert!(decode_patch(&bytes).is_ok());
    for count in 0..bytes.len() {
        assert!(decode_patch(&bytes[..count]).is_err());
    }
    let mut longer = bytes.clone();
    longer.push(0);
    assert_eq!(
        decode_patch(&longer).err(),
        Some("PBIN record contains trailing bytes")
    );
    let client = StoragePatch::Client(ClientPatch::delete("client".to_string()));
    let bytes = encode_patch(&client).unwrap();
    for count in 0..bytes.len() {
        assert!(decode_patch(&bytes[..count]).is_err());
    }
    assert!(decode_patch(&bytes).is_ok());
}
