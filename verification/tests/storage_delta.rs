use pulse::ordered_map::OrderedMap;
use pulse::packet::{PublishPacket, QoS};
use pulse::retained_message::RetainedMessage;
use pulse::storage::delta::PersistentProjection;
use pulse::storage::snapshot::{
    ClientPatch, ClientPatchMode, ClientSnapshot, PendingSnapshot, QueuedSnapshot, RetainedPatch,
    SessionSnapshot, StoragePatch, SubscriptionSnapshot,
};
use pulse::value::Value;

fn pending(payload: &[u8]) -> PendingSnapshot {
    PendingSnapshot {
        packet: PublishPacket {
            dup: false,
            qos: QoS::AtLeastOnce,
            retain: false,
            topic_name: "test".to_string(),
            packet_id: None,
            properties: Vec::new(),
            payload: payload.to_vec(),
        },
        expires_at_ms: None,
    }
}

fn client() -> ClientSnapshot {
    let mut first = pending(b"qos1");
    first.packet.packet_id = Some(1);
    let mut offline = OrderedMap::new();
    offline.insert(0, pending(b"zero"));
    offline.insert(1, pending(b"one"));
    let mut qos1 = OrderedMap::new();
    qos1.insert(1, first);
    ClientSnapshot {
        session: SessionSnapshot {
            session_expiry_interval: 60,
            expires_at_ms: None,
            next_packet_id: 1,
            next_offline_sequence: 3,
        },
        subscriptions: OrderedMap::new(),
        offline,
        qos1,
        qos2_publish: OrderedMap::new(),
        qos2_pubrel: OrderedMap::new(),
    }
}

fn name(text: &str) -> String {
    text.to_string()
}

fn holds(projection: &PersistentProjection, client_id: &str, client: &ClientSnapshot) -> bool {
    projection
        .clients
        .get(&name(client_id))
        .is_some_and(|found| found.same(client))
}

#[test]
fn ack_and_queue_handoff_is_a_constant_size_merge() {
    let previous = client();
    let mut next = previous.dup();
    next.offline.remove(&0);
    next.offline.insert(2, pending(b"two"));
    next.qos1.remove(&1);
    let mut qos1 = pending(b"next");
    qos1.packet.packet_id = Some(2);
    next.qos1.insert(2, qos1);
    next.session.next_packet_id = 3;

    let patch = ClientPatch::between(name("client"), Some(&previous), Some(&next), false)
        .expect("client patch");
    assert_eq!(patch.mode, ClientPatchMode::Merge);
    assert_eq!(patch.offline_remove_through, Some(0));
    assert_eq!(patch.offline_append.len(), 1);
    assert_eq!(patch.qos1_deletes.len(), 1);
    assert!(patch.qos1_deletes.contains_key(&1));
    assert_eq!(patch.qos1_upserts.len(), 1);
}

#[test]
fn projection_is_updated_only_when_patch_is_applied() {
    let client = client();
    let mut projection = PersistentProjection::new();
    let patch = StoragePatch::Client(ClientPatch::reset(name("client"), &client));
    assert!(!projection.clients.contains_key(&name("client")));
    projection.apply_patch(&patch).expect("apply patch");
    assert!(holds(&projection, "client", &client));
}

#[test]
fn reset_rejects_packet_identifier_reused_across_qos_states() {
    let mut client = client();
    let mut qos2 = pending(b"qos2");
    qos2.packet.qos = QoS::ExactlyOnce;
    qos2.packet.packet_id = Some(1);
    client.qos2_publish.insert(1, qos2);
    let patch = StoragePatch::Client(ClientPatch::reset(name("client"), &client));
    let mut projection = PersistentProjection::new();

    assert!(patch.validate().is_err());
    assert!(projection.apply_patch(&patch).is_err());
    assert!(projection.clients.is_empty());
}

#[test]
fn patches_reject_semantically_invalid_topics_and_subscriptions() {
    let mut invalid_outbound = client();
    let mut wrong = invalid_outbound.qos1.remove(&1).expect("publication");
    wrong.packet.topic_name = "devices/+".to_string();
    invalid_outbound.qos1.insert(1, wrong);
    assert!(
        ClientPatch::reset(name("client"), &invalid_outbound)
            .validate()
            .is_err()
    );

    let mut invalid_subscription = ClientPatch::reset(name("client"), &client());
    invalid_subscription
        .subscription_upserts
        .push(SubscriptionSnapshot {
            client_id: "client".to_string(),
            filter: "$share/group/devices/#".to_string(),
            match_filter: "wrong/#".to_string(),
            shared_group: Some("group".to_string()),
            maximum_qos: QoS::AtLeastOnce,
            no_local: false,
            retain_as_published: false,
            retain_handling: 0,
            subscription_identifier: Some(1),
        });
    assert!(invalid_subscription.validate().is_err());

    let retained = RetainedMessage::new(
        QoS::AtMostOnce,
        "devices/#".to_string(),
        Vec::new(),
        b"invalid".to_vec(),
        None,
    );
    assert!(
        RetainedPatch {
            topic_name: "devices/#".to_string(),
            message: Some(retained),
        }
        .validate()
        .is_err()
    );
}

#[test]
fn merge_rejects_offline_sequence_regression_without_mutating_projection() {
    let client = client();
    let mut projection = PersistentProjection::new();
    projection.clients.insert(name("client"), client.dup());

    let mut counter_regression = ClientPatch::empty(name("client"), ClientPatchMode::Merge);
    let mut session = client.session;
    session.next_offline_sequence = 2;
    counter_regression.session = Some(session);
    assert!(counter_regression.validate().is_ok());
    assert!(
        projection
            .apply_patch(&StoragePatch::Client(counter_regression))
            .is_err()
    );
    assert!(holds(&projection, "client", &client));

    let mut reused_sequence = ClientPatch::empty(name("client"), ClientPatchMode::Merge);
    let mut session = client.session;
    session.next_offline_sequence = 4;
    reused_sequence.session = Some(session);
    reused_sequence.offline_append.push(QueuedSnapshot {
        sequence: 2,
        pending: pending(b"reused"),
    });
    assert!(reused_sequence.validate().is_ok());
    assert!(
        projection
            .apply_patch(&StoragePatch::Client(reused_sequence))
            .is_err()
    );
    assert!(holds(&projection, "client", &client));
}

#[test]
fn merge_rejects_packet_identifier_conflicting_with_existing_state() {
    let client = client();
    let mut projection = PersistentProjection::new();
    projection.clients.insert(name("client"), client.dup());
    let mut patch = ClientPatch::empty(name("client"), ClientPatchMode::Merge);
    patch.pubrel_add.insert(1, ());

    assert!(patch.validate().is_ok());
    assert!(
        projection
            .apply_patch(&StoragePatch::Client(patch))
            .is_err()
    );
    assert!(holds(&projection, "client", &client));
}

const NOW_MS: u64 = 1_000_000;

#[test]
fn offline_recovery_drops_zero_expiry_sessions() {
    let mut projection = PersistentProjection::new();
    let mut client = client();
    client.session.session_expiry_interval = 0;
    projection.clients.insert(name("transient"), client);
    projection.canonicalize_for_offline_recovery(NOW_MS);
    assert!(!projection.clients.contains_key(&name("transient")));
    assert!(
        projection
            .into_state(NOW_MS)
            .sessions_by_client_id
            .is_empty()
    );
}

#[test]
fn offline_recovery_drops_sessions_with_elapsed_deadlines() {
    let mut projection = PersistentProjection::new();
    let mut expired = client();
    expired.session.expires_at_ms = Some(NOW_MS - 1);
    projection.clients.insert(name("expired"), expired);

    assert!(projection.canonicalize_for_offline_recovery(NOW_MS));
    assert!(!projection.clients.contains_key(&name("expired")));
}

#[test]
fn offline_recovery_starts_finite_expiry_but_preserves_never_expire() {
    let mut projection = PersistentProjection::new();
    let mut finite = client();
    finite.session.session_expiry_interval = 60;
    finite.session.expires_at_ms = None;
    let mut forever = client();
    forever.session.session_expiry_interval = u32::MAX;
    forever.session.expires_at_ms = None;
    projection.clients.insert(name("finite"), finite);
    projection.clients.insert(name("forever"), forever);

    projection.canonicalize_for_offline_recovery(NOW_MS);
    let finite_expiry = projection
        .clients
        .get(&name("finite"))
        .expect("finite session")
        .session
        .expires_at_ms
        .expect("finite recovery expiry");
    assert!(finite_expiry >= NOW_MS + 60_000);
    assert!(finite_expiry <= NOW_MS + 60_000);
    let forever = projection
        .clients
        .get(&name("forever"))
        .expect("endless session");
    assert_eq!(forever.session.expires_at_ms, None);
    assert!(!projection.canonicalize_for_offline_recovery(NOW_MS));
}

#[test]
fn merge_without_a_stored_session_is_refused() {
    let mut projection = PersistentProjection::new();
    let mut patch = ClientPatch::empty(name("client"), ClientPatchMode::Merge);
    patch.pubrel_add.insert(1, ());
    assert_eq!(
        projection.apply_patch(&StoragePatch::Client(patch)),
        Err("client merge patch has no persisted session")
    );
    projection
        .apply_patch(&StoragePatch::Client(ClientPatch::delete(name("client"))))
        .expect("deleting what is not there");
}

#[test]
fn patch_between_states_leads_from_one_to_the_other() {
    let previous = client();
    let mut next = client();
    next.subscriptions.insert(
        name("devices/+"),
        SubscriptionSnapshot {
            client_id: "client".to_string(),
            filter: "devices/+".to_string(),
            match_filter: "devices/+".to_string(),
            shared_group: None,
            maximum_qos: QoS::AtLeastOnce,
            no_local: true,
            retain_as_published: false,
            retain_handling: 1,
            subscription_identifier: Some(4),
        },
    );
    next.qos1.remove(&1);
    next.qos2_pubrel.insert(9, ());
    for (before, after, force_reset) in [
        (Some(&previous), Some(&next), false),
        (Some(&previous), Some(&next), true),
        (None, Some(&next), false),
        (Some(&next), None, false),
    ] {
        let mut projection = PersistentProjection::new();
        if let Some(before) = before {
            projection.clients.insert(name("client"), before.dup());
        }
        let patch = ClientPatch::between(name("client"), before, after, force_reset)
            .expect("some difference");
        projection
            .apply_patch(&StoragePatch::Client(patch))
            .expect("apply difference");
        match after {
            Some(after) => assert!(holds(&projection, "client", after)),
            None => assert!(projection.clients.is_empty()),
        }
    }
    assert!(ClientPatch::between(name("client"), Some(&next), Some(&next), false).is_none());
}
