//! What is stored of a state says all that has to come back.
use vstd::prelude::*;

use crate::message::PendingView;
use crate::numbers::decimal;
use crate::ordered_map::ascending;
use crate::ordered_map::entries_of;
use crate::ordered_map::entries_of_entries;
use crate::ordered_map::map_of;
use crate::ordered_map::map_prefix;
use crate::packet::QoS;
use crate::protocol::match_filter_of;
use crate::protocol::shared_group;
use crate::protocol::valid_topic_filter;
use crate::protocol::valid_topic_name;
use crate::session::SessionView;
use crate::session::StateView;
use crate::storage::delta::ProjectionView;
use crate::storage::delta::merged;
use crate::storage::delta::patched_client;
use crate::storage::delta::queued_of;
use crate::storage::log::CommitPolicy;
use crate::storage::log::changes_forgotten;
use crate::storage::log::compaction_epoch_of;
use crate::storage::log::flush_due;
use crate::storage::manifest::LogFormat;
use crate::storage::manifest::ManifestView;
use crate::storage::manifest::highest_epoch;
use crate::storage::manifest::manifest_format;
use crate::storage::projection::canonical;
use crate::storage::projection::client_snapshot;
use crate::storage::projection::queue_by_sequence;
use crate::storage::projection::restored_session;
use crate::storage::projection::restored_subscription;
use crate::storage::projection::stored_client;
use crate::storage::projection::subscriptions_by_filter;
use crate::storage::snapshot::ClientPatchMode;
use crate::storage::snapshot::ClientPatchView;
use crate::storage::snapshot::ClientView;
use crate::storage::snapshot::MAX_SEQUENCE;
use crate::storage::snapshot::QueuedSnapshotView;
use crate::storage::snapshot::SessionSnapshot;
use crate::storage::snapshot::SubscriptionSnapshotView;
use crate::storage::snapshot::all_valid_outbound;
use crate::storage::snapshot::client_defect;
use crate::storage::snapshot::client_patch_defect;
use crate::storage::snapshot::deletes_agree;
use crate::storage::snapshot::empty_delta;
use crate::storage::snapshot::has_deletes;
use crate::storage::snapshot::has_filter;
use crate::storage::snapshot::names_zero;
use crate::storage::snapshot::subscription_defect;
use crate::storage::snapshot::subscription_snapshot;
use crate::storage::snapshot::upserts_defect;
use crate::storage::snapshot::valid_appends;
use crate::storage::snapshot::valid_offline;
use crate::storage::snapshot::valid_outbound;
use crate::subscribing_laws::has_subscription;
use crate::subscription::EntryView;

verus! {

/// A subscription comes back as it was stored, and is stored as it is.
pub proof fn subscription_comes_back(entry: EntryView)
    ensures
        restored_subscription(subscription_snapshot(entry)) == entry,
        subscription_snapshot(entry).client_id == entry.client_id,
        subscription_snapshot(entry).filter == entry.filter,
        subscription_snapshot(entry).no_local == entry.options.no_local,
        subscription_snapshot(entry).maximum_qos == entry.options.maximum_qos,
{
}

/// The numbers of a queue grow.
pub open spec fn numbers_grow(queue: Seq<QueuedSnapshotView>) -> bool {
    forall|i: int, j: int|
        #![trigger queue[i], queue[j]]
        0 <= i < j < queue.len() ==> queue[i].sequence < queue[j].sequence
}

proof fn queue_entries(queue: Seq<QueuedSnapshotView>)
    requires
        numbers_grow(queue),
    ensures
        ({
            let entries = Seq::new(
                queue.len(),
                |i: int| (queue[i].sequence, queue[i].pending),
            );
            &&& ascending::<u64, PendingView>(entries)
            &&& map_of(entries) == queue_by_sequence(queue)
        }),
    decreases queue.len(),
{
    let entries = Seq::new(queue.len(), |i: int| (queue[i].sequence, queue[i].pending));
    assert(ascending::<u64, PendingView>(entries));
    if queue.len() == 0 {
        assert(map_of(entries) =~= Map::empty());
    } else {
        let front = queue.drop_last();
        let less = Seq::new(front.len(), |i: int| (front[i].sequence, front[i].pending));
        queue_entries(front);
        let last = queue.len() - 1;
        map_prefix::<u64, PendingView>(entries, last);
        assert(entries.take(last) =~= less);
        assert(entries.take(last + 1) =~= entries);
    }
}

/// A queue comes back in its order.
pub proof fn queue_comes_back(queue: Seq<QueuedSnapshotView>)
    requires
        numbers_grow(queue),
    ensures
        queued_of(entries_of::<u64, PendingView>(queue_by_sequence(queue))) == queue,
{
    let entries = Seq::new(queue.len(), |i: int| (queue[i].sequence, queue[i].pending));
    queue_entries(queue);
    entries_of_entries::<u64, PendingView>(entries);
    assert(queued_of(entries) =~= queue);
}

/// A session comes back as it was, but that the time it has left starts to run where it was not yet
/// running.
pub proof fn session_comes_back(
    subscriptions: Seq<EntryView>,
    client_id: Seq<char>,
    session: SessionView,
    now_ms: u64,
)
    requires
        numbers_grow(session.offline_queue),
    ensures
        ({
            let back = restored_session(
                client_snapshot(subscriptions, client_id, session),
                now_ms,
            );
            &&& back == (SessionView { expires_at_ms: back.expires_at_ms, ..session })
            &&& session.expires_at_ms is Some ==> back.expires_at_ms == session.expires_at_ms
            &&& session.expires_at_ms is None ==> back.expires_at_ms == (
            if session.session_expiry_interval == u32::MAX {
                None
            } else if now_ms + session.session_expiry_interval * 1000 > u64::MAX {
                Some(u64::MAX)
            } else {
                Some((now_ms + session.session_expiry_interval * 1000) as u64)
            })
        }),
{
    queue_comes_back(session.offline_queue);
}

/// What is stored of a client's subscriptions is what it holds, under each filter.
pub proof fn subscriptions_are_stored(
    subscriptions: Seq<EntryView>,
    client_id: Seq<char>,
    filter: Seq<char>,
)
    ensures
        ({
            let stored = subscriptions_by_filter(subscriptions, client_id);
            &&& stored.dom().contains(filter) <==> has_subscription(
                subscriptions,
                client_id,
                filter,
            )
            &&& stored.dom().contains(filter) ==> exists|i: int|
                0 <= i < subscriptions.len() && (#[trigger] subscriptions[i]).client_id
                    == client_id && subscriptions[i].filter == filter && restored_subscription(
                    stored[filter],
                ) == subscriptions[i]
        }),
    decreases subscriptions.len(),
{
    if subscriptions.len() > 0 {
        let front = subscriptions.drop_last();
        let last = subscriptions.len() - 1;
        let stored = subscriptions_by_filter(subscriptions, client_id);
        let before = subscriptions_by_filter(front, client_id);
        subscriptions_are_stored(front, client_id, filter);
        subscription_comes_back(subscriptions[last]);
        if has_subscription(front, client_id, filter) {
            let i = choose|i: int|
                0 <= i < front.len() && (#[trigger] front[i]).client_id == client_id
                    && front[i].filter == filter && restored_subscription(before[filter])
                    == front[i];
            assert(subscriptions[i] == front[i]);
        }
        if has_subscription(subscriptions, client_id, filter) {
            let i = choose|i: int|
                0 <= i < subscriptions.len() && (#[trigger] subscriptions[i]).client_id
                    == client_id && subscriptions[i].filter == filter;
            if i < last {
                assert(front[i] == subscriptions[i]);
            }
        }
        if subscriptions[last].client_id == client_id && subscriptions[last].filter == filter {
            assert(has_subscription(subscriptions, client_id, filter));
        }
    }
}

/// A client is stored if it has a session that outlasts connections: as it said when it connected,
/// or, where it is not connected, as its session says.
pub proof fn lasting_clients_are_stored(state: StateView, client_id: Seq<char>)
    ensures
        ({
            let connected = state.connections.dom().contains(client_id)
                && state.clients.dom().contains(state.connections[client_id]);
            stored_client(state, client_id) is Some <==> state.sessions.dom().contains(client_id)
                && if connected {
                state.clients[state.connections[client_id]].persistent_session
            } else {
                state.sessions[client_id].session_expiry_interval > 0
            }
        }),
        stored_client(state, client_id) matches Some(client) ==> client == client_snapshot(
            state.subscriptions,
            client_id,
            state.sessions[client_id],
        ),
{
}

/// What is stored is put in order when it is read: clients whose sessions do not outlast
/// connections or have expired are left out, and of the others nothing changes but that their time
/// starts to run.
pub proof fn stored_is_put_in_order(
    projection: ProjectionView,
    now_ms: u64,
    client_id: Seq<char>,
)
    ensures
        ({
            let after = canonical(projection, now_ms);
            let before = projection.clients[client_id];
            let session = after.clients[client_id].session;
            &&& after.retained == projection.retained
            &&& after.clients.dom().contains(client_id) <==> projection.clients.dom().contains(
                client_id,
            ) && before.session.session_expiry_interval > 0 && (
            before.session.expires_at_ms matches Some(at) ==> at > now_ms)
            &&& after.clients.dom().contains(client_id) ==> {
                &&& after.clients[client_id] == (ClientView { session, ..before })
                &&& session == (SessionSnapshot {
                    expires_at_ms: session.expires_at_ms,
                    ..before.session
                })
                &&& before.session.expires_at_ms is Some ==> session.expires_at_ms
                    == before.session.expires_at_ms
                &&& before.session.expires_at_ms is None
                    && before.session.session_expiry_interval < u32::MAX
                    ==> session.expires_at_ms is Some
            }
        }),
{
}

/// A client that can be stored: its counters are in range, its subscriptions are its own and stored
/// under their filters, what waits is to be acknowledged and has an issued number, what is in
/// flight is what its table says, and no identifier is used twice.
pub open spec fn can_be_stored(client: ClientView, client_id: Seq<char>) -> bool {
    let last = client.session.next_offline_sequence;
    &&& client.session.next_packet_id > 0
    &&& last <= 0x7fff_ffff_ffff_ffff
    &&& forall|filter: Seq<char>| #[trigger]
        client.subscriptions.dom().contains(filter) ==> {
            let entry = client.subscriptions[filter];
            &&& entry.filter == filter
            &&& entry.client_id == client_id
            &&& valid_topic_filter(filter)
            &&& entry.match_filter == match_filter_of(filter)
            &&& entry.shared_group == shared_group(filter)
            &&& entry.retain_handling <= 2
            &&& entry.subscription_identifier matches Some(number) ==> 0 < number <= 268_435_455
        }
    &&& forall|sequence: u64| #[trigger]
        client.offline.dom().contains(sequence) ==> {
            let packet = client.offline[sequence].packet;
            sequence < last && packet.packet_id is None && packet.qos != QoS::AtMostOnce
                && valid_topic_name(packet.topic_name)
        }
    &&& forall|id: u16| #[trigger]
        client.qos1.dom().contains(id) ==> {
            let packet = client.qos1[id].packet;
            packet.packet_id == Some(id) && packet.qos == QoS::AtLeastOnce && valid_topic_name(
                packet.topic_name,
            ) && !client.qos2_publish.dom().contains(id) && !client.qos2_pubrel.contains(id)
        }
    &&& forall|id: u16| #[trigger]
        client.qos2_publish.dom().contains(id) ==> {
            let packet = client.qos2_publish[id].packet;
            packet.packet_id == Some(id) && packet.qos == QoS::ExactlyOnce && valid_topic_name(
                packet.topic_name,
            ) && !client.qos2_pubrel.contains(id)
        }
}

/// A client is refused as stored if and only if it is not one that can be stored.
pub proof fn unsound_clients_are_refused(client: ClientView, client_id: Seq<char>)
    ensures
        client_defect(client, client_id) is None <==> can_be_stored(client, client_id),
{
    let last = client.session.next_offline_sequence;
    if client_defect(client, client_id) is None {
        assert forall|filter: Seq<char>| #[trigger]
            client.subscriptions.dom().contains(filter) implies client.subscriptions[filter].filter
            == filter && subscription_defect(client.subscriptions[filter], client_id) is None by {}
        assert forall|id: u16| #[trigger] client.qos1.dom().contains(id) implies valid_outbound(
            id,
            client.qos1[id],
            QoS::AtLeastOnce,
        ) && !client.qos2_publish.dom().contains(id) && !client.qos2_pubrel.contains(id) by {}
        assert forall|id: u16| #[trigger]
            client.qos2_publish.dom().contains(id) implies valid_outbound(
            id,
            client.qos2_publish[id],
            QoS::ExactlyOnce,
        ) && !client.qos2_pubrel.contains(id) by {}
        assert(can_be_stored(client, client_id));
    }
    if can_be_stored(client, client_id) {
        assert(all_valid_outbound(client.qos1, QoS::AtLeastOnce));
        assert(all_valid_outbound(client.qos2_publish, QoS::ExactlyOnce));
        assert(client.qos1.dom().disjoint(client.qos2_publish.dom()));
        assert(client.qos1.dom().disjoint(client.qos2_pubrel));
        assert(client.qos2_publish.dom().disjoint(client.qos2_pubrel));
        assert(client_defect(client, client_id) is None);
    }
}

/// What is written has to reach the disk at once under one policy, when enough of it has gathered
/// under another, and never under the third.
pub proof fn writing_is_made_durable(pending: nat)
    ensures
        flush_due(CommitPolicy::Strict, pending),
        flush_due(CommitPolicy::Balanced, pending) <==> pending >= 64,
        !flush_due(CommitPolicy::Fast, pending),
{
}

/// The files of a new generation bear a number above that of every file that is there and of the
/// generation in use.
pub proof fn generations_count_up(active_epoch: u64, names: Seq<Seq<char>>)
    requires
        active_epoch < u64::MAX,
    ensures
        compaction_epoch_of(active_epoch, names) > active_epoch,
        compaction_epoch_of(active_epoch, names) > highest_epoch(names),
        compaction_epoch_of(active_epoch, names) == active_epoch + 1 || compaction_epoch_of(
            active_epoch,
            names,
        ) == highest_epoch(names) + 1,
{
}

/// What is known to be stored is no longer marked as changed, and nothing else changes.
pub proof fn stored_changes_are_forgotten(state: StateView)
    ensures
        ({
            let after = changes_forgotten(state);
            &&& after.client_changes.dom() == Set::<Seq<char>>::empty()
            &&& after.retained_changes == Set::<Seq<char>>::empty()
            &&& after == (StateView {
                client_changes: after.client_changes,
                retained_changes: after.retained_changes,
                ..state
            })
        }),
{
}

/// A patch is one that may be applied: it is of the known version and for a client with a name; its
/// subscriptions may be stored, none is named twice, and none is both put and taken; what it queues
/// is to be acknowledged, in the order of its numbers, which the session's counter covers and which
/// lie behind what it takes from the queue; what it puts in flight is what its table says, under
/// identifiers other than nought, none of which it also takes or uses twice.
pub open spec fn is_sound_patch(patch: ClientPatchView) -> bool {
    let top = 0x7fff_ffff_ffff_ffffu64;
    let appends = patch.offline_append;
    let upserts = patch.subscription_upserts;
    let deletes = patch.subscription_deletes;
    &&& patch.version == 1
    &&& patch.client_id.len() > 0
    &&& patch.session matches Some(session) ==> session.next_packet_id > 0
        && session.next_offline_sequence <= top
    &&& forall|i: int|
        0 <= i < upserts.len() ==> subscription_defect(#[trigger] upserts[i], patch.client_id)
            is None
    &&& forall|i: int, j: int|
        #![trigger upserts[i], upserts[j]]
        0 <= i < j < upserts.len() ==> upserts[i].filter != upserts[j].filter
    &&& forall|i: int| 0 <= i < deletes.len() ==> valid_topic_filter(#[trigger] deletes[i])
    &&& deletes.no_duplicates()
    &&& forall|i: int, j: int|
        #![trigger deletes[i], upserts[j]]
        0 <= i < deletes.len() && 0 <= j < upserts.len() ==> deletes[i] != upserts[j].filter
    &&& patch.offline_remove_through matches Some(through) ==> through <= top
    &&& forall|i: int|
        0 <= i < appends.len() ==> {
            let packet = (#[trigger] appends[i]).pending.packet;
            appends[i].sequence <= top && packet.packet_id is None && packet.qos
                != QoS::AtMostOnce && valid_topic_name(packet.topic_name)
        }
    &&& forall|i: int, j: int|
        #![trigger appends[i], appends[j]]
        0 <= i < j < appends.len() ==> appends[i].sequence < appends[j].sequence
    &&& appends.len() > 0 ==> patch.session is Some
        && patch.session->0.next_offline_sequence > appends.last().sequence
    &&& appends.len() > 0 && patch.offline_remove_through is Some ==> appends[0].sequence
        > patch.offline_remove_through->0
    &&& all_valid_outbound(patch.qos1_upserts, QoS::AtLeastOnce)
    &&& all_valid_outbound(patch.qos2_publish_upserts, QoS::ExactlyOnce)
    &&& !patch.qos1_upserts.dom().contains(0) && !patch.qos1_deletes.contains(0)
    &&& !patch.qos2_publish_upserts.dom().contains(0) && !patch.qos2_publish_deletes.contains(0)
    &&& !patch.pubrel_add.contains(0) && !patch.pubrel_remove.contains(0)
    &&& patch.qos1_upserts.dom().disjoint(patch.qos1_deletes)
    &&& patch.qos2_publish_upserts.dom().disjoint(patch.qos2_publish_deletes)
    &&& patch.pubrel_add.disjoint(patch.pubrel_remove)
    &&& patch.qos1_upserts.dom().disjoint(patch.qos2_publish_upserts.dom())
    &&& patch.qos1_upserts.dom().disjoint(patch.pubrel_add)
    &&& patch.qos2_publish_upserts.dom().disjoint(patch.pubrel_add)
    &&& patch.mode == ClientPatchMode::Delete ==> patch.session is None && empty_delta(patch)
    &&& patch.mode == ClientPatchMode::Reset ==> patch.session is Some && !has_deletes(patch)
    &&& patch.mode == ClientPatchMode::Merge ==> patch.session is Some || !empty_delta(patch)
}

proof fn upserts_are_sound(upserts: Seq<SubscriptionSnapshotView>, client_id: Seq<char>)
    ensures
        upserts_defect(upserts, client_id) is None <==> {
            &&& forall|i: int|
                0 <= i < upserts.len() ==> subscription_defect(#[trigger] upserts[i], client_id)
                    is None
            &&& forall|i: int, j: int|
                #![trigger upserts[i], upserts[j]]
                0 <= i < j < upserts.len() ==> upserts[i].filter != upserts[j].filter
        },
    decreases upserts.len(),
{
    if upserts.len() > 0 {
        let front = upserts.drop_last();
        let last = upserts.len() - 1;
        upserts_are_sound(front, client_id);
        assert forall|i: int| 0 <= i < front.len() implies #[trigger] front[i] == upserts[i] by {}
        if upserts_defect(upserts, client_id) is None {
            assert forall|i: int| 0 <= i < upserts.len() implies subscription_defect(
                #[trigger] upserts[i],
                client_id,
            ) is None by {
                if i < last {
                    assert(front[i] == upserts[i]);
                }
            }
            assert forall|i: int, j: int|
                #![trigger upserts[i], upserts[j]]
                0 <= i < j < upserts.len() implies upserts[i].filter != upserts[j].filter by {
                assert(front[i] == upserts[i]);
                if j < last {
                    assert(front[j] == upserts[j]);
                }
            }
        } else if (forall|i: int|
            0 <= i < upserts.len() ==> subscription_defect(#[trigger] upserts[i], client_id)
                is None) && (forall|i: int, j: int|
            #![trigger upserts[i], upserts[j]]
            0 <= i < j < upserts.len() ==> upserts[i].filter != upserts[j].filter) {
            assert forall|i: int| 0 <= i < front.len() implies subscription_defect(
                #[trigger] front[i],
                client_id,
            ) is None by {
                assert(subscription_defect(upserts[i], client_id) is None);
            }
            assert forall|i: int, j: int|
                #![trigger front[i], front[j]]
                0 <= i < j < front.len() implies front[i].filter != front[j].filter by {
                assert(upserts[i].filter != upserts[j].filter);
            }
            assert(subscription_defect(upserts[last], client_id) is None);
            let i = choose|i: int|
                0 <= i < front.len() && (#[trigger] front[i]).filter == upserts[last].filter;
            assert(upserts[i].filter != upserts[last].filter);
        }
    }
}

/// A patch is refused if and only if it is not one that may be applied.
pub proof fn unsound_patches_are_refused(patch: ClientPatchView)
    ensures
        client_patch_defect(patch) is None <==> is_sound_patch(patch),
{
    let upserts = patch.subscription_upserts;
    let deletes = patch.subscription_deletes;
    upserts_are_sound(upserts, patch.client_id);
    assert((forall|i: int| 0 <= i < deletes.len() ==> !has_filter(upserts, #[trigger] deletes[i]))
        <==> (forall|i: int, j: int|
        #![trigger deletes[i], upserts[j]]
        0 <= i < deletes.len() && 0 <= j < upserts.len() ==> deletes[i] != upserts[j].filter)) by {
        if forall|i: int, j: int|
            #![trigger deletes[i], upserts[j]]
            0 <= i < deletes.len() && 0 <= j < upserts.len() ==> deletes[i] != upserts[j].filter {
            assert forall|i: int| 0 <= i < deletes.len() implies !has_filter(
                upserts,
                #[trigger] deletes[i],
            ) by {
                if has_filter(upserts, deletes[i]) {
                    let j = choose|j: int|
                        0 <= j < upserts.len() && (#[trigger] upserts[j]).filter == deletes[i];
                    assert(deletes[i] != upserts[j].filter);
                }
            }
        }
        if forall|i: int| 0 <= i < deletes.len() ==> !has_filter(upserts, #[trigger] deletes[i]) {
            assert forall|i: int, j: int|
                #![trigger deletes[i], upserts[j]]
                0 <= i < deletes.len() && 0 <= j < upserts.len() implies deletes[i]
                != upserts[j].filter by {
                assert(!has_filter(upserts, deletes[i]));
            }
        }
    }
    if is_sound_patch(patch) {
        assert(valid_appends(patch.offline_append)) by {
            assert forall|i: int| 0 <= i < patch.offline_append.len() implies (
            #[trigger] patch.offline_append[i]).sequence <= MAX_SEQUENCE && valid_offline(
                patch.offline_append[i].pending,
            ) by {}
        }
        assert(deletes_agree(upserts, deletes));
        assert(!names_zero(patch));
        assert(client_patch_defect(patch) is None);
    }
    if client_patch_defect(patch) is None {
        assert(valid_appends(patch.offline_append));
        assert forall|i: int| 0 <= i < patch.offline_append.len() implies {
            let packet = (#[trigger] patch.offline_append[i]).pending.packet;
            patch.offline_append[i].sequence <= 0x7fff_ffff_ffff_ffffu64 && packet.packet_id is None
                && packet.qos != QoS::AtMostOnce && valid_topic_name(packet.topic_name)
        } by {
            assert(valid_offline(patch.offline_append[i].pending));
        }
        assert(is_sound_patch(patch));
    }
}

/// A patch that is merged never sets a client's counter back, never takes from the queue what was
/// not issued, and queues only under numbers that were not issued yet.
pub proof fn numbers_are_not_issued_again(client: ClientView, patch: ClientPatchView)
    requires
        patch.mode == ClientPatchMode::Merge,
        patched_client(Some(client), patch) is Ok,
    ensures
        ({
            let issued = client.session.next_offline_sequence;
            &&& is_sound_patch(patch)
            &&& patch.session matches Some(session) ==> session.next_offline_sequence >= issued
            &&& patch.offline_remove_through matches Some(through) ==> through < issued
            &&& forall|i: int|
                0 <= i < patch.offline_append.len() ==> (
                #[trigger] patch.offline_append[i]).sequence >= issued
            &&& patched_client(Some(client), patch)->Ok_0 matches Some(after) && can_be_stored(
                after,
                patch.client_id,
            )
        }),
{
    unsound_patches_are_refused(patch);
    unsound_clients_are_refused(merged(client, patch), patch.client_id);
    assert forall|i: int| 0 <= i < patch.offline_append.len() implies (
    #[trigger] patch.offline_append[i]).sequence >= client.session.next_offline_sequence by {
        if i > 0 {
            assert(patch.offline_append[0].sequence < patch.offline_append[i].sequence);
        }
    }
}

/// A patch that deletes a client leaves nothing of it; one that stores it anew leaves what the
/// patch says and nothing of what was there; one that is to be merged needs something to merge
/// with.
pub proof fn patches_replace_or_delete(client: Option<ClientView>, patch: ClientPatchView)
    requires
        client_patch_defect(patch) is None,
    ensures
        patch.mode == ClientPatchMode::Delete ==> patched_client(client, patch) == Ok::<
            Option<ClientView>,
            Seq<char>,
        >(None),
        patch.mode == ClientPatchMode::Reset ==> patched_client(client, patch) == patched_client(
            None,
            patch,
        ),
        patch.mode == ClientPatchMode::Reset ==> (patched_client(client, patch) matches Ok(found)
            ==> (found matches Some(after) && {
            &&& patch.session == Some(after.session)
            &&& after.qos1 == patch.qos1_upserts
            &&& after.qos2_publish == patch.qos2_publish_upserts
            &&& after.qos2_pubrel == patch.pubrel_add
        })),
        patch.mode == ClientPatchMode::Merge && client is None ==> patched_client(client, patch)
            is Err,
{
}

/// A manifest of the current format names the files of its generation; one of the old format names
/// its log and a checkpoint that is a plain file name; any other is refused.
pub proof fn manifests_name_their_files(manifest: ManifestView)
    ensures
        manifest_format(manifest) == Ok::<LogFormat, Seq<char>>(LogFormat::V2) <==> {
            &&& manifest.version == 2
            &&& manifest.format == Some("pbin2"@)
            &&& manifest.checkpoint == "broker.pbin2.checkpoint."@ + decimal(
                manifest.active_epoch as nat,
            )
            &&& manifest.active_log == "broker.pbin2.wal."@ + decimal(manifest.active_epoch as nat)
        },
        manifest_format(manifest) == Ok::<LogFormat, Seq<char>>(LogFormat::V1) <==> {
            &&& manifest.version == 1
            &&& manifest.format is None
            &&& manifest.active_log == "broker.binlog."@ + decimal(manifest.active_epoch as nat)
            &&& manifest.checkpoint.len() > 0
            &&& !manifest.checkpoint.contains('/')
            &&& manifest.checkpoint != "."@
            &&& manifest.checkpoint != ".."@
        },
{
}

} // verus!
