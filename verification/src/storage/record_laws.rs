//! What each record of the old log and each row of the tables says, and what a patch changes in the
//! tables.
use vstd::prelude::*;

use crate::entrance_laws::filter_holds;
use crate::message::PendingView;
use crate::ordered_map::entries_of;
use crate::ordered_map::key_has_entry;
use crate::ordered_map::key_index;
use crate::ordered_map::map_of_entry;
use crate::packet::QoS;
use crate::protocol::match_filter_of;
use crate::reconnect_laws::identifiers_listed;
use crate::retained_message::RetainedView;
use crate::session::SessionView;
use crate::storage::legacy::V1OutboundView;
use crate::storage::legacy::V1RecordView;
use crate::storage::legacy::recorded;
use crate::storage::offline_state::OfflineView;
use crate::storage::patch_codec::packet_block;
use crate::storage::patch_codec::unit_map;
use crate::storage::projection::restored_subscription;
use crate::storage::snapshot::ClientPatchMode;
use crate::storage::snapshot::ClientPatchView;
use crate::storage::snapshot::QueuedSnapshotView;
use crate::storage::snapshot::SessionSnapshot;
use crate::storage::snapshot::SubscriptionSnapshotView;
use crate::storage::tables::SessionRow;
use crate::storage::tables::SubscriptionRow;
use crate::storage::tables::TableChangeView;
use crate::storage::tables::client_table_changes;
use crate::storage::tables::delta_changes;
use crate::storage::tables::inflight_change;
use crate::storage::tables::inflight_deletes;
use crate::storage::tables::inflight_upserts;
use crate::storage::tables::offline_change;
use crate::storage::tables::row_moment;
use crate::storage::tables::row_subscription;
use crate::storage::tables::session_row_loaded;
use crate::subscribing_laws::has_subscription;
use crate::subscribing_laws::with_entry;
use crate::subscription::EntryView;
use crate::subscription::is_held;
use crate::subscription::subscription_position;
use crate::subscription::subscription_position_is_first;
use crate::vnext::event_laws::same_but;

verus! {

/// A session that is recorded is known as it is recorded, and keeps what it had; one that was not
/// known starts with nothing. Nothing else changes.
pub proof fn recorded_session_is_known(
    state: OfflineView,
    client_id: Seq<char>,
    record: SessionSnapshot,
)
    ensures
        ({
            let after = recorded(
                state,
                V1RecordView::SessionUpsert { client_id, session: record },
            );
            let session = after.sessions[client_id];
            &&& after.sessions.dom().contains(client_id)
            &&& session.session_expiry_interval == record.session_expiry_interval
            &&& session.expires_at_ms == record.expires_at_ms
            &&& session.next_packet_id == record.next_packet_id
            &&& state.sessions.dom().contains(client_id) ==> session == (SessionView {
                session_expiry_interval: session.session_expiry_interval,
                expires_at_ms: session.expires_at_ms,
                next_packet_id: session.next_packet_id,
                ..state.sessions[client_id]
            })
            &&& !state.sessions.dom().contains(client_id) ==> {
                &&& session.offline_queue.len() == 0
                &&& session.outbound_qos1.dom() == Set::<u16>::empty()
                &&& session.outbound_qos2_publish.dom() == Set::<u16>::empty()
                &&& session.outbound_qos2_pubrel == Set::<u16>::empty()
                &&& session.next_offline_sequence == 0
            }
            &&& same_but(state.sessions, after.sessions, client_id)
            &&& after.subscriptions == state.subscriptions
            &&& after.retained == state.retained
        }),
{
}

/// A session that is recorded as gone is, with its subscriptions; nothing else changes.
pub proof fn recorded_end_of_session_is_known(
    state: OfflineView,
    client_id: Seq<char>,
    entry: EntryView,
)
    ensures
        ({
            let after = recorded(state, V1RecordView::SessionDelete { client_id });
            &&& !after.sessions.dom().contains(client_id)
            &&& same_but(state.sessions, after.sessions, client_id)
            &&& after.subscriptions.contains(entry) <==> state.subscriptions.contains(entry)
                && entry.client_id != client_id
            &&& after.retained == state.retained
        }),
{
    filter_holds(
        state.subscriptions,
        |entry: EntryView| entry.client_id != client_id,
        entry,
    );
}

/// A subscription that is recorded is held as it is recorded, in place of the one under its filter
/// or at the end; one that is recorded as gone is gone; nothing else changes.
pub proof fn recorded_subscription_is_known(
    state: OfflineView,
    snapshot: SubscriptionSnapshotView,
    other: EntryView,
)
    ensures
        ({
            let entry = restored_subscription(snapshot);
            let put = recorded(state, V1RecordView::SubscriptionUpsert(snapshot));
            let gone = recorded(
                state,
                V1RecordView::SubscriptionDelete {
                    client_id: snapshot.client_id,
                    filter: snapshot.filter,
                },
            );
            &&& with_entry(state.subscriptions, put.subscriptions, entry)
            &&& put == (OfflineView { subscriptions: put.subscriptions, ..state })
            &&& gone.subscriptions.contains(other) <==> state.subscriptions.contains(other) && !(
            other.client_id == snapshot.client_id && other.filter == snapshot.filter)
            &&& gone == (OfflineView { subscriptions: gone.subscriptions, ..state })
        }),
{
    let entry = restored_subscription(snapshot);
    let list = state.subscriptions;
    filter_holds(
        list,
        |entry: EntryView| !is_held(entry, snapshot.client_id, snapshot.filter),
        other,
    );
    subscription_position_is_first(list, entry.client_id, entry.filter);
    if let Some(index) = subscription_position(list, entry.client_id, entry.filter) {
        assert(list[index].client_id == entry.client_id);
    } else if has_subscription(list, entry.client_id, entry.filter) {
        let i = choose|i: int|
            0 <= i < list.len() && (#[trigger] list[i]).client_id == entry.client_id
                && list[i].filter == entry.filter;
        assert(is_held(list[i], entry.client_id, entry.filter));
    }
}

/// A retained message that is recorded is known, and one that is recorded as gone is gone; nothing
/// else changes.
pub proof fn recorded_message_is_known(
    state: OfflineView,
    topic_name: Seq<char>,
    message: RetainedView,
)
    ensures
        ({
            let put = recorded(state, V1RecordView::RetainedUpsert { topic_name, message });
            let gone = recorded(state, V1RecordView::RetainedDelete { topic_name });
            &&& put.retained.dom().contains(topic_name)
            &&& put.retained[topic_name] == message
            &&& same_but(state.retained, put.retained, topic_name)
            &&& put == (OfflineView { retained: put.retained, ..state })
            &&& !gone.retained.dom().contains(topic_name)
            &&& same_but(state.retained, gone.retained, topic_name)
            &&& gone == (OfflineView { retained: gone.retained, ..state })
        }),
{
}

/// A queue that is recorded takes the place of what a known session had, numbered from nought; so
/// do the tables of what is in flight. For a session that is not known they change nothing.
pub proof fn recorded_queue_and_flight_are_known(
    state: OfflineView,
    client_id: Seq<char>,
    queue: Seq<PendingView>,
    outbound: V1OutboundView,
)
    requires
        queue.len() <= u64::MAX,
    ensures
        ({
            let queued = recorded(state, V1RecordView::OfflineReplace { client_id, queue });
            let sent = recorded(state, V1RecordView::OutboundReplace { client_id, outbound });
            let first = queued.sessions[client_id];
            let second = sent.sessions[client_id];
            &&& !state.sessions.dom().contains(client_id) ==> queued == state && sent == state
            &&& state.sessions.dom().contains(client_id) ==> {
                &&& first.offline_queue.len() == queue.len()
                &&& forall|i: int|
                    0 <= i < queue.len() ==> (#[trigger] first.offline_queue[i]).pending == queue[i]
                        && first.offline_queue[i].sequence == i
                &&& first.next_offline_sequence == queue.len()
                &&& first == (SessionView {
                    offline_queue: first.offline_queue,
                    next_offline_sequence: first.next_offline_sequence,
                    ..state.sessions[client_id]
                })
                &&& queued == (OfflineView {
                    sessions: state.sessions.insert(client_id, first),
                    ..state
                })
                &&& second.outbound_qos1 == outbound.qos1
                &&& second.outbound_qos2_publish == outbound.qos2_publish
                &&& second.outbound_qos2_pubrel == outbound.qos2_pubrel
                &&& second == (SessionView {
                    outbound_qos1: second.outbound_qos1,
                    outbound_qos2_publish: second.outbound_qos2_publish,
                    outbound_qos2_pubrel: second.outbound_qos2_pubrel,
                    ..state.sessions[client_id]
                })
                &&& sent == (OfflineView {
                    sessions: state.sessions.insert(client_id, second),
                    ..state
                })
            }
        }),
{
}

/// A session's row gives a session that holds nothing yet and counts on from where the row says.
pub proof fn session_row_is_loaded(state: OfflineView, row: SessionRow)
    ensures
        match session_row_loaded(state, row) {
            Err(fault) => row.next_offline_sequence < 0 && fault.value
                == row.next_offline_sequence,
            Ok(after) => {
                let session = after.sessions[row.client_id@];
                &&& row.next_offline_sequence >= 0
                &&& after.sessions.dom().contains(row.client_id@)
                &&& session.next_offline_sequence == row.next_offline_sequence
                &&& session.next_packet_id == row.next_packet_id
                &&& session.session_expiry_interval == row.session_expiry_interval
                &&& session.expires_at_ms == row_moment(row.expires_at_ms)
                &&& session.offline_queue.len() == 0
                &&& session.outbound_qos1.dom() == Set::<u16>::empty()
                &&& session.outbound_qos2_publish.dom() == Set::<u16>::empty()
                &&& session.outbound_qos2_pubrel == Set::<u16>::empty()
                &&& same_but(state.sessions, after.sessions, row.client_id@)
                &&& after.subscriptions == state.subscriptions
                &&& after.retained == state.retained
            },
        },
{
}

/// A subscription's row gives the subscription; an old row without the filter to match against is
/// matched against what its filter says.
pub proof fn subscription_row_is_loaded(row: SubscriptionRow)
    ensures
        ({
            let entry = row_subscription(row);
            &&& entry.client_id == row.client_id@
            &&& entry.filter == row.filter@
            &&& row.match_filter@.len() > 0 ==> entry.match_filter == row.match_filter@
            &&& row.match_filter@.len() == 0 ==> entry.match_filter == match_filter_of(row.filter@)
            &&& entry.shared_group == row.shared_group.deep_view()
            &&& entry.options.maximum_qos == match row.maximum_qos {
                1u8 => QoS::AtLeastOnce,
                2 => QoS::ExactlyOnce,
                _ => QoS::AtMostOnce,
            }
            &&& entry.options.no_local <==> row.no_local != 0
            &&& entry.options.retain_as_published <==> row.retain_as_published != 0
            &&& entry.options.retain_handling == row.retain_handling
            &&& entry.subscription_identifier == row.subscription_identifier
        }),
{
}

/// What is in two lists together is in one of them.
proof fn sum_contains<A>(first: Seq<A>, second: Seq<A>, item: A)
    ensures
        (first + second).contains(item) <==> first.contains(item) || second.contains(item),
{
    let both = first + second;
    if first.contains(item) {
        let i = choose|i: int| 0 <= i < first.len() && first[i] == item;
        assert(both[i] == item);
    }
    if second.contains(item) {
        let i = choose|i: int| 0 <= i < second.len() && second[i] == item;
        assert(both[first.len() + i] == item);
    }
    if both.contains(item) {
        let i = choose|i: int| 0 <= i < both.len() && both[i] == item;
        if i < first.len() {
            assert(first[i] == item);
        } else {
            assert(second[i - first.len()] == item);
        }
    }
}

/// What is made of the entries of a set of identifiers is made of its members.
proof fn members_make<A>(ids: Set<u16>, make: spec_fn((u16, ())) -> A, item: A)
    ensures
        entries_of::<u16, ()>(unit_map(ids)).map_values(make).contains(item) <==> exists|id: u16|
            #[trigger] ids.contains(id) && make((id, ())) == item,
{
    let map = unit_map(ids);
    let entries = entries_of::<u16, ()>(map);
    identifiers_listed(map, 65_536);
    let made = entries.map_values(make);
    if made.contains(item) {
        let i = choose|i: int| 0 <= i < made.len() && made[i] == item;
        map_of_entry::<u16, ()>(entries, i);
        assert(map.dom().contains(entries[i].0));
        assert(ids.contains(entries[i].0) && make((entries[i].0, ())) == item);
    }
    if exists|id: u16| #[trigger] ids.contains(id) && make((id, ())) == item {
        let id = choose|id: u16| #[trigger] ids.contains(id) && make((id, ())) == item;
        assert(map.dom().contains(id));
        key_has_entry(entries, id);
        let i = key_index(entries, id);
        assert(made[i] == item);
    }
}

/// What is made of the entries of a table is made of its rows.
proof fn rows_make<A>(
    table: Map<u16, PendingView>,
    make: spec_fn((u16, PendingView)) -> A,
    item: A,
)
    ensures
        entries_of::<u16, PendingView>(table).map_values(make).contains(item) <==> exists|id: u16|
            #[trigger] table.dom().contains(id) && make((id, table[id])) == item,
{
    let entries = entries_of::<u16, PendingView>(table);
    identifiers_listed(table, 65_536);
    let made = entries.map_values(make);
    if made.contains(item) {
        let i = choose|i: int| 0 <= i < made.len() && made[i] == item;
        map_of_entry::<u16, PendingView>(entries, i);
        assert(table.dom().contains(entries[i].0) && make((entries[i].0, table[entries[i].0]))
            == item);
    }
    if exists|id: u16| #[trigger] table.dom().contains(id) && make((id, table[id])) == item {
        let id = choose|id: u16| #[trigger]
            table.dom().contains(id) && make((id, table[id])) == item;
        key_has_entry(entries, id);
        let i = key_index(entries, id);
        assert(made[i] == item);
    }
}

/// What is made of a list is made of its items.
proof fn items_make<A, B>(items: Seq<A>, make: spec_fn(A) -> B, item: B)
    ensures
        items.map_values(make).contains(item) <==> exists|i: int|
            0 <= i < items.len() && make(#[trigger] items[i]) == item,
{
    let made = items.map_values(make);
    if made.contains(item) {
        let i = choose|i: int| 0 <= i < made.len() && made[i] == item;
        assert(make(items[i]) == item);
    }
    if exists|i: int| 0 <= i < items.len() && make(#[trigger] items[i]) == item {
        let i = choose|i: int| 0 <= i < items.len() && make(#[trigger] items[i]) == item;
        assert(made[i] == item);
    }
}

/// What a patch asks to change in the tables.
pub open spec fn asks_to_change(patch: ClientPatchView, change: TableChangeView) -> bool {
    match change {
        TableChangeView::UpsertSession(session) => patch.session == Some(session),
        TableChangeView::DeleteSubscription(filter) => exists|i: int|
            0 <= i < patch.subscription_deletes.len() && #[trigger] patch.subscription_deletes[i]
                == filter,
        TableChangeView::UpsertSubscription(subscription) => exists|i: int|
            0 <= i < patch.subscription_upserts.len() && #[trigger] patch.subscription_upserts[i]
                == subscription,
        TableChangeView::DeleteOfflineThrough(sequence) => patch.offline_remove_through == Some(
            sequence,
        ),
        TableChangeView::UpsertOffline { sequence, packet, expires_at_ms } => exists|i: int|
            0 <= i < patch.offline_append.len() && (#[trigger] patch.offline_append[i]).sequence
                == sequence && packet_block(patch.offline_append[i].pending.packet) == packet
                && patch.offline_append[i].pending.expires_at_ms == expires_at_ms,
        TableChangeView::DeleteInflight { qos, packet_id } => {
            ||| qos == QoS::AtLeastOnce && patch.qos1_deletes.contains(packet_id)
            ||| qos == QoS::ExactlyOnce && patch.qos2_publish_deletes.contains(packet_id)
        },
        TableChangeView::UpsertInflight { qos, packet_id, packet, expires_at_ms } => {
            ||| qos == QoS::AtLeastOnce && patch.qos1_upserts.dom().contains(packet_id)
                && packet_block(patch.qos1_upserts[packet_id].packet) == packet
                && patch.qos1_upserts[packet_id].expires_at_ms == expires_at_ms
            ||| qos == QoS::ExactlyOnce && patch.qos2_publish_upserts.dom().contains(packet_id)
                && packet_block(patch.qos2_publish_upserts[packet_id].packet) == packet
                && patch.qos2_publish_upserts[packet_id].expires_at_ms == expires_at_ms
        },
        TableChangeView::DeletePubrel(id) => patch.pubrel_remove.contains(id),
        TableChangeView::InsertPubrel(id) => patch.pubrel_add.contains(id),
        TableChangeView::DeleteSession => false,
    }
}

/// A patch changes in the tables what it asks to and nothing else; one that deletes a client
/// deletes it there, and one that stores it anew deletes it first.
#[verifier::rlimit(60)]
pub proof fn patches_change_what_they_ask(patch: ClientPatchView, change: TableChangeView)
    ensures
        delta_changes(patch).contains(change) <==> asks_to_change(patch, change),
        patch.mode == ClientPatchMode::Merge ==> client_table_changes(patch) == delta_changes(
            patch,
        ),
        patch.mode == ClientPatchMode::Delete ==> client_table_changes(patch).len() == 1,
        patch.mode != ClientPatchMode::Merge ==> client_table_changes(patch)[0]
            == TableChangeView::DeleteSession,
        patch.mode == ClientPatchMode::Reset ==> client_table_changes(patch).drop_first()
            == delta_changes(patch),
{
    let drop_filter = |filter: Seq<char>| TableChangeView::DeleteSubscription(filter);
    let put_entry = |subscription: SubscriptionSnapshotView|
        TableChangeView::UpsertSubscription(subscription);
    let queue = |queued: QueuedSnapshotView| offline_change(queued);
    let unsend = |entry: (u16, ())| TableChangeView::DeletePubrel(entry.0);
    let send = |entry: (u16, ())| TableChangeView::InsertPubrel(entry.0);
    let drop1 = |entry: (u16, ())|
        TableChangeView::DeleteInflight { qos: QoS::AtLeastOnce, packet_id: entry.0 };
    let drop2 = |entry: (u16, ())|
        TableChangeView::DeleteInflight { qos: QoS::ExactlyOnce, packet_id: entry.0 };
    let put1 = |entry: (u16, PendingView)| inflight_change(QoS::AtLeastOnce, entry);
    let put2 = |entry: (u16, PendingView)| inflight_change(QoS::ExactlyOnce, entry);
    let a = match patch.session {
        Some(session) => seq![TableChangeView::UpsertSession(session)],
        None => Seq::empty(),
    };
    let b = patch.subscription_deletes.map_values(drop_filter);
    let c = patch.subscription_upserts.map_values(put_entry);
    let d = match patch.offline_remove_through {
        Some(sequence) => seq![TableChangeView::DeleteOfflineThrough(sequence)],
        None => Seq::empty(),
    };
    let e = patch.offline_append.map_values(queue);
    let f = inflight_deletes(QoS::AtLeastOnce, patch.qos1_deletes);
    let g = inflight_upserts(QoS::AtLeastOnce, patch.qos1_upserts);
    let h = inflight_deletes(QoS::ExactlyOnce, patch.qos2_publish_deletes);
    let i = inflight_upserts(QoS::ExactlyOnce, patch.qos2_publish_upserts);
    let j = entries_of::<u16, ()>(unit_map(patch.pubrel_remove)).map_values(unsend);
    let k = entries_of::<u16, ()>(unit_map(patch.pubrel_add)).map_values(send);
    sum_contains(a, b, change);
    sum_contains(a + b, c, change);
    sum_contains(a + b + c, d, change);
    sum_contains(a + b + c + d, e, change);
    sum_contains(a + b + c + d + e, f, change);
    sum_contains(a + b + c + d + e + f, g, change);
    sum_contains(a + b + c + d + e + f + g, h, change);
    sum_contains(a + b + c + d + e + f + g + h, i, change);
    sum_contains(a + b + c + d + e + f + g + h + i, j, change);
    sum_contains(a + b + c + d + e + f + g + h + i + j, k, change);
    items_make(patch.subscription_deletes, drop_filter, change);
    items_make(patch.subscription_upserts, put_entry, change);
    items_make(patch.offline_append, queue, change);
    members_make(patch.pubrel_remove, unsend, change);
    members_make(patch.pubrel_add, send, change);
    members_make(patch.qos1_deletes, drop1, change);
    members_make(patch.qos2_publish_deletes, drop2, change);
    rows_make(patch.qos1_upserts, put1, change);
    rows_make(patch.qos2_publish_upserts, put2, change);
    assert(f =~= entries_of::<u16, ()>(unit_map(patch.qos1_deletes)).map_values(drop1));
    assert(h =~= entries_of::<u16, ()>(unit_map(patch.qos2_publish_deletes)).map_values(drop2));
    assert(g =~= entries_of::<u16, PendingView>(patch.qos1_upserts).map_values(put1));
    assert(i =~= entries_of::<u16, PendingView>(patch.qos2_publish_upserts).map_values(put2));
    assert(delta_changes(patch) =~= a + b + c + d + e + f + g + h + i + j + k);
    assert(a.contains(change) <==> (change matches TableChangeView::UpsertSession(session)
        && patch.session == Some(session))) by {
        if patch.session is Some {
            assert(a[0] == TableChangeView::UpsertSession(patch.session->0));
        }
    }
    assert(d.contains(change) <==> (change matches TableChangeView::DeleteOfflineThrough(sequence)
        && patch.offline_remove_through == Some(sequence))) by {
        if patch.offline_remove_through is Some {
            assert(d[0] == TableChangeView::DeleteOfflineThrough(
                patch.offline_remove_through->0,
            ));
        }
    }
    assert(b.contains(change) ==> change is DeleteSubscription);
    assert(c.contains(change) ==> change is UpsertSubscription);
    assert(e.contains(change) ==> change is UpsertOffline);
    if patch.mode == ClientPatchMode::Reset {
        assert(client_table_changes(patch).drop_first() =~= delta_changes(patch));
    }
}

} // verus!
