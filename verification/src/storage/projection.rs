//! What is stored of a broker's state, and the state that comes back.
use std::collections::VecDeque;
use vstd::prelude::*;

use crate::message::PendingView;
use crate::message::expired;
use crate::message::is_message_expired;
use crate::ordered_map::OrderedMap;
use crate::ordered_map::TextSet;
use crate::ordered_map::ascending;
use crate::ordered_map::entries_of;
use crate::ordered_map::has_key;
use crate::ordered_map::key_has_entry;
use crate::ordered_map::key_index;
use crate::ordered_map::map_of;
use crate::ordered_map::map_of_entry;
use crate::ordered_map::map_prefix;
use crate::packet::SubscriptionOptions;
use crate::retained_message::RetainedMessage;
use crate::retained_message::RetainedView;
use crate::session::BrokerState;
use crate::session::ChangeView;
use crate::session::PersistenceChange;
use crate::session::QueuedPublish;
use crate::session::SessionEntry;
use crate::session::SessionView;
use crate::session::StateView;
use crate::session::is_durable;
use crate::session::session_deadline;
use crate::session::session_expires_at_ms;
use crate::storage::delta::PersistentProjection;
use crate::storage::delta::ProjectionView;
use crate::storage::delta::lookup;
use crate::storage::delta::patch_between;
use crate::storage::delta::queued_of;
use crate::storage::delta::values_of;
use crate::storage::snapshot::ClientPatch;
use crate::storage::snapshot::ClientPatchView;
use crate::storage::snapshot::ClientSnapshot;
use crate::storage::snapshot::ClientView;
use crate::storage::snapshot::PendingSnapshot;
use crate::storage::snapshot::QueuedSnapshot;
use crate::storage::snapshot::QueuedSnapshotView;
use crate::storage::snapshot::RetainedPatch;
use crate::storage::snapshot::RetainedPatchView;
use crate::storage::snapshot::SessionSnapshot;
use crate::storage::snapshot::StoragePatch;
use crate::storage::snapshot::StoragePatchView;
use crate::storage::snapshot::SubscriptionSnapshot;
use crate::storage::snapshot::SubscriptionSnapshotView;
use crate::storage::snapshot::subscription_snapshot;
use crate::subscription::EntryView;
use crate::subscription::SubscriptionEntry;
use crate::value::Value;

verus! {

/// What is stored of a session's own fields.
pub open spec fn session_snapshot(session: SessionView) -> SessionSnapshot {
    SessionSnapshot {
        session_expiry_interval: session.session_expiry_interval,
        expires_at_ms: session.expires_at_ms,
        next_packet_id: session.next_packet_id,
        next_offline_sequence: session.next_offline_sequence,
    }
}

/// The subscription that comes back.
pub open spec fn restored_subscription(snapshot: SubscriptionSnapshotView) -> EntryView {
    EntryView {
        client_id: snapshot.client_id,
        filter: snapshot.filter,
        match_filter: snapshot.match_filter,
        shared_group: snapshot.shared_group,
        options: SubscriptionOptions {
            maximum_qos: snapshot.maximum_qos,
            no_local: snapshot.no_local,
            retain_as_published: snapshot.retain_as_published,
            retain_handling: snapshot.retain_handling,
        },
        subscription_identifier: snapshot.subscription_identifier,
    }
}

/// What is stored of a client's subscriptions, by filter.
pub open spec fn subscriptions_by_filter(
    subscriptions: Seq<EntryView>,
    client_id: Seq<char>,
) -> Map<Seq<char>, SubscriptionSnapshotView>
    decreases subscriptions.len(),
{
    if subscriptions.len() == 0 {
        Map::empty()
    } else {
        let front = subscriptions_by_filter(subscriptions.drop_last(), client_id);
        let last = subscriptions.last();
        if last.client_id == client_id {
            front.insert(last.filter, subscription_snapshot(last))
        } else {
            front
        }
    }
}

/// What is stored of an offline queue, by number.
pub open spec fn queue_by_sequence(queue: Seq<QueuedSnapshotView>) -> Map<u64, PendingView>
    decreases queue.len(),
{
    if queue.len() == 0 {
        Map::empty()
    } else {
        queue_by_sequence(queue.drop_last()).insert(queue.last().sequence, queue.last().pending)
    }
}

/// What is stored of a client.
pub open spec fn client_snapshot(
    subscriptions: Seq<EntryView>,
    client_id: Seq<char>,
    session: SessionView,
) -> ClientView {
    ClientView {
        session: session_snapshot(session),
        subscriptions: subscriptions_by_filter(subscriptions, client_id),
        offline: queue_by_sequence(session.offline_queue),
        qos1: session.outbound_qos1,
        qos2_publish: session.outbound_qos2_publish,
        qos2_pubrel: session.outbound_qos2_pubrel,
    }
}

/// What is stored of a client of a state, if anything.
pub open spec fn stored_client(state: StateView, client_id: Seq<char>) -> Option<ClientView> {
    if state.sessions.dom().contains(client_id) && is_durable(state, client_id) {
        Some(client_snapshot(state.subscriptions, client_id, state.sessions[client_id]))
    } else {
        None
    }
}

/// Everything that is stored of a state.
pub open spec fn projected(state: StateView) -> ProjectionView {
    ProjectionView {
        clients: Map::new(
            |client_id: Seq<char>| stored_client(state, client_id) is Some,
            |client_id: Seq<char>| stored_client(state, client_id)->0,
        ),
        retained: state.retained,
    }
}

/// When a session that comes back expires: when it would have, or else its time starts now.
pub open spec fn recovered(session: SessionSnapshot, now_ms: u64) -> Option<u64> {
    match session.expires_at_ms {
        Some(at) => Some(at),
        None => session_deadline(session.session_expiry_interval, now_ms),
    }
}

/// When a session that comes back expires.
pub fn recovered_expiry_at(session: &SessionSnapshot, now_ms: u64) -> (result: Option<u64>)
    ensures
        result == recovered(*session, now_ms),
{
    match session.expires_at_ms {
        Some(at) => Some(at),
        None => session_expires_at_ms(session.session_expiry_interval, now_ms),
    }
}

/// The session that comes back.
pub open spec fn restored_session(client: ClientView, now_ms: u64) -> SessionView {
    SessionView {
        expires_at_ms: recovered(client.session, now_ms),
        session_expiry_interval: client.session.session_expiry_interval,
        next_packet_id: client.session.next_packet_id,
        outbound_qos1: client.qos1,
        outbound_qos2_publish: client.qos2_publish,
        outbound_qos2_pubrel: client.qos2_pubrel,
        offline_queue: queued_of(entries_of::<u64, PendingView>(client.offline)),
        next_offline_sequence: client.session.next_offline_sequence,
    }
}

/// The subscriptions of a client that come back, in the order of their filters.
pub open spec fn restored_subscriptions(client: ClientView) -> Seq<EntryView> {
    values_of(
        entries_of::<String, SubscriptionSnapshotView>(client.subscriptions),
    ).map_values(|snapshot: SubscriptionSnapshotView| restored_subscription(snapshot))
}

/// A client comes back: its session lasts longer than its connection.
pub open spec fn comes_back(client: ClientView) -> bool {
    client.session.session_expiry_interval != 0
}

/// The subscriptions of some clients that come back.
pub open spec fn all_restored_subscriptions(clients: Seq<(Seq<char>, ClientView)>) -> Seq<EntryView>
    decreases clients.len(),
{
    if clients.len() == 0 {
        Seq::empty()
    } else {
        let front = all_restored_subscriptions(clients.drop_last());
        if comes_back(clients.last().1) {
            front + restored_subscriptions(clients.last().1)
        } else {
            front
        }
    }
}

/// The sessions of some clients that come back.
pub open spec fn restored_sessions(clients: Seq<(Seq<char>, ClientView)>, now_ms: u64) -> Map<
    Seq<char>,
    SessionView,
>
    decreases clients.len(),
{
    if clients.len() == 0 {
        Map::empty()
    } else {
        let front = restored_sessions(clients.drop_last(), now_ms);
        if comes_back(clients.last().1) {
            front.insert(clients.last().0, restored_session(clients.last().1, now_ms))
        } else {
            front
        }
    }
}

/// The state that comes back.
pub open spec fn restored(projection: ProjectionView, now_ms: u64) -> StateView {
    let clients = entries_of::<String, ClientView>(projection.clients);
    StateView {
        clients: Map::empty(),
        connections: Map::empty(),
        sessions: restored_sessions(clients, now_ms),
        subscriptions: all_restored_subscriptions(clients),
        retained: projection.retained,
        qos2_inflight: Map::empty(),
        cursors: Map::empty(),
        client_changes: Map::empty(),
        retained_changes: Set::empty(),
    }
}

/// Each retained message is stored under its own topic.
pub open spec fn topics_agree(retained: Map<Seq<char>, RetainedView>) -> bool {
    forall|topic: Seq<char>| #[trigger]
        retained.dom().contains(topic) ==> retained[topic].topic_name == topic
}

/// A client stays when nobody is connected: its session lasts, and has not run out.
pub open spec fn stays_offline(client: ClientView, now_ms: u64) -> bool {
    comes_back(client) && !expired(client.session.expires_at_ms, now_ms)
}

/// What is stored of a client with the end of its session set.
pub open spec fn with_recovered_expiry(client: ClientView, now_ms: u64) -> ClientView {
    ClientView {
        session: SessionSnapshot {
            expires_at_ms: recovered(client.session, now_ms),
            ..client.session
        },
        ..client
    }
}

/// What is stored once it is known that nobody is connected: sessions that cannot come back are
/// gone, and the time of the others has started.
pub open spec fn canonical(projection: ProjectionView, now_ms: u64) -> ProjectionView {
    ProjectionView {
        clients: Map::new(
            |client_id: Seq<char>|
                projection.clients.dom().contains(client_id) && stays_offline(
                    projection.clients[client_id],
                    now_ms,
                ),
            |client_id: Seq<char>| with_recovered_expiry(projection.clients[client_id], now_ms),
        ),
        ..projection
    }
}

/// The patch of a client whose state changed, if any.
pub open spec fn client_change_patch(
    projection: ProjectionView,
    state: StateView,
    client_id: Seq<char>,
    force_reset: bool,
) -> Option<ClientPatchView> {
    patch_between(
        client_id,
        lookup(projection.clients, client_id),
        stored_client(state, client_id),
        force_reset,
    )
}

/// The patch of a retained topic that changed, if any.
pub open spec fn retained_change_patch(
    projection: ProjectionView,
    state: StateView,
    topic: Seq<char>,
) -> Option<RetainedPatchView> {
    if lookup(projection.retained, topic) == lookup(state.retained, topic) {
        None
    } else {
        Some(RetainedPatchView { topic_name: topic, message: lookup(state.retained, topic) })
    }
}

/// A list with one more item, if there is one.
pub open spec fn push_some<A>(list: Seq<A>, item: Option<A>) -> Seq<A> {
    match item {
        Some(item) => list.push(item),
        None => list,
    }
}

/// The patches of some clients whose state changed.
pub open spec fn client_change_patches(
    projection: ProjectionView,
    state: StateView,
    changes: Seq<(Seq<char>, bool)>,
) -> Seq<StoragePatchView>
    decreases changes.len(),
{
    if changes.len() == 0 {
        Seq::empty()
    } else {
        push_some(
            client_change_patches(projection, state, changes.drop_last()),
            match client_change_patch(
                projection,
                state,
                changes.last().0,
                changes.last().1,
            ) {
                Some(patch) => Some(StoragePatchView::Client(patch)),
                None => None,
            },
        )
    }
}

/// The patches of some retained topics that changed.
pub open spec fn retained_change_patches(
    projection: ProjectionView,
    state: StateView,
    topics: Seq<(Seq<char>, ())>,
) -> Seq<StoragePatchView>
    decreases topics.len(),
{
    if topics.len() == 0 {
        Seq::empty()
    } else {
        push_some(
            retained_change_patches(projection, state, topics.drop_last()),
            match retained_change_patch(projection, state, topics.last().0) {
                Some(patch) => Some(StoragePatchView::Retained(patch)),
                None => None,
            },
        )
    }
}

/// The clients that some changes speak of, and whether they are to be stored anew.
pub open spec fn changed_clients(changes: Seq<ChangeView>) -> Map<Seq<char>, bool>
    decreases changes.len(),
{
    if changes.len() == 0 {
        Map::empty()
    } else {
        let front = changed_clients(changes.drop_last());
        match changes.last() {
            ChangeView::ClientChanged(client_id) => if front.dom().contains(client_id) {
                front
            } else {
                front.insert(client_id, false)
            },
            ChangeView::ClientReset(client_id) => front.insert(client_id, true),
            ChangeView::RetainedTopic(_) => front,
        }
    }
}

/// The retained topics that some changes speak of.
pub open spec fn changed_topics(changes: Seq<ChangeView>) -> Map<Seq<char>, ()>
    decreases changes.len(),
{
    if changes.len() == 0 {
        Map::empty()
    } else {
        let front = changed_topics(changes.drop_last());
        match changes.last() {
            ChangeView::RetainedTopic(topic) => front.insert(topic, ()),
            _ => front,
        }
    }
}

/// The patches that some changes ask for: clients in order, then retained topics in order.
pub open spec fn prepared(
    projection: ProjectionView,
    state: StateView,
    changes: Seq<ChangeView>,
) -> Seq<StoragePatchView> {
    client_change_patches(
        projection,
        state,
        entries_of::<String, bool>(changed_clients(changes)),
    ) + retained_change_patches(
        projection,
        state,
        entries_of::<String, ()>(changed_topics(changes)),
    )
}

impl SessionSnapshot {
    /// What is stored of a session's own fields.
    pub fn from_session(session: &SessionEntry) -> (result: Self)
        ensures
            result == session_snapshot(session.deep_view()),
    {
        SessionSnapshot {
            session_expiry_interval: session.session_expiry_interval,
            expires_at_ms: session.expires_at_ms,
            next_packet_id: session.next_packet_id,
            next_offline_sequence: session.next_offline_sequence,
        }
    }
}

impl ClientSnapshot {
    /// What is stored of a client.
    pub fn from_state(
        subscriptions: &Vec<SubscriptionEntry>,
        client_id: &String,
        session: &SessionEntry,
    ) -> (result: Self)
        ensures
            result.deep_view() == client_snapshot(
                subscriptions.deep_view(),
                client_id@,
                session.deep_view(),
            ),
    {
        let ghost list = subscriptions.deep_view();
        let mut held: OrderedMap<String, SubscriptionSnapshot> = OrderedMap::new();
        let mut index: usize = 0;
        while index < subscriptions.len()
            invariant
                index <= subscriptions@.len(),
                list == subscriptions.deep_view(),
                held.deep_view() == subscriptions_by_filter(list.take(index as int), client_id@),
            decreases subscriptions@.len() - index,
        {
            proof {
                assert(list.take(index + 1).drop_last() =~= list.take(index as int));
                assert(list.take(index + 1).last() == subscriptions@[index as int].deep_view());
            }
            let entry: &SubscriptionEntry = &subscriptions[index];
            if entry.client_id.same(client_id) {
                held.insert(entry.filter.dup(), SubscriptionSnapshot::from_subscription(entry));
            }
            index += 1;
        }
        assert(list.take(index as int) =~= list);
        let ghost queue = session.deep_view().offline_queue;
        let mut offline: OrderedMap<u64, PendingSnapshot> = OrderedMap::new();
        let mut position: usize = 0;
        assert(queue.len() == session.offline_queue@.len());
        while position < session.offline_queue.len()
            invariant
                position <= session.offline_queue@.len(),
                queue == session.deep_view().offline_queue,
                queue.len() == session.offline_queue@.len(),
                offline.deep_view() == queue_by_sequence(queue.take(position as int)),
            decreases session.offline_queue@.len() - position,
        {
            proof {
                assert(queue.take(position + 1).drop_last() =~= queue.take(position as int));
                assert(queue.take(position + 1).last()
                    == session.offline_queue@[position as int].deep_view());
            }
            let queued: &QueuedPublish = &session.offline_queue[position];
            offline.insert(queued.sequence, queued.pending.dup());
            position += 1;
        }
        assert(queue.take(position as int) =~= queue);
        ClientSnapshot {
            session: SessionSnapshot::from_session(session),
            subscriptions: held,
            offline,
            qos1: session.outbound_qos1.dup(),
            qos2_publish: session.outbound_qos2_publish.dup(),
            qos2_pubrel: session.outbound_qos2_pubrel.dup(),
        }
    }

    /// The session that comes back.
    fn into_session(&self, now_ms: u64) -> (result: SessionEntry)
        ensures
            result.deep_view() == restored_session(self.deep_view(), now_ms),
    {
        let count: usize = self.offline.len();
        let ghost entries = self.offline.entries();
        let mut queue: VecDeque<QueuedPublish> = VecDeque::new();
        let mut index: usize = 0;
        while index < count
            invariant
                index <= count == entries.len(),
                entries == self.offline.entries(),
                queue@.len() == index,
                forall|i: int|
                    0 <= i < index ==> (#[trigger] queue@[i]).deep_view() == queued_of(entries)[i],
            decreases count - index,
        {
            queue.push_back(
                QueuedSnapshot {
                    sequence: *self.offline.key_at(index),
                    pending: self.offline.value_at(index).dup(),
                },
            );
            index += 1;
        }
        let mut session: SessionEntry = SessionEntry::disconnected(
            self.session.session_expiry_interval,
            recovered_expiry_at(&self.session, now_ms),
        );
        session.next_packet_id = self.session.next_packet_id;
        session.next_offline_sequence = self.session.next_offline_sequence;
        session.offline_queue = queue;
        session.outbound_qos1 = self.qos1.dup();
        session.outbound_qos2_publish = self.qos2_publish.dup();
        session.outbound_qos2_pubrel = self.qos2_pubrel.dup();
        assert(session.deep_view().offline_queue =~= queued_of(entries));
        session
    }

    /// Adds the subscriptions that come back.
    fn restore_subscriptions(&self, subscriptions: &mut Vec<SubscriptionEntry>)
        ensures
            final(subscriptions).deep_view() == old(subscriptions).deep_view()
                + restored_subscriptions(self.deep_view()),
    {
        let ghost before = subscriptions.deep_view();
        let count: usize = self.subscriptions.len();
        let ghost entries = self.subscriptions.entries();
        let ghost all = restored_subscriptions(self.deep_view());
        let mut index: usize = 0;
        assert(all.take(0) =~= Seq::<EntryView>::empty());
        assert(before + all.take(0) =~= before);
        while index < count
            invariant
                index <= count == entries.len(),
                entries == self.subscriptions.entries(),
                entries == entries_of::<String, SubscriptionSnapshotView>(
                    self.deep_view().subscriptions,
                ),
                all == restored_subscriptions(self.deep_view()),
                all.len() == count,
                subscriptions.deep_view() == before + all.take(index as int),
            decreases count - index,
        {
            let ghost so_far = subscriptions.deep_view();
            let entry: SubscriptionEntry = self.subscriptions.value_at(
                index,
            ).dup().into_subscription();
            let ghost view = entry.deep_view();
            subscriptions.push(entry);
            proof {
                assert(subscriptions.deep_view() =~= so_far.push(view));
                assert(all[index as int] == view);
                assert(before + all.take(index + 1) =~= (before + all.take(index as int)).push(
                    view,
                ));
            }
            index += 1;
        }
        assert(all.take(index as int) =~= all);
    }
}

impl PersistentProjection {
    /// Everything that is stored of a state.
    pub fn from_state(state: &BrokerState) -> (result: Self)
        requires
            state.wf(),
        ensures
            result.deep_view() == projected(state.deep_view()),
    {
        let ghost view = state.deep_view();
        let count: usize = state.sessions_by_client_id.len();
        let ghost entries = state.sessions_by_client_id.entries();
        let mut clients: OrderedMap<String, ClientSnapshot> = OrderedMap::new();
        let mut index: usize = 0;
        while index < count
            invariant
                index <= count == entries.len(),
                entries == state.sessions_by_client_id.entries(),
                view == state.deep_view(),
                forall|client_id: Seq<char>| #[trigger]
                    clients.deep_view().dom().contains(client_id) <==> stored_client(
                        view,
                        client_id,
                    ) is Some && has_key(entries.take(index as int), client_id),
                forall|client_id: Seq<char>| #[trigger]
                    clients.deep_view().dom().contains(client_id) ==> stored_client(
                        view,
                        client_id,
                    ) == Some(clients.deep_view()[client_id]),
            decreases count - index,
        {
            let ghost before = clients.deep_view();
            let client_id: &String = state.sessions_by_client_id.key_at(index);
            let session: &SessionEntry = state.sessions_by_client_id.value_at(index);
            proof {
                let front = entries.take(index as int);
                let more = entries.take(index + 1);
                assert(more[index as int].0 == client_id@);
                assert forall|id: Seq<char>| #[trigger] has_key(more, id) <==> has_key(front, id)
                    || id == client_id@ by {
                    if has_key(front, id) {
                        let i = key_index(front, id);
                        assert(more[i].0 == id);
                    }
                    if has_key(more, id) && id != client_id@ {
                        let i = key_index(more, id);
                        assert(front[i].0 == id);
                    }
                }
            }
            if state.is_client_durable(client_id) {
                clients.insert(
                    client_id.dup(),
                    ClientSnapshot::from_state(&state.subscriptions, client_id, session),
                );
            }
            index += 1;
        }
        let result: PersistentProjection = PersistentProjection {
            clients,
            retained: state.retained.messages().dup(),
        };
        proof {
            assert(entries.take(index as int) =~= entries);
            assert forall|client_id: Seq<char>| #[trigger]
                result.deep_view().clients.dom().contains(client_id) <==> projected(
                    view,
                ).clients.dom().contains(client_id) by {
                if view.sessions.dom().contains(client_id) {
                    key_has_entry(entries, client_id);
                    assert(has_key(entries, client_id));
                }
            }
            assert(result.deep_view().clients =~= projected(view).clients);
        }
        result
    }

    /// The state that comes back.
    pub fn into_state(&self, now_ms: u64) -> (result: BrokerState)
        ensures
            result.wf(),
            result.deep_view() == restored(self.deep_view(), now_ms),
    {
        let mut state: BrokerState = BrokerState::new();
        let count: usize = self.clients.len();
        let ghost clients = self.clients.entries();
        let mut index: usize = 0;
        while index < count
            invariant
                index <= count == clients.len(),
                clients == self.clients.entries(),
                state.wf(),
                state.deep_view() == (StateView {
                    sessions: restored_sessions(clients.take(index as int), now_ms),
                    subscriptions: all_restored_subscriptions(clients.take(index as int)),
                    clients: Map::empty(),
                    connections: Map::empty(),
                    retained: Map::empty(),
                    qos2_inflight: Map::empty(),
                    cursors: Map::empty(),
                    client_changes: Map::empty(),
                    retained_changes: Set::empty(),
                }),
            decreases count - index,
        {
            proof {
                assert(clients.take(index + 1).drop_last() =~= clients.take(index as int));
                assert(clients.take(index + 1).last() == clients[index as int]);
            }
            let client: &ClientSnapshot = self.clients.value_at(index);
            if client.session.session_expiry_interval != 0 {
                let session: SessionEntry = client.into_session(now_ms);
                state.sessions_by_client_id.insert(self.clients.key_at(index).dup(), session);
                client.restore_subscriptions(&mut state.subscriptions);
            }
            index += 1;
        }
        assert(clients.take(index as int) =~= clients);
        let ghost so_far = state.deep_view();
        let total: usize = self.retained.len();
        let ghost messages = self.retained.entries();
        let mut position: usize = 0;
        assert(map_of(messages.take(0)) =~= Map::<Seq<char>, RetainedView>::empty());
        while position < total
            invariant
                position <= total == messages.len(),
                messages == self.retained.entries(),
                ascending::<String, RetainedView>(messages),
                map_of(messages) == self.deep_view().retained,
                state.wf(),
                state.deep_view() == (StateView {
                    retained: map_of(messages.take(position as int)),
                    ..so_far
                }),
            decreases total - position,
        {
            proof {
                map_of_entry::<String, RetainedView>(messages, position as int);
                assert(self.deep_view().retained.dom().contains(messages[position as int].0));
                map_prefix::<String, _>(messages, position as int);
            }
            let topic_name: String = self.retained.key_at(position).dup();
            let message: RetainedMessage = self.retained.value_at(position).dup();
            state.retained.insert(topic_name, message);
            position += 1;
        }
        assert(messages.take(position as int) =~= messages);
        state
    }

    /// Drops the sessions that cannot come back, and lets the time of the others start. Returns
    /// whether anything changed.
    pub fn canonicalize_for_offline_recovery(&mut self, now_ms: u64) -> (changed: bool)
        ensures
            final(self).deep_view() == canonical(old(self).deep_view(), now_ms),
            changed == (final(self).deep_view() != old(self).deep_view()),
    {
        let ghost before = self.deep_view().clients;
        let count: usize = self.clients.len();
        let ghost entries = self.clients.entries();
        let mut clients: OrderedMap<String, ClientSnapshot> = OrderedMap::new();
        let mut changed: bool = false;
        let mut index: usize = 0;
        while index < count
            invariant
                index <= count == entries.len(),
                entries == self.clients.entries(),
                ascending::<String, ClientView>(entries),
                map_of(entries) == before,
                before == self.deep_view().clients,
                self.deep_view() == old(self).deep_view(),
                forall|id: Seq<char>| #[trigger]
                    clients.deep_view().dom().contains(id) <==> has_key(
                        entries.take(index as int),
                        id,
                    ) && stays_offline(before[id], now_ms),
                forall|id: Seq<char>| #[trigger]
                    clients.deep_view().dom().contains(id) ==> clients.deep_view()[id]
                        == with_recovered_expiry(before[id], now_ms),
                changed <==> exists|i: int|
                    0 <= i < index && changes_offline((#[trigger] entries[i]).1, now_ms),
            decreases count - index,
        {
            let client_id: &String = self.clients.key_at(index);
            let client: &ClientSnapshot = self.clients.value_at(index);
            proof {
                map_of_entry::<String, ClientView>(entries, index as int);
                let front = entries.take(index as int);
                let more = entries.take(index + 1);
                assert(more[index as int].0 == client_id@);
                assert forall|id: Seq<char>| #[trigger] has_key(more, id) <==> has_key(front, id)
                    || id == client_id@ by {
                    if has_key(front, id) {
                        let i = key_index(front, id);
                        assert(more[i].0 == id);
                    }
                    if has_key(more, id) && id != client_id@ {
                        let i = key_index(more, id);
                        assert(front[i].0 == id);
                    }
                }
                assert(entries[index as int] == (client_id@, client.deep_view()));
            }
            let stays: bool = client.session.session_expiry_interval != 0 && !is_message_expired(
                client.session.expires_at_ms,
                now_ms,
            );
            if stays {
                let expires_at_ms: Option<u64> = recovered_expiry_at(&client.session, now_ms);
                let mut next: ClientSnapshot = client.dup();
                if !next.session.expires_at_ms.same(&expires_at_ms) {
                    next.session.expires_at_ms = expires_at_ms;
                    changed = true;
                }
                clients.insert(client_id.dup(), next);
            } else {
                changed = true;
            }
            index += 1;
        }
        proof {
            assert(entries.take(index as int) =~= entries);
            let after = canonical(self.deep_view(), now_ms).clients;
            assert forall|id: Seq<char>| #[trigger] clients.deep_view().dom().contains(id)
                <==> after.dom().contains(id) by {
                assert(before.dom().contains(id) <==> has_key(entries, id));
            }
            assert(clients.deep_view() =~= after);
            if changed {
                let i = choose|i: int|
                    0 <= i < index && changes_offline((#[trigger] entries[i]).1, now_ms);
                map_of_entry::<String, ClientView>(entries, i);
                let id = entries[i].0;
                if after.dom().contains(id) {
                    assert(after[id].session.expires_at_ms != before[id].session.expires_at_ms);
                } else {
                    assert(before.dom().contains(id));
                }
                assert(after != before);
            } else {
                assert forall|id: Seq<char>| before.dom().contains(id) implies #[trigger]
                    after.dom().contains(id) && after[id] == before[id] by {
                    key_has_entry(entries, id);
                    assert(!changes_offline(entries[key_index(entries, id)].1, now_ms));
                }
                assert(after =~= before);
            }
        }
        self.clients = clients;
        changed
    }
}

/// A client does not stay as it is when nobody is connected.
spec fn changes_offline(client: ClientView, now_ms: u64) -> bool {
    !stays_offline(client, now_ms) || recovered(client.session, now_ms)
        != client.session.expires_at_ms
}

/// The patches that some changes ask for.
pub fn prepare_patches(
    projection: &PersistentProjection,
    state: &BrokerState,
    changes: &Vec<PersistenceChange>,
) -> (result: Vec<StoragePatch>)
    requires
        state.wf(),
    ensures
        result.deep_view() == prepared(
            projection.deep_view(),
            state.deep_view(),
            changes.deep_view(),
        ),
{
    let ghost list = changes.deep_view();
    let mut clients: OrderedMap<String, bool> = OrderedMap::new();
    let mut topics: TextSet = TextSet::new();
    let mut index: usize = 0;
    while index < changes.len()
        invariant
            index <= changes@.len(),
            list == changes.deep_view(),
            clients.deep_view() == changed_clients(list.take(index as int)),
            topics.deep_view() == changed_topics(list.take(index as int)),
        decreases changes@.len() - index,
    {
        proof {
            assert(list.take(index + 1).drop_last() =~= list.take(index as int));
            assert(list.take(index + 1).last() == changes@[index as int].deep_view());
        }
        match &changes[index] {
            PersistenceChange::ClientChanged(client_id) => {
                if !clients.contains_key(client_id) {
                    clients.insert(client_id.dup(), false);
                }
            },
            PersistenceChange::ClientReset(client_id) => {
                clients.insert(client_id.dup(), true);
            },
            PersistenceChange::RetainedTopic(topic_name) => {
                topics.insert(topic_name.dup(), ());
            },
        }
        index += 1;
    }
    assert(list.take(index as int) =~= list);
    let mut patches: Vec<StoragePatch> = Vec::new();
    assert(patches.deep_view() =~= Seq::<StoragePatchView>::empty());
    let client_count: usize = clients.len();
    let ghost client_entries = clients.entries();
    let mut client_index: usize = 0;
    while client_index < client_count
        invariant
            state.wf(),
            client_index <= client_count == client_entries.len(),
            client_entries == clients.entries(),
            patches.deep_view() == client_change_patches(
                projection.deep_view(),
                state.deep_view(),
                client_entries.take(client_index as int),
            ),
        decreases client_count - client_index,
    {
        proof {
            assert(client_entries.take(client_index + 1).drop_last() =~= client_entries.take(
                client_index as int,
            ));
            assert(client_entries.take(client_index + 1).last()
                == client_entries[client_index as int]);
        }
        let client_id: &String = clients.key_at(client_index);
        let force_reset: bool = *clients.value_at(client_index);
        let patch: Option<ClientPatch> = prepare_client_patch(
            projection,
            state,
            client_id,
            force_reset,
        );
        if let Some(patch) = patch {
            let ghost before = patches.deep_view();
            let ghost view = StoragePatchView::Client(patch.deep_view());
            patches.push(StoragePatch::Client(patch));
            assert(patches.deep_view() =~= before.push(view));
        }
        client_index += 1;
    }
    assert(client_entries.take(client_index as int) =~= client_entries);
    let ghost first = patches.deep_view();
    let topic_count: usize = topics.len();
    let ghost topic_entries = topics.entries();
    let mut topic_index: usize = 0;
    assert(first + Seq::<StoragePatchView>::empty() =~= first);
    while topic_index < topic_count
        invariant
            topic_index <= topic_count == topic_entries.len(),
            topic_entries == topics.entries(),
            patches.deep_view() == first + retained_change_patches(
                projection.deep_view(),
                state.deep_view(),
                topic_entries.take(topic_index as int),
            ),
        decreases topic_count - topic_index,
    {
        let ghost more = retained_change_patches(
            projection.deep_view(),
            state.deep_view(),
            topic_entries.take(topic_index as int),
        );
        proof {
            assert(topic_entries.take(topic_index + 1).drop_last() =~= topic_entries.take(
                topic_index as int,
            ));
            assert(topic_entries.take(topic_index + 1).last() == topic_entries[topic_index as int]);
        }
        let topic_name: &String = topics.key_at(topic_index);
        let previous: Option<RetainedMessage> = match projection.retained.get(topic_name) {
            Some(message) => Some(message.dup()),
            None => None,
        };
        let next: Option<RetainedMessage> = match state.retained.get(topic_name) {
            Some(message) => Some(message.dup()),
            None => None,
        };
        if !previous.same(&next) {
            let ghost before = patches.deep_view();
            let patch: RetainedPatch = RetainedPatch {
                topic_name: topic_name.dup(),
                message: next,
            };
            let ghost view = StoragePatchView::Retained(patch.deep_view());
            patches.push(StoragePatch::Retained(patch));
            assert(patches.deep_view() =~= before.push(view));
            assert(first + more.push(view) =~= (first + more).push(view));
        }
        topic_index += 1;
    }
    assert(topic_entries.take(topic_index as int) =~= topic_entries);
    patches
}

/// The patch of a client whose state changed, if any.
fn prepare_client_patch(
    projection: &PersistentProjection,
    state: &BrokerState,
    client_id: &String,
    force_reset: bool,
) -> (result: Option<ClientPatch>)
    requires
        state.wf(),
    ensures
        result.deep_view() == client_change_patch(
            projection.deep_view(),
            state.deep_view(),
            client_id@,
            force_reset,
        ),
{
    let next: Option<ClientSnapshot> = match state.sessions_by_client_id.get(client_id) {
        Some(session) => if state.is_client_durable(client_id) {
            Some(ClientSnapshot::from_state(&state.subscriptions, client_id, session))
        } else {
            None
        },
        None => None,
    };
    ClientPatch::between(
        client_id.dup(),
        projection.clients.get(client_id),
        next.as_ref(),
        force_reset,
    )
}

} // verus!
