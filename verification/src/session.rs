//! Sessions, connections and what changed of them since it was last stored.
use std::collections::VecDeque;
use vstd::prelude::*;

use crate::message::PendingPublish;
use crate::message::PendingView;
use crate::message::add_seconds;
use crate::message::expired;
use crate::message::is_message_expired;
use crate::message::seconds_after;
use crate::ordered_map::IdSet;
use crate::ordered_map::OrderedKey;
use crate::ordered_map::OrderedMap;
use crate::ordered_map::TextSet;
use crate::ordered_map::ascending;
use crate::ordered_map::deep;
use crate::ordered_map::entries_of;
use crate::ordered_map::key_has_entry;
use crate::ordered_map::key_index;
use crate::ordered_map::map_of;
use crate::ordered_map::map_of_entry;
use crate::ordered_map::set_model_injective;
use crate::packet::Will;
use crate::packet::WillView;
use crate::retained_message::RetainedView;
use crate::retained_store::RetainedStore;
use crate::storage::delta::lookup;
use crate::storage::snapshot::QueuedSnapshot;
use crate::storage::snapshot::QueuedSnapshotView;
use crate::subscription::EntryView;
use crate::subscription::SubscriptionEntry;
use crate::subscription::filter_step;
use crate::subscription::remove_client_subscriptions;
use crate::subscription::without_client;
use crate::value::Value;

verus! {

/// A publication of an offline queue, under its sequence number.
pub type QueuedPublish = QueuedSnapshot;

/// A copy of an offline queue.
fn dup_queue(queue: &VecDeque<QueuedPublish>) -> (copy: VecDeque<QueuedPublish>)
    ensures
        deep(copy@) == deep(queue@),
{
    let mut copy: VecDeque<QueuedPublish> = VecDeque::new();
    let mut index: usize = 0;
    while index < queue.len()
        invariant
            index <= queue@.len(),
            copy@.len() == index,
            forall|i: int|
                0 <= i < index ==> (#[trigger] copy@[i]).deep_view() == queue@[i].deep_view(),
        decreases queue@.len() - index,
    {
        copy.push_back(queue[index].dup());
        index += 1;
    }
    assert(deep(copy@) =~= deep(queue@));
    copy
}

/// Whether two offline queues are the same.
fn same_queue(a: &VecDeque<QueuedPublish>, b: &VecDeque<QueuedPublish>) -> (result: bool)
    ensures
        result == (deep(a@) == deep(b@)),
{
    if a.len() != b.len() {
        assert(deep(a@).len() != deep(b@).len());
        return false;
    }
    let mut index: usize = 0;
    while index < a.len()
        invariant
            index <= a@.len(),
            a@.len() == b@.len(),
            forall|i: int|
                0 <= i < index ==> (#[trigger] a@[i]).deep_view() == b@[i].deep_view(),
        decreases a@.len() - index,
    {
        if !a[index].same(&b[index]) {
            assert(deep(a@)[index as int] != deep(b@)[index as int]);
            return false;
        }
        index += 1;
    }
    assert(deep(a@) =~= deep(b@));
    true
}

/// A client's session.
pub struct SessionEntry {
    pub expires_at_ms: Option<u64>,
    pub session_expiry_interval: u32,
    pub next_packet_id: u16,
    pub outbound_qos1: OrderedMap<u16, PendingPublish>,
    pub outbound_qos2_publish: OrderedMap<u16, PendingPublish>,
    pub outbound_qos2_pubrel: IdSet,
    pub offline_queue: VecDeque<QueuedPublish>,
    pub next_offline_sequence: u64,
}

/// What a `SessionEntry` stands for.
pub struct SessionView {
    pub expires_at_ms: Option<u64>,
    pub session_expiry_interval: u32,
    pub next_packet_id: u16,
    pub outbound_qos1: Map<u16, PendingView>,
    pub outbound_qos2_publish: Map<u16, PendingView>,
    pub outbound_qos2_pubrel: Set<u16>,
    pub offline_queue: Seq<QueuedSnapshotView>,
    pub next_offline_sequence: u64,
}

impl DeepView for SessionEntry {
    type V = SessionView;

    open spec fn deep_view(&self) -> SessionView {
        SessionView {
            expires_at_ms: self.expires_at_ms.deep_view(),
            session_expiry_interval: self.session_expiry_interval.deep_view(),
            next_packet_id: self.next_packet_id.deep_view(),
            outbound_qos1: self.outbound_qos1.deep_view(),
            outbound_qos2_publish: self.outbound_qos2_publish.deep_view(),
            outbound_qos2_pubrel: self.outbound_qos2_pubrel.deep_view().dom(),
            offline_queue: deep(self.offline_queue@),
            next_offline_sequence: self.next_offline_sequence.deep_view(),
        }
    }
}

impl Value for SessionEntry {
    fn dup(&self) -> (copy: Self) {
        SessionEntry {
            expires_at_ms: self.expires_at_ms.dup(),
            session_expiry_interval: self.session_expiry_interval.dup(),
            next_packet_id: self.next_packet_id.dup(),
            outbound_qos1: self.outbound_qos1.dup(),
            outbound_qos2_publish: self.outbound_qos2_publish.dup(),
            outbound_qos2_pubrel: self.outbound_qos2_pubrel.dup(),
            offline_queue: dup_queue(&self.offline_queue),
            next_offline_sequence: self.next_offline_sequence.dup(),
        }
    }

    fn same(&self, other: &Self) -> (result: bool) {
        proof {
            set_model_injective(
                self.outbound_qos2_pubrel.deep_view(),
                other.outbound_qos2_pubrel.deep_view(),
            );
        }
        self.expires_at_ms.same(&other.expires_at_ms)
            && self.session_expiry_interval.same(&other.session_expiry_interval)
            && self.next_packet_id.same(&other.next_packet_id)
            && self.outbound_qos1.same(&other.outbound_qos1)
            && self.outbound_qos2_publish.same(&other.outbound_qos2_publish)
            && self.outbound_qos2_pubrel.same(&other.outbound_qos2_pubrel)
            && same_queue(&self.offline_queue, &other.offline_queue)
            && self.next_offline_sequence.same(&other.next_offline_sequence)
    }
}

/// A new session.
pub open spec fn new_session(
    session_expiry_interval: u32,
    expires_at_ms: Option<u64>,
) -> SessionView {
    SessionView {
        expires_at_ms,
        session_expiry_interval,
        next_packet_id: 1,
        outbound_qos1: Map::empty(),
        outbound_qos2_publish: Map::empty(),
        outbound_qos2_pubrel: Set::empty(),
        offline_queue: Seq::empty(),
        next_offline_sequence: 0,
    }
}

impl SessionEntry {
    /// A new session of a connected client.
    pub fn connected(session_expiry_interval: u32) -> (result: Self)
        ensures
            result.deep_view() == new_session(session_expiry_interval, None),
    {
        SessionEntry::disconnected(session_expiry_interval, None)
    }

    /// A new session of a client that is not connected.
    pub fn disconnected(session_expiry_interval: u32, expires_at_ms: Option<u64>) -> (result: Self)
        ensures
            result.deep_view() == new_session(session_expiry_interval, expires_at_ms),
    {
        let result: SessionEntry = SessionEntry {
            expires_at_ms,
            session_expiry_interval,
            next_packet_id: 1,
            outbound_qos1: OrderedMap::new(),
            outbound_qos2_publish: OrderedMap::new(),
            outbound_qos2_pubrel: IdSet::new(),
            offline_queue: VecDeque::new(),
            next_offline_sequence: 0,
        };
        proof {
            assert(result.deep_view().offline_queue =~= Seq::empty());
            assert(Map::<u16, ()>::empty().dom() =~= Set::<u16>::empty());
        }
        result
    }
}

/// A connected client.
pub struct ClientEntry {
    pub client_id: String,
    pub will: Option<Will>,
    pub principal: Option<String>,
    pub session_expiry_interval: u32,
    pub receive_maximum: u16,
    pub maximum_packet_size: u32,
    pub keep_alive_deadline_ms: u64,
    pub persistent_session: bool,
    pub subscription_count: usize,
}

/// What a `ClientEntry` stands for.
pub struct ClientEntryView {
    pub client_id: Seq<char>,
    pub will: Option<WillView>,
    pub principal: Option<Seq<char>>,
    pub session_expiry_interval: u32,
    pub receive_maximum: u16,
    pub maximum_packet_size: u32,
    pub keep_alive_deadline_ms: u64,
    pub persistent_session: bool,
    pub subscription_count: usize,
}

impl DeepView for ClientEntry {
    type V = ClientEntryView;

    open spec fn deep_view(&self) -> ClientEntryView {
        ClientEntryView {
            client_id: self.client_id.deep_view(),
            will: self.will.deep_view(),
            principal: self.principal.deep_view(),
            session_expiry_interval: self.session_expiry_interval.deep_view(),
            receive_maximum: self.receive_maximum.deep_view(),
            maximum_packet_size: self.maximum_packet_size.deep_view(),
            keep_alive_deadline_ms: self.keep_alive_deadline_ms.deep_view(),
            persistent_session: self.persistent_session.deep_view(),
            subscription_count: self.subscription_count.deep_view(),
        }
    }
}

impl Value for ClientEntry {
    fn dup(&self) -> (copy: Self) {
        ClientEntry {
            client_id: self.client_id.dup(),
            will: self.will.dup(),
            principal: self.principal.dup(),
            session_expiry_interval: self.session_expiry_interval.dup(),
            receive_maximum: self.receive_maximum.dup(),
            maximum_packet_size: self.maximum_packet_size.dup(),
            keep_alive_deadline_ms: self.keep_alive_deadline_ms.dup(),
            persistent_session: self.persistent_session.dup(),
            subscription_count: self.subscription_count.dup(),
        }
    }

    fn same(&self, other: &Self) -> (result: bool) {
        self.client_id.same(&other.client_id)
            && self.will.same(&other.will)
            && self.principal.same(&other.principal)
            && self.session_expiry_interval.same(&other.session_expiry_interval)
            && self.receive_maximum.same(&other.receive_maximum)
            && self.maximum_packet_size.same(&other.maximum_packet_size)
            && self.keep_alive_deadline_ms.same(&other.keep_alive_deadline_ms)
            && self.persistent_session.same(&other.persistent_session)
            && self.subscription_count.same(&other.subscription_count)
    }
}

/// How what is stored of a client has to change.
#[derive(Clone, Copy, Debug, PartialEq, Eq, Structural)]
pub enum ClientPersistenceChange {
    Changed,
    Reset,
}

impl DeepView for ClientPersistenceChange {
    type V = ClientPersistenceChange;

    open spec fn deep_view(&self) -> ClientPersistenceChange {
        *self
    }
}

impl Value for ClientPersistenceChange {
    fn dup(&self) -> (copy: Self) {
        *self
    }

    fn same(&self, other: &Self) -> (result: bool) {
        *self == *other
    }
}

/// Something that has to be stored anew.
#[derive(Debug, PartialEq)]
pub enum PersistenceChange {
    ClientChanged(String),
    ClientReset(String),
    RetainedTopic(String),
}

/// What a `PersistenceChange` stands for.
pub enum ChangeView {
    ClientChanged(Seq<char>),
    ClientReset(Seq<char>),
    RetainedTopic(Seq<char>),
}

impl DeepView for PersistenceChange {
    type V = ChangeView;

    open spec fn deep_view(&self) -> ChangeView {
        match *self {
            PersistenceChange::ClientChanged(client_id) => ChangeView::ClientChanged(client_id@),
            PersistenceChange::ClientReset(client_id) => ChangeView::ClientReset(client_id@),
            PersistenceChange::RetainedTopic(topic) => ChangeView::RetainedTopic(topic@),
        }
    }
}

/// The state of the broker.
pub struct BrokerState {
    pub clients_by_connection: OrderedMap<u64, ClientEntry>,
    pub connection_by_client_id: OrderedMap<String, u64>,
    pub sessions_by_client_id: OrderedMap<String, SessionEntry>,
    pub subscriptions: Vec<SubscriptionEntry>,
    pub retained: RetainedStore,
    pub qos2_inflight: OrderedMap<(u64, u16), PendingPublish>,
    pub shared_subscription_cursors: OrderedMap<String, usize>,
    pub client_persistence_changes: OrderedMap<String, ClientPersistenceChange>,
    pub retained_persistence_changes: TextSet,
}

/// What a `BrokerState` stands for.
pub struct StateView {
    pub clients: Map<u64, ClientEntryView>,
    pub connections: Map<Seq<char>, u64>,
    pub sessions: Map<Seq<char>, SessionView>,
    pub subscriptions: Seq<EntryView>,
    pub retained: Map<Seq<char>, RetainedView>,
    pub qos2_inflight: Map<(u64, u16), PendingView>,
    pub cursors: Map<Seq<char>, usize>,
    pub client_changes: Map<Seq<char>, ClientPersistenceChange>,
    pub retained_changes: Set<Seq<char>>,
}

impl DeepView for BrokerState {
    type V = StateView;

    open spec fn deep_view(&self) -> StateView {
        StateView {
            clients: self.clients_by_connection.deep_view(),
            connections: self.connection_by_client_id.deep_view(),
            sessions: self.sessions_by_client_id.deep_view(),
            subscriptions: self.subscriptions.deep_view(),
            retained: self.retained.deep_view(),
            qos2_inflight: self.qos2_inflight.deep_view(),
            cursors: self.shared_subscription_cursors.deep_view(),
            client_changes: self.client_persistence_changes.deep_view(),
            retained_changes: self.retained_persistence_changes.deep_view().dom(),
        }
    }
}

/// What a connected client of this identifier is.
pub open spec fn connected_client(state: StateView, client_id: Seq<char>) -> Option<
    ClientEntryView,
> {
    match lookup(state.connections, client_id) {
        Some(connection_id) => lookup(state.clients, connection_id),
        None => None,
    }
}

/// A client's session is stored: by what it asked for when it connected, or else by how long the
/// session lasts.
pub open spec fn is_durable(state: StateView, client_id: Seq<char>) -> bool {
    match connected_client(state, client_id) {
        Some(client) => client.persistent_session,
        None => state.sessions.dom().contains(client_id)
            && state.sessions[client_id].session_expiry_interval != 0,
    }
}

/// The state with a client marked as changed; a reset stays a reset.
pub open spec fn marked_changed(state: StateView, client_id: Seq<char>) -> StateView {
    if state.client_changes.dom().contains(client_id) {
        state
    } else {
        StateView {
            client_changes: state.client_changes.insert(
                client_id,
                ClientPersistenceChange::Changed,
            ),
            ..state
        }
    }
}

/// The state with a client marked as changed, where its session is stored.
pub open spec fn marked_if_durable(state: StateView, client_id: Seq<char>) -> StateView {
    if is_durable(state, client_id) {
        marked_changed(state, client_id)
    } else {
        state
    }
}

/// The state with a client marked as reset.
pub open spec fn marked_reset(state: StateView, client_id: Seq<char>) -> StateView {
    StateView {
        client_changes: state.client_changes.insert(client_id, ClientPersistenceChange::Reset),
        ..state
    }
}

/// The state with a retained topic marked.
pub open spec fn marked_retained(state: StateView, topic: Seq<char>) -> StateView {
    StateView { retained_changes: state.retained_changes.insert(topic), ..state }
}

/// The changes to store: clients in order, then retained topics in order.
pub open spec fn changes_of(state: StateView) -> Seq<ChangeView> {
    client_changes_of(
        entries_of::<String, ClientPersistenceChange>(state.client_changes),
    ) + topic_changes_of(
        entries_of::<String, ()>(text_unit_map(state.retained_changes)),
    )
}

/// A set of texts as a map to nothing.
pub open spec fn text_unit_map(set: Set<Seq<char>>) -> Map<Seq<char>, ()> {
    Map::new(|text: Seq<char>| set.contains(text), |text: Seq<char>| ())
}

/// The changes of clients.
pub open spec fn client_changes_of(
    entries: Seq<(Seq<char>, ClientPersistenceChange)>,
) -> Seq<ChangeView> {
    Seq::new(
        entries.len(),
        |i: int|
            match entries[i].1 {
                ClientPersistenceChange::Changed => ChangeView::ClientChanged(entries[i].0),
                ClientPersistenceChange::Reset => ChangeView::ClientReset(entries[i].0),
            },
    )
}

/// The changes of retained topics.
pub open spec fn topic_changes_of(entries: Seq<(Seq<char>, ())>) -> Seq<ChangeView> {
    Seq::new(entries.len(), |i: int| ChangeView::RetainedTopic(entries[i].0))
}

/// A session of a client that is not connected has expired.
pub open spec fn session_expired(state: StateView, client_id: Seq<char>, now_ms: u64) -> bool {
    &&& state.sessions.dom().contains(client_id)
    &&& expired(state.sessions[client_id].expires_at_ms, now_ms)
    &&& !state.connections.dom().contains(client_id)
}

/// The state without the sessions that have expired.
pub open spec fn without_expired(state: StateView, now_ms: u64) -> StateView {
    StateView {
        sessions: Map::new(
            |client_id: Seq<char>|
                state.sessions.dom().contains(client_id) && !session_expired(
                    state,
                    client_id,
                    now_ms,
                ),
            |client_id: Seq<char>| state.sessions[client_id],
        ),
        subscriptions: state.subscriptions.filter(
            |entry: EntryView| !session_expired(state, entry.client_id, now_ms),
        ),
        client_changes: Map::new(
            |client_id: Seq<char>|
                state.client_changes.dom().contains(client_id) || session_expired(
                    state,
                    client_id,
                    now_ms,
                ),
            |client_id: Seq<char>|
                if session_expired(state, client_id, now_ms) {
                    ClientPersistenceChange::Reset
                } else {
                    state.client_changes[client_id]
                },
        ),
        ..state
    }
}

/// When a session without a connection expires.
pub open spec fn session_deadline(session_expiry_interval: u32, now_ms: u64) -> Option<u64> {
    if session_expiry_interval == u32::MAX {
        None
    } else {
        Some(seconds_after(now_ms, session_expiry_interval))
    }
}

/// When a session without a connection expires.
pub fn session_expires_at_ms(session_expiry_interval: u32, now_ms: u64) -> (result: Option<u64>)
    ensures
        result == session_deadline(session_expiry_interval, now_ms),
{
    if session_expiry_interval == u32::MAX {
        None
    } else {
        Some(add_seconds(now_ms, session_expiry_interval))
    }
}

/// The inbound publications but those of a connection.
pub open spec fn without_connection(
    inflight: Map<(u64, u16), PendingView>,
    connection_id: u64,
) -> Map<(u64, u16), PendingView> {
    Map::new(
        |key: (u64, u16)| inflight.dom().contains(key) && key.0 != connection_id,
        |key: (u64, u16)| inflight[key],
    )
}

/// A session that its client has left.
pub open spec fn left_session(
    session: Option<SessionView>,
    session_expiry_interval: u32,
    now_ms: u64,
) -> SessionView {
    let expires_at_ms = session_deadline(session_expiry_interval, now_ms);
    match session {
        Some(session) => SessionView { expires_at_ms, session_expiry_interval, ..session },
        None => new_session(session_expiry_interval, expires_at_ms),
    }
}

/// The state without a connection: its session is kept as it is, dropped where it does not
/// outlast the connection, or left to expire.
pub open spec fn without_client_connection(
    state: StateView,
    connection_id: u64,
    preserve_session: bool,
    now_ms: u64,
) -> StateView {
    if !state.clients.dom().contains(connection_id) {
        state
    } else {
        let client = state.clients[connection_id];
        let base = StateView {
            clients: state.clients.remove(connection_id),
            qos2_inflight: without_connection(state.qos2_inflight, connection_id),
            ..state
        };
        if preserve_session {
            base
        } else if client.session_expiry_interval == 0 {
            let dropped = StateView {
                sessions: base.sessions.remove(client.client_id),
                subscriptions: without_client(base.subscriptions, client.client_id),
                ..base
            };
            if client.persistent_session {
                marked_reset(dropped, client.client_id)
            } else {
                dropped
            }
        } else {
            let left = StateView {
                sessions: base.sessions.insert(
                    client.client_id,
                    left_session(
                        lookup(base.sessions, client.client_id),
                        client.session_expiry_interval,
                        now_ms,
                    ),
                ),
                ..base
            };
            marked_if_durable(left, client.client_id)
        }
    }
}

/// Removes the subscriptions of some clients.
fn remove_subscriptions_of(subscriptions: &mut Vec<SubscriptionEntry>, clients: &TextSet)
    ensures
        final(subscriptions).deep_view() == old(subscriptions).deep_view().filter(
            |entry: EntryView| !clients.deep_view().dom().contains(entry.client_id),
        ),
{
    let ghost keep = |entry: EntryView| !clients.deep_view().dom().contains(entry.client_id);
    let ghost entries = subscriptions.deep_view();
    let count: usize = subscriptions.len();
    let mut index: usize = 0;
    let mut done: usize = 0;
    assert(entries.take(0).filter(keep) =~= Seq::<EntryView>::empty()) by {
        reveal(Seq::filter);
    }
    while done < count
        invariant
            index <= done <= count == entries.len(),
            subscriptions.len() == index + (count - done),
            keep == (|entry: EntryView| !clients.deep_view().dom().contains(entry.client_id)),
            subscriptions.deep_view() == entries.take(done as int).filter(keep) + entries.skip(
                done as int,
            ),
            entries.take(done as int).filter(keep).len() == index,
        decreases count - done,
    {
        let ghost before = subscriptions.deep_view();
        let ghost kept = entries.take(done as int).filter(keep);
        let ghost item = entries[done as int];
        proof {
            filter_step(entries, done as int, keep);
            assert(entries.skip(done as int) =~= seq![item] + entries.skip(done + 1));
            assert(before[index as int] == item);
        }
        if clients.contains_key(&subscriptions[index].client_id) {
            subscriptions.remove(index);
            assert(subscriptions.deep_view() =~= before.remove(index as int));
            assert(before.remove(index as int) =~= kept + entries.skip(done + 1));
        } else {
            assert(before =~= kept.push(item) + entries.skip(done + 1));
            index += 1;
        }
        done += 1;
    }
    assert(entries.take(count as int) =~= entries);
    assert(subscriptions.deep_view() =~= entries.filter(keep));
}

impl BrokerState {
    /// The store of retained messages agrees with itself.
    pub open spec fn wf(&self) -> bool {
        self.retained.wf()
    }

    /// The state of a broker that nobody has used.
    pub fn new() -> (result: Self)
        ensures
            result.wf(),
            result.deep_view() == (StateView {
                clients: Map::empty(),
                connections: Map::empty(),
                sessions: Map::empty(),
                subscriptions: Seq::empty(),
                retained: Map::empty(),
                qos2_inflight: Map::empty(),
                cursors: Map::empty(),
                client_changes: Map::empty(),
                retained_changes: Set::empty(),
            }),
    {
        let result: BrokerState = BrokerState {
            clients_by_connection: OrderedMap::new(),
            connection_by_client_id: OrderedMap::new(),
            sessions_by_client_id: OrderedMap::new(),
            subscriptions: Vec::new(),
            retained: RetainedStore::new(),
            qos2_inflight: OrderedMap::new(),
            shared_subscription_cursors: OrderedMap::new(),
            client_persistence_changes: OrderedMap::new(),
            retained_persistence_changes: TextSet::new(),
        };
        proof {
            assert(result.deep_view().subscriptions =~= Seq::empty());
            assert(Map::<Seq<char>, ()>::empty().dom() =~= Set::<Seq<char>>::empty());
        }
        result
    }

    /// The connected client of an identifier.
    pub fn client_of(&self, client_id: &String) -> (result: Option<(u64, &ClientEntry)>)
        ensures
            match result {
                Some(found) => lookup(self.deep_view().connections, client_id@) == Some(found.0)
                    && lookup(self.deep_view().clients, found.0) == Some(found.1.deep_view()),
                None => connected_client(self.deep_view(), client_id@) is None,
            },
    {
        match self.connection_by_client_id.get(client_id) {
            Some(connection_id) => match self.clients_by_connection.get(connection_id) {
                Some(client) => Some((*connection_id, client)),
                None => None,
            },
            None => None,
        }
    }

    /// Whether a client's session is stored.
    pub fn is_client_durable(&self, client_id: &String) -> (result: bool)
        ensures
            result == is_durable(self.deep_view(), client_id@),
    {
        match self.client_of(client_id) {
            Some((_, client)) => client.persistent_session,
            None => match self.sessions_by_client_id.get(client_id) {
                Some(session) => session.session_expiry_interval != 0,
                None => false,
            },
        }
    }

    /// Marks a client as changed.
    pub fn mark_client_changed(&mut self, client_id: String)
        requires
            old(self).wf(),
        ensures
            final(self).wf(),
            final(self).deep_view() == marked_changed(old(self).deep_view(), client_id@),
    {
        if !self.client_persistence_changes.contains_key(&client_id) {
            self.client_persistence_changes.insert(client_id, ClientPersistenceChange::Changed);
        }
    }

    /// Marks a client as changed, where its session is stored.
    pub fn mark_client_changed_if_durable(&mut self, client_id: String)
        requires
            old(self).wf(),
        ensures
            final(self).wf(),
            final(self).deep_view() == marked_if_durable(old(self).deep_view(), client_id@),
    {
        if self.is_client_durable(&client_id) {
            self.mark_client_changed(client_id);
        }
    }

    /// Marks a client as reset.
    pub fn mark_client_reset(&mut self, client_id: String)
        requires
            old(self).wf(),
        ensures
            final(self).wf(),
            final(self).deep_view() == marked_reset(old(self).deep_view(), client_id@),
    {
        self.client_persistence_changes.insert(client_id, ClientPersistenceChange::Reset);
    }

    /// Marks a retained topic.
    pub fn mark_retained_changed(&mut self, topic_name: String)
        requires
            old(self).wf(),
        ensures
            final(self).wf(),
            final(self).deep_view() == marked_retained(old(self).deep_view(), topic_name@),
    {
        let ghost before = self.retained_persistence_changes.deep_view();
        self.retained_persistence_changes.insert(topic_name, ());
        assert(self.retained_persistence_changes.deep_view().dom() =~= before.dom().insert(
            topic_name@,
        ));
    }

    /// The changes to store.
    pub fn persistence_changes(&self) -> (result: Vec<PersistenceChange>)
        ensures
            result.deep_view() == changes_of(self.deep_view()),
    {
        let mut result: Vec<PersistenceChange> = Vec::new();
        let clients: usize = self.client_persistence_changes.len();
        let ghost list = self.client_persistence_changes.entries();
        let mut index: usize = 0;
        while index < clients
            invariant
                index <= clients == list.len(),
                list == self.client_persistence_changes.entries(),
                result@.len() == index,
                forall|i: int|
                    0 <= i < index ==> (#[trigger] result@[i]).deep_view() == client_changes_of(
                        list,
                    )[i],
            decreases clients - index,
        {
            let client_id: String = self.client_persistence_changes.key_at(index).dup();
            result.push(
                match self.client_persistence_changes.value_at(index) {
                    ClientPersistenceChange::Changed => PersistenceChange::ClientChanged(
                        client_id,
                    ),
                    ClientPersistenceChange::Reset => PersistenceChange::ClientReset(client_id),
                },
            );
            index += 1;
        }
        let topics: usize = self.retained_persistence_changes.len();
        let ghost names = self.retained_persistence_changes.entries();
        let mut position: usize = 0;
        while position < topics
            invariant
                position <= topics == names.len(),
                names == self.retained_persistence_changes.entries(),
                clients == list.len(),
                result@.len() == clients + position,
                forall|i: int|
                    0 <= i < clients ==> (#[trigger] result@[i]).deep_view() == client_changes_of(
                        list,
                    )[i],
                forall|i: int|
                    clients <= i < clients + position ==> (#[trigger] result@[i]).deep_view()
                        == topic_changes_of(names)[i - clients],
            decreases topics - position,
        {
            result.push(
                PersistenceChange::RetainedTopic(
                    self.retained_persistence_changes.key_at(position).dup(),
                ),
            );
            position += 1;
        }
        proof {
            let set = self.retained_persistence_changes.deep_view();
            assert(set =~= text_unit_map(set.dom()));
            assert(result.deep_view() =~= changes_of(self.deep_view()));
        }
        result
    }

    /// Hands out the changes to store and forgets them.
    pub fn take_persistence_changes(&mut self) -> (result: Vec<PersistenceChange>)
        requires
            old(self).wf(),
        ensures
            final(self).wf(),
            result.deep_view() == changes_of(old(self).deep_view()),
            final(self).deep_view() == (StateView {
                client_changes: Map::empty(),
                retained_changes: Set::empty(),
                ..old(self).deep_view()
            }),
    {
        let result: Vec<PersistenceChange> = self.persistence_changes();
        self.client_persistence_changes = OrderedMap::new();
        self.retained_persistence_changes = TextSet::new();
        assert(Map::<Seq<char>, ()>::empty().dom() =~= Set::<Seq<char>>::empty());
        result
    }

    /// Drops the sessions that have expired.
    pub fn expire_sessions(&mut self, now_ms: u64)
        requires
            old(self).wf(),
        ensures
            final(self).wf(),
            final(self).deep_view() == without_expired(old(self).deep_view(), now_ms),
    {
        let ghost start = self.deep_view();
        let mut gone: TextSet = TextSet::new();
        let mut index: usize = 0;
        let mut count: usize = self.sessions_by_client_id.len();
        let ghost list = self.sessions_by_client_id.entries();
        let ghost mut done: int = 0;
        assert(list.skip(0) =~= list);
        while index < count
            invariant
                index <= count == self.sessions_by_client_id.entries().len(),
                0 <= done <= list.len(),
                count - index == list.len() - done,
                self.wf(),
                start == old(self).deep_view(),
                list == entries_of::<String, SessionView>(start.sessions),
                map_of(list) == start.sessions,
                ascending::<String, SessionView>(list),
                ascending::<String, SessionView>(self.sessions_by_client_id.entries()),
                forall|i: int|
                    0 <= i < list.len() - done
                        ==> #[trigger] self.sessions_by_client_id.entries()[index + i] == list[done
                        + i],
                self.deep_view() == (StateView {
                    sessions: self.deep_view().sessions,
                    client_changes: self.deep_view().client_changes,
                    ..start
                }),
                forall|id: Seq<char>| #[trigger]
                    gone.deep_view().dom().contains(id) <==> session_expired(start, id, now_ms)
                        && listed_before(list, id, done),
                forall|id: Seq<char>| #[trigger]
                    self.deep_view().sessions.dom().contains(id) <==> start.sessions.dom().contains(
                        id,
                    ) && !gone.deep_view().dom().contains(id),
                forall|id: Seq<char>| #[trigger]
                    self.deep_view().sessions.dom().contains(id) ==> self.deep_view().sessions[id]
                        == start.sessions[id],
                forall|id: Seq<char>| #[trigger]
                    self.deep_view().client_changes.dom().contains(id)
                        <==> start.client_changes.dom().contains(id)
                        || gone.deep_view().dom().contains(id),
                forall|id: Seq<char>| #[trigger]
                    self.deep_view().client_changes.dom().contains(id)
                        ==> self.deep_view().client_changes[id] == (
                    if gone.deep_view().dom().contains(id) {
                        ClientPersistenceChange::Reset
                    } else {
                        start.client_changes[id]
                    }),
            decreases count - index,
        {
            let ghost before = self.deep_view();
            let ghost entries = self.sessions_by_client_id.entries();
            let ghost collected = gone.deep_view();
            proof {
                assert(entries[index + 0] == list[done + 0]);
                map_of_entry::<String, SessionView>(list, done);
            }
            let ghost id = list[done].0;
            let due: bool = is_message_expired(
                self.sessions_by_client_id.value_at(index).expires_at_ms,
                now_ms,
            ) && !self.connection_by_client_id.contains_key(
                self.sessions_by_client_id.key_at(index),
            );
            proof {
                assert(start.sessions.dom().contains(id));
                assert(due == session_expired(start, id, now_ms));
                listed_step(list, done);
            }
            if due {
                let (client_id, _) = self.sessions_by_client_id.remove_at(index);
                gone.insert(client_id.dup(), ());
                self.client_persistence_changes.insert(client_id, ClientPersistenceChange::Reset);
                proof {
                    let after = self.sessions_by_client_id.entries();
                    assert forall|i: int| 0 <= i < list.len() - (done + 1) implies
                        #[trigger] after[index + i] == list[done + 1 + i] by {
                        assert(after[index + i] == entries[index + (i + 1)]);
                        assert(entries[index + (i + 1)] == list[done + (i + 1)]);
                    }
                }
            } else {
                index += 1;
                proof {
                    assert forall|i: int| 0 <= i < list.len() - (done + 1) implies
                        #[trigger] entries[index + i] == list[done + 1 + i] by {
                        assert(entries[(index - 1) + (i + 1)] == list[done + (i + 1)]);
                    }
                }
            }
            proof {
                done = done + 1;
            }
            count = self.sessions_by_client_id.len();
        }
        remove_subscriptions_of(&mut self.subscriptions, &gone);
        proof {
            let expected = without_expired(start, now_ms);
            assert forall|id: Seq<char>| gone.deep_view().dom().contains(id) == session_expired(
                start,
                id,
                now_ms,
            ) by {
                if session_expired(start, id, now_ms) {
                    key_has_entry(list, id);
                    assert(list[key_index(list, id)].0 == id);
                    assert(listed_before(list, id, done));
                }
            }
            let by_set = |entry: EntryView| !gone.deep_view().dom().contains(entry.client_id);
            let by_expiry = |entry: EntryView| !session_expired(start, entry.client_id, now_ms);
            same_filter(start.subscriptions, by_set, by_expiry);
            assert(self.deep_view().sessions =~= expected.sessions);
            assert(self.deep_view().client_changes =~= expected.client_changes);
        }
    }

    /// Forgets a connection and returns its client.
    pub fn remove_connection_state(
        &mut self,
        connection_id: u64,
        preserve_session: bool,
        now_ms: u64,
    ) -> (result: Option<ClientEntry>)
        requires
            old(self).wf(),
        ensures
            final(self).wf(),
            result.deep_view() == lookup(old(self).deep_view().clients, connection_id),
            final(self).deep_view() == without_client_connection(
                old(self).deep_view(),
                connection_id,
                preserve_session,
                now_ms,
            ),
    {
        let ghost start = self.deep_view();
        let client: ClientEntry = match self.clients_by_connection.remove(&connection_id) {
            Some(client) => client,
            None => {
                assert(start.clients.remove(connection_id) =~= start.clients);
                return None;
            },
        };
        self.drop_inbound(connection_id);
        if !preserve_session {
            if client.session_expiry_interval == 0 {
                self.sessions_by_client_id.remove(&client.client_id);
                remove_client_subscriptions(&mut self.subscriptions, client.client_id.as_str());
                if client.persistent_session {
                    self.mark_client_reset(client.client_id.dup());
                }
            } else {
                let expires_at_ms: Option<u64> = session_expires_at_ms(
                    client.session_expiry_interval,
                    now_ms,
                );
                let ghost sessions = self.deep_view().sessions;
                let session: SessionEntry = match self.sessions_by_client_id.remove(
                    &client.client_id,
                ) {
                    Some(mut session) => {
                        session.expires_at_ms = expires_at_ms;
                        session.session_expiry_interval = client.session_expiry_interval;
                        session
                    },
                    None => SessionEntry::disconnected(
                        client.session_expiry_interval,
                        expires_at_ms,
                    ),
                };
                let ghost view = session.deep_view();
                self.sessions_by_client_id.insert(client.client_id.dup(), session);
                assert(sessions.remove(client.client_id@).insert(client.client_id@, view)
                    =~= sessions.insert(client.client_id@, view));
                self.mark_client_changed_if_durable(client.client_id.dup());
            }
        }
        Some(client)
    }

    /// Drops the inbound publications of a connection.
    fn drop_inbound(&mut self, connection_id: u64)
        requires
            old(self).wf(),
        ensures
            final(self).wf(),
            final(self).deep_view() == (StateView {
                qos2_inflight: without_connection(
                    old(self).deep_view().qos2_inflight,
                    connection_id,
                ),
                ..old(self).deep_view()
            }),
    {
        let ghost start = self.deep_view().qos2_inflight;
        let mut count: usize = self.qos2_inflight.len();
        let mut index: usize = 0;
        while index < count
            invariant
                index <= count == self.qos2_inflight.entries().len(),
                self.wf(),
                self.deep_view() == (StateView {
                    qos2_inflight: self.deep_view().qos2_inflight,
                    ..old(self).deep_view()
                }),
                start == old(self).deep_view().qos2_inflight,
                ascending::<(u64, u16), PendingView>(self.qos2_inflight.entries()),
                forall|i: int|
                    0 <= i < index ==> (#[trigger] self.qos2_inflight.entries()[i]).0.0
                        != connection_id,
                forall|key: (u64, u16)| #[trigger]
                    self.deep_view().qos2_inflight.dom().contains(key) ==> start.dom().contains(key)
                        && self.deep_view().qos2_inflight[key] == start[key],
                forall|key: (u64, u16)| #[trigger]
                    start.dom().contains(key) && key.0 != connection_id
                        ==> self.deep_view().qos2_inflight.dom().contains(key),
            decreases count - index,
        {
            let ghost entries = self.qos2_inflight.entries();
            if self.qos2_inflight.key_at(index).0 == connection_id {
                self.qos2_inflight.remove_at(index);
                proof {
                    let after = self.qos2_inflight.entries();
                    assert forall|i: int| 0 <= i < index implies (#[trigger] after[i]).0.0
                        != connection_id by {
                        assert(after[i] == entries[i]);
                    }
                }
            } else {
                index += 1;
            }
            count = self.qos2_inflight.len();
        }
        proof {
            let left = self.deep_view().qos2_inflight;
            let entries = self.qos2_inflight.entries();
            assert forall|key: (u64, u16)| #[trigger] left.dom().contains(key) implies key.0
                != connection_id by {
                key_has_entry(entries, key);
            }
            assert(left =~= without_connection(start, connection_id));
        }
    }
}

/// The identifier is among the first entries.
spec fn listed_before(list: Seq<(Seq<char>, SessionView)>, id: Seq<char>, count: int) -> bool {
    exists|i: int| 0 <= i < count && i < list.len() && (#[trigger] list[i]).0 == id
}

proof fn listed_step(list: Seq<(Seq<char>, SessionView)>, count: int)
    requires
        ascending::<String, SessionView>(list),
        0 <= count < list.len(),
    ensures
        forall|id: Seq<char>| #[trigger]
            listed_before(list, id, count + 1) <==> listed_before(list, id, count) || id
                == list[count].0,
        !listed_before(list, list[count].0, count),
{
    assert forall|id: Seq<char>| #[trigger]
        listed_before(list, id, count + 1) <==> listed_before(list, id, count) || id
            == list[count].0 by {
        if listed_before(list, id, count) {
            let i = choose|i: int|
                0 <= i < count && i < list.len() && (#[trigger] list[i]).0 == id;
            assert(list[i].0 == id);
        }
        if id == list[count].0 {
            assert(list[count].0 == id);
        }
    }
    if listed_before(list, list[count].0, count) {
        let i = choose|i: int|
            0 <= i < count && i < list.len() && (#[trigger] list[i]).0 == list[count].0;
        assert(String::before(list[i].0, list[count].0));
        String::before_irreflexive(list[count].0);
    }
}

/// Filters that agree on every element keep the same elements.
pub proof fn same_filter<A>(items: Seq<A>, f: spec_fn(A) -> bool, g: spec_fn(A) -> bool)
    requires
        forall|item: A| #[trigger] f(item) == g(item),
    ensures
        items.filter(f) == items.filter(g),
    decreases items.len(),
{
    reveal(Seq::filter);
    if items.len() > 0 {
        same_filter(items.drop_last(), f, g);
        assert(f(items.last()) == g(items.last()));
    }
}

} // verus!
