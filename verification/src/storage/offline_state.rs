//! The state of a broker that nobody is connected to.
use vstd::prelude::*;

use crate::ordered_map::OrderedMap;
use crate::ordered_map::ascending;
use crate::ordered_map::has_key;
use crate::ordered_map::key_has_entry;
use crate::ordered_map::key_index;
use crate::ordered_map::map_of;
use crate::ordered_map::map_of_entry;
use crate::retained_message::RetainedMessage;
use crate::retained_message::RetainedView;
use crate::session::SessionEntry;
use crate::session::SessionView;
use crate::storage::delta::PersistentProjection;
use crate::storage::delta::ProjectionView;
use crate::storage::projection::client_snapshot;
use crate::storage::snapshot::ClientSnapshot;
use crate::subscription::EntryView;
use crate::subscription::SubscriptionEntry;
use crate::value::Value;

verus! {

/// The state of a broker that nobody is connected to: sessions, subscriptions and retained
/// messages.
pub struct OfflineState {
    pub sessions: OrderedMap<String, SessionEntry>,
    pub subscriptions: Vec<SubscriptionEntry>,
    pub retained: OrderedMap<String, RetainedMessage>,
}

/// What an `OfflineState` stands for.
pub struct OfflineView {
    pub sessions: Map<Seq<char>, SessionView>,
    pub subscriptions: Seq<EntryView>,
    pub retained: Map<Seq<char>, RetainedView>,
}

impl DeepView for OfflineState {
    type V = OfflineView;

    open spec fn deep_view(&self) -> OfflineView {
        OfflineView {
            sessions: self.sessions.deep_view(),
            subscriptions: self.subscriptions.deep_view(),
            retained: self.retained.deep_view(),
        }
    }
}

/// No session is known.
pub open spec fn nobody_known() -> OfflineView {
    OfflineView { sessions: Map::empty(), subscriptions: Seq::empty(), retained: Map::empty() }
}

/// What is stored of the state: the sessions that last longer than a connection with their
/// subscriptions, and the retained messages.
pub open spec fn offline_projected(state: OfflineView) -> ProjectionView {
    ProjectionView {
        clients: Map::new(
            |client_id: Seq<char>|
                state.sessions.dom().contains(client_id)
                    && state.sessions[client_id].session_expiry_interval != 0,
            |client_id: Seq<char>|
                client_snapshot(state.subscriptions, client_id, state.sessions[client_id]),
        ),
        retained: state.retained,
    }
}

impl OfflineState {
    /// No session is known.
    pub fn new() -> (result: Self)
        ensures
            result.deep_view() == nobody_known(),
    {
        let result: OfflineState = OfflineState {
            sessions: OrderedMap::new(),
            subscriptions: Vec::new(),
            retained: OrderedMap::new(),
        };
        assert(result.deep_view().subscriptions =~= Seq::<EntryView>::empty());
        result
    }

    /// What is stored of the state.
    pub fn into_projection(&self) -> (result: PersistentProjection)
        ensures
            result.deep_view() == offline_projected(self.deep_view()),
    {
        let ghost view = self.deep_view();
        let ghost goal = offline_projected(view).clients;
        let count: usize = self.sessions.len();
        let ghost entries = self.sessions.entries();
        let mut clients: OrderedMap<String, ClientSnapshot> = OrderedMap::new();
        let mut index: usize = 0;
        while index < count
            invariant
                index <= count == entries.len(),
                entries == self.sessions.entries(),
                ascending::<String, SessionView>(entries),
                map_of(entries) == view.sessions,
                view == self.deep_view(),
                goal == offline_projected(view).clients,
                forall|client_id: Seq<char>| #[trigger]
                    clients.deep_view().dom().contains(client_id) <==> goal.dom().contains(
                        client_id,
                    ) && has_key(entries.take(index as int), client_id),
                forall|client_id: Seq<char>| #[trigger]
                    clients.deep_view().dom().contains(client_id) ==> clients.deep_view()[client_id]
                        == goal[client_id],
            decreases count - index,
        {
            let client_id: &String = self.sessions.key_at(index);
            let session: &SessionEntry = self.sessions.value_at(index);
            proof {
                map_of_entry::<String, SessionView>(entries, index as int);
                let front = entries.take(index as int);
                let more = entries.take(index + 1);
                assert(more[index as int].0 == client_id@);
                assert forall|id: Seq<char>| #[trigger] has_key(more, id) <==> has_key(front, id)
                    || id == client_id@ by {
                    if has_key(front, id) {
                        let i = key_index(front, id);
                        assert(more[i].0 == id);
                    }
                    if has_key(more, id) && id != client_id@ {
                        let i = key_index(more, id);
                        assert(front[i].0 == id);
                    }
                }
            }
            if session.session_expiry_interval != 0 {
                clients.insert(
                    client_id.dup(),
                    ClientSnapshot::from_state(&self.subscriptions, client_id, session),
                );
            }
            index += 1;
        }
        proof {
            assert(entries.take(index as int) =~= entries);
            assert forall|client_id: Seq<char>| #[trigger]
                clients.deep_view().dom().contains(client_id) <==> goal.dom().contains(
                    client_id,
                ) by {
                if goal.dom().contains(client_id) {
                    key_has_entry(entries, client_id);
                }
            }
            assert(clients.deep_view() =~= goal);
        }
        PersistentProjection { clients, retained: self.retained.dup() }
    }
}

} // verus!
