//! What is stored keeps up with the broker: whatever operations it goes through, a commit stores
//! its state, and what is stored can come back.
use vstd::prelude::*;

use crate::message::PendingView;
use crate::message::expired;
use crate::ordered_map::OrderedKey;
use crate::ordered_map::ascending;
use crate::ordered_map::entries_of;
use crate::ordered_map::has_key;
use crate::ordered_map::key_has_entry;
use crate::ordered_map::key_index;
use crate::ordered_map::listed;
use crate::ordered_map::listed_empty;
use crate::ordered_map::listed_insert;
use crate::ordered_map::listed_part;
use crate::ordered_map::map_of;
use crate::ordered_map::map_of_entry;
use crate::protocol::valid_topic_name;
use crate::retained_message::RetainedView;
use crate::session::ClientPersistenceChange;
use crate::session::SessionView;
use crate::session::StateView;
use crate::session::changes_of;
use crate::session::connected_client;
use crate::session::text_unit_map;
use crate::session_laws::session_sound;
use crate::state_laws::client_followed;
use crate::state_laws::entry_sound;
use crate::state_laws::follows;
use crate::state_laws::one_each;
use crate::state_laws::state_sound;
use crate::state_laws::topic_followed;
use crate::storage::delta::ProjectionView;
use crate::storage::delta::lookup;
use crate::storage::delta::patched_all;
use crate::storage::laws::evolves;
use crate::storage::laws::storable;
use crate::storage::log::changes_forgotten;
use crate::storage::projection::all_restored_subscriptions;
use crate::storage::projection::comes_back;
use crate::storage::projection::prepared;
use crate::storage::projection::projected;
use crate::storage::projection::queue_by_sequence;
use crate::storage::projection::restored;
use crate::storage::projection::restored_session;
use crate::storage::projection::restored_sessions;
use crate::storage::projection::restored_subscriptions;
use crate::storage::projection::stored_client;
use crate::storage::projection::subscriptions_by_filter;
use crate::storage::projection_laws::client_committable;
use crate::storage::projection_laws::commit_stores_marked;
use crate::storage::projection_laws::committed;
use crate::storage::projection_laws::marks_listed;
use crate::storage::projection_laws::same_lookups;
use crate::storage::projection_laws::subscription_entries_agree;
use crate::storage::replay_laws::storable_projection;
use crate::storage::snapshot::ClientView;
use crate::storage::snapshot::QueuedSnapshotView;
use crate::storage::snapshot::SubscriptionSnapshotView;
use crate::storage::snapshot::client_defect;
use crate::storage::snapshot::subscription_defect;
use crate::storage::snapshot::subscription_snapshot;
use crate::storage::snapshot::valid_offline;
use crate::subscription::EntryView;
use crate::subscription::is_held;

verus! {

/// What is stored of a client's subscriptions is well named and without defect.
proof fn stored_subscriptions_sound(subscriptions: Seq<EntryView>, client_id: Seq<char>)
    requires
        forall|i: int|
            0 <= i < subscriptions.len() ==> entry_sound(#[trigger] subscriptions[i]),
    ensures
        ({
            let map = subscriptions_by_filter(subscriptions, client_id);
            &&& listed::<String, SubscriptionSnapshotView>(map)
            &&& forall|filter: Seq<char>| #[trigger]
                map.dom().contains(filter) ==> map[filter].filter == filter
                    && subscription_defect(map[filter], client_id) is None
        }),
    decreases subscriptions.len(),
{
    if subscriptions.len() == 0 {
        listed_empty::<String, SubscriptionSnapshotView>();
    } else {
        let front = subscriptions.drop_last();
        let last = subscriptions.last();
        assert(subscriptions[subscriptions.len() - 1] == last);
        assert forall|i: int| 0 <= i < front.len() implies entry_sound(#[trigger] front[i]) by {
            assert(front[i] == subscriptions[i]);
        }
        stored_subscriptions_sound(front, client_id);
        if last.client_id == client_id {
            listed_insert::<String, SubscriptionSnapshotView>(
                subscriptions_by_filter(front, client_id),
                last.filter,
                subscription_snapshot(last),
            );
        }
    }
}

/// What is stored of a queue are its publications under their numbers.
proof fn stored_queue_sound(queue: Seq<QueuedSnapshotView>)
    ensures
        listed::<u64, PendingView>(queue_by_sequence(queue)),
        forall|sequence: u64| #[trigger]
            queue_by_sequence(queue).dom().contains(sequence) ==> exists|i: int|
                0 <= i < queue.len() && (#[trigger] queue[i]).sequence == sequence
                    && queue[i].pending == queue_by_sequence(queue)[sequence],
    decreases queue.len(),
{
    if queue.len() == 0 {
        listed_empty::<u64, PendingView>();
    } else {
        let front = queue.drop_last();
        let last = queue.last();
        stored_queue_sound(front);
        let before = queue_by_sequence(front);
        listed_insert::<u64, PendingView>(before, last.sequence, last.pending);
        assert forall|sequence: u64| #[trigger]
            queue_by_sequence(queue).dom().contains(sequence) implies exists|i: int|
            0 <= i < queue.len() && (#[trigger] queue[i]).sequence == sequence && queue[i].pending
                == queue_by_sequence(queue)[sequence] by {
            if sequence == last.sequence {
                assert(queue[queue.len() - 1].sequence == sequence);
            } else {
                assert(before.dom().contains(sequence));
                let i = choose|i: int|
                    0 <= i < front.len() && (#[trigger] front[i]).sequence == sequence
                        && front[i].pending == before[sequence];
                assert(queue[i] == front[i]);
            }
        }
    }
}

/// What is stored of a client of a state in order can be stored.
pub proof fn sound_client_is_storable(state: StateView, client_id: Seq<char>)
    requires
        state_sound(state),
    ensures
        stored_client(state, client_id) matches Some(client) ==> storable(client, client_id),
{
    if let Some(client) = stored_client(state, client_id) {
        let session = state.sessions[client_id];
        assert(session_sound(session));
        stored_subscriptions_sound(state.subscriptions, client_id);
        stored_queue_sound(session.offline_queue);
        assert forall|sequence: u64| #[trigger]
            client.offline.dom().contains(sequence) implies sequence
            < client.session.next_offline_sequence && valid_offline(client.offline[sequence]) by {
            let queue = session.offline_queue;
            let i = choose|i: int|
                0 <= i < queue.len() && (#[trigger] queue[i]).sequence == sequence
                    && queue[i].pending == client.offline[sequence];
            assert(valid_offline(queue[i].pending));
        }
        assert(client_defect(client, client_id) is None);
    }
}

/// What is stored follows a state: it agrees with it but for what is marked, and but for retained
/// messages that have expired.
pub open spec fn stored_follows(projection: ProjectionView, state: StateView, now_ms: u64) -> bool {
    &&& forall|client_id: Seq<char>| #[trigger]
        stored_client_follows(projection, state, client_id)
    &&& forall|topic: Seq<char>| #[trigger]
        stored_topic_follows(projection, state, topic, now_ms)
}

/// What is stored of a client follows a state.
pub open spec fn stored_client_follows(
    projection: ProjectionView,
    state: StateView,
    client_id: Seq<char>,
) -> bool {
    match lookup(state.client_changes, client_id) {
        None => lookup(projection.clients, client_id) == stored_client(state, client_id),
        Some(ClientPersistenceChange::Changed) => lookup(
            projection.clients,
            client_id,
        ) matches Some(old_client) ==> (stored_client(state, client_id) matches Some(new_client)
            && evolves(old_client, new_client)),
        Some(ClientPersistenceChange::Reset) => true,
    }
}

/// What is stored under a topic follows a state.
pub open spec fn stored_topic_follows(
    projection: ProjectionView,
    state: StateView,
    topic: Seq<char>,
    now_ms: u64,
) -> bool {
    !state.retained_changes.contains(topic) ==> lookup(projection.retained, topic) == lookup(
        state.retained,
        topic,
    ) || (!state.retained.dom().contains(topic) && expired(
        projection.retained[topic].expires_at_ms,
        now_ms,
    ))
}

/// What is stored goes on following a state through every operation that marks its changes.
pub proof fn stored_follows_operations(
    projection: ProjectionView,
    before: StateView,
    after: StateView,
    earlier_ms: u64,
    now_ms: u64,
)
    requires
        stored_follows(projection, before, earlier_ms),
        follows(before, after, now_ms),
        earlier_ms <= now_ms,
    ensures
        stored_follows(projection, after, now_ms),
{
    assert forall|client_id: Seq<char>| #[trigger]
        stored_client_follows(projection, after, client_id) by {
        assert(stored_client_follows(projection, before, client_id));
        assert(client_followed(before, after, client_id));
        if lookup(after.client_changes, client_id) == Some(ClientPersistenceChange::Changed) {
            if let Some(oldest) = lookup(projection.clients, client_id) {
                let middle = stored_client(before, client_id)->0;
                let newest = stored_client(after, client_id)->0;
                assert(lookup(before.client_changes, client_id) is None ==> middle == oldest);
                assert forall|sequence: u64| #[trigger]
                    newest.offline.dom().contains(sequence) && !oldest.offline.dom().contains(
                        sequence,
                    ) implies sequence >= oldest.session.next_offline_sequence by {
                    if middle.offline.dom().contains(sequence) {
                    }
                }
            }
        }
    }
    assert forall|topic: Seq<char>| #[trigger]
        stored_topic_follows(projection, after, topic, now_ms) by {
        assert(stored_topic_follows(projection, before, topic, earlier_ms));
        assert(topic_followed(before, after, topic, now_ms));
    }
}

/// A commit of a state in order can be made: its patches apply, and then what is stored of clients
/// is just what the state has, everything that is stored is without defect, and it follows the
/// state with no mark left.
pub proof fn commit_catches_up(projection: ProjectionView, state: StateView, now_ms: u64)
    requires
        state_sound(state),
        marks_listed(state),
        storable_projection(projection),
        stored_follows(projection, state, now_ms),
    ensures
        patched_all(projection, prepared(projection, state, changes_of(state))) == Ok::<
            ProjectionView,
            Seq<char>,
        >(committed(projection, state)),
        committed(projection, state).clients == projected(state).clients,
        storable_projection(committed(projection, state)),
        stored_follows(committed(projection, state), changes_forgotten(state), now_ms),
{
    assert forall|client_id: Seq<char>| #[trigger]
        state.client_changes.dom().contains(client_id) implies client_committable(
        projection,
        state,
        client_id,
        state.client_changes[client_id] == ClientPersistenceChange::Reset,
    ) by {
        assert(stored_client_follows(projection, state, client_id));
        sound_client_is_storable(state, client_id);
        if projection.clients.dom().contains(client_id) {
            assert(storable(projection.clients[client_id], client_id));
        }
    }
    commit_stores_marked(projection, state);
    let after = committed(projection, state);
    let goal = projected(state);
    assert forall|client_id: Seq<char>| #[trigger] lookup(after.clients, client_id) == lookup(
        goal.clients,
        client_id,
    ) by {
        assert(stored_client_follows(projection, state, client_id));
    }
    same_lookups(after.clients, goal.clients);
    let quiet = changes_forgotten(state);
    assert forall|client_id: Seq<char>| #[trigger]
        stored_client_follows(after, quiet, client_id) by {
        assert(connected_client(quiet, client_id) == connected_client(state, client_id));
        assert(stored_client(quiet, client_id) == stored_client(state, client_id));
        assert(lookup(after.clients, client_id) == lookup(goal.clients, client_id));
    }
    assert forall|topic: Seq<char>| #[trigger]
        stored_topic_follows(after, quiet, topic, now_ms) by {
        assert(stored_topic_follows(projection, state, topic, now_ms));
    }
    committed_is_listed(projection, state);
    assert forall|client_id: Seq<char>| #[trigger]
        after.clients.dom().contains(client_id) implies storable(
        after.clients[client_id],
        client_id,
    ) by {
        sound_client_is_storable(state, client_id);
        assert(lookup(after.clients, client_id) == lookup(goal.clients, client_id));
    }
    assert forall|topic: Seq<char>| #[trigger] after.retained.dom().contains(topic) implies
        valid_topic_name(topic) && after.retained[topic].topic_name == topic by {
        if state.retained_changes.contains(topic) {
            assert(state.retained.dom().contains(topic));
        } else {
            assert(projection.retained.dom().contains(topic));
        }
    }
}

/// What is stored after a commit is finite.
proof fn committed_is_listed(projection: ProjectionView, state: StateView)
    requires
        marks_listed(state),
        listed::<String, ClientView>(projection.clients),
        listed::<String, RetainedView>(projection.retained),
    ensures
        listed::<String, ClientView>(committed(projection, state).clients),
        listed::<String, RetainedView>(committed(projection, state).retained),
{
    let after = committed(projection, state);
    let marks = entries_of::<String, ClientPersistenceChange>(state.client_changes);
    let topics = entries_of::<String, ()>(text_unit_map(state.retained_changes));
    spread_is_listed(projection.clients, marks, after.clients);
    spread_is_listed(projection.retained, topics, after.retained);
}

/// A map whose keys are those of a finite map or of some entries is finite.
proof fn spread_is_listed<A, B>(
    map: Map<Seq<char>, A>,
    entries: Seq<(Seq<char>, B)>,
    after: Map<Seq<char>, A>,
)
    requires
        listed::<String, A>(map),
        ascending::<String, B>(entries),
        forall|key: Seq<char>| #[trigger]
            after.dom().contains(key) ==> map.dom().contains(key) || map_of(
                entries,
            ).dom().contains(key),
    ensures
        listed::<String, A>(after),
    decreases entries.len(),
{
    if entries.len() == 0 {
        listed_part::<String, A>(map, after);
    } else {
        let last = entries.len() - 1;
        let front = entries.drop_last();
        let key = entries[last].0;
        assert forall|i: int, j: int|
            #![trigger front[i], front[j]]
            0 <= i < j < front.len() implies String::before(front[i].0, front[j].0) by {
            assert(front[i] == entries[i] && front[j] == entries[j]);
        }
        let less = after.remove(key);
        assert forall|other: Seq<char>| #[trigger] less.dom().contains(other) implies
            map.dom().contains(other) || map_of(front).dom().contains(other) by {
            if !map.dom().contains(other) {
                key_has_entry(entries, other);
                let i = key_index(entries, other);
                assert(front[i].0 == other);
            }
        }
        spread_is_listed(map, front, less);
        if after.dom().contains(key) {
            listed_insert::<String, A>(less, key, after[key]);
            assert(less.insert(key, after[key]) =~= after);
        } else {
            assert(less =~= after);
        }
    }
}

/// A restored state is in order.
pub proof fn restored_state_is_sound(projection: ProjectionView, now_ms: u64)
    requires
        storable_projection(projection),
    ensures
        state_sound(restored(projection, now_ms)),
        marks_listed(restored(projection, now_ms)),
{
    let state = restored(projection, now_ms);
    let clients = entries_of::<String, ClientView>(projection.clients);
    assert forall|i: int| 0 <= i < clients.len() implies storable(
        (#[trigger] clients[i]).1,
        clients[i].0,
    ) by {
        map_of_entry::<String, ClientView>(clients, i);
        assert(projection.clients.dom().contains(clients[i].0));
    }
    restored_parts_are_sound(clients, now_ms);
    restored_once_each(clients);
    listed_empty::<String, ClientPersistenceChange>();
    listed_empty::<String, ()>();
    assert(text_unit_map(state.retained_changes) =~= Map::<Seq<char>, ()>::empty());
}

/// Each client comes back with each of its subscriptions once.
proof fn restored_once_each(clients: Seq<(Seq<char>, ClientView)>)
    requires
        ascending::<String, ClientView>(clients),
        forall|i: int|
            0 <= i < clients.len() ==> storable((#[trigger] clients[i]).1, clients[i].0),
    ensures
        one_each(all_restored_subscriptions(clients)),
        forall|i: int|
            0 <= i < all_restored_subscriptions(clients).len() ==> has_key(
                clients,
                (#[trigger] all_restored_subscriptions(clients)[i]).client_id,
            ),
    decreases clients.len(),
{
    if clients.len() > 0 {
        let front = clients.drop_last();
        let last = clients.len() - 1;
        let (client_id, client) = clients.last();
        assert(clients[last] == (client_id, client));
        assert forall|i: int| 0 <= i < front.len() implies storable(
            (#[trigger] front[i]).1,
            front[i].0,
        ) by {
            assert(front[i] == clients[i]);
        }
        assert forall|i: int, j: int|
            #![trigger front[i], front[j]]
            0 <= i < j < front.len() implies String::before(front[i].0, front[j].0) by {
            assert(String::before(clients[i].0, clients[j].0));
        }
        restored_once_each(front);
        let before = all_restored_subscriptions(front);
        let after = all_restored_subscriptions(clients);
        assert forall|i: int| 0 <= i < before.len() implies has_key(
            clients,
            (#[trigger] before[i]).client_id,
        ) && before[i].client_id != client_id by {
            assert(has_key(front, before[i].client_id));
            let k = key_index(front, before[i].client_id);
            assert(front[k] == clients[k]);
            assert(String::before(clients[k].0, clients[last].0));
            String::before_irreflexive(client_id);
        }
        if comes_back(client) {
            let more = restored_subscriptions(client);
            let entries = entries_of::<String, SubscriptionSnapshotView>(client.subscriptions);
            subscription_entries_agree(client, client_id);
            assert(after == before + more);
            assert forall|i: int| 0 <= i < after.len() implies has_key(
                clients,
                (#[trigger] after[i]).client_id,
            ) by {
                if i < before.len() {
                    assert(after[i] == before[i]);
                } else {
                    assert(after[i] == more[i - before.len()]);
                    assert(clients[last].0 == client_id);
                }
            }
            assert forall|i: int, j: int|
                #![trigger after[i], after[j]]
                0 <= i < j < after.len() implies !is_held(
                after[j],
                after[i].client_id,
                after[i].filter,
            ) by {
                if j < before.len() {
                    assert(after[i] == before[i] && after[j] == before[j]);
                } else if i < before.len() {
                    assert(after[i] == before[i] && after[j] == more[j - before.len()]);
                } else {
                    let a = i - before.len();
                    let b = j - before.len();
                    assert(after[i] == more[a] && after[j] == more[b]);
                    assert(entries[a].1.filter == entries[a].0);
                    assert(entries[b].1.filter == entries[b].0);
                    assert(String::before(entries[a].0, entries[b].0));
                    String::before_irreflexive(entries[a].0);
                }
            }
        } else {
            assert(after == before);
        }
    }
}

proof fn restored_parts_are_sound(clients: Seq<(Seq<char>, ClientView)>, now_ms: u64)
    requires
        forall|i: int|
            0 <= i < clients.len() ==> storable((#[trigger] clients[i]).1, clients[i].0),
    ensures
        forall|client_id: Seq<char>| #[trigger]
            restored_sessions(clients, now_ms).dom().contains(client_id) ==> client_id.len() > 0
                && session_sound(restored_sessions(clients, now_ms)[client_id]),
        forall|i: int|
            0 <= i < all_restored_subscriptions(clients).len() ==> entry_sound(
                #[trigger] all_restored_subscriptions(clients)[i],
            ),
    decreases clients.len(),
{
    if clients.len() > 0 {
        let front = clients.drop_last();
        let (client_id, client) = clients.last();
        assert(clients[clients.len() - 1] == (client_id, client));
        assert forall|i: int| 0 <= i < front.len() implies storable(
            (#[trigger] front[i]).1,
            front[i].0,
        ) by {
            assert(front[i] == clients[i]);
        }
        restored_parts_are_sound(front, now_ms);
        if comes_back(client) {
            restored_session_is_sound(client, client_id, now_ms);
            assert forall|id: Seq<char>| #[trigger]
                restored_sessions(clients, now_ms).dom().contains(id) implies id.len() > 0
                && session_sound(restored_sessions(clients, now_ms)[id]) by {
                if id != client_id {
                    assert(restored_sessions(front, now_ms).dom().contains(id));
                }
            }
            let before = all_restored_subscriptions(front);
            let more = restored_subscriptions(client);
            let after = all_restored_subscriptions(clients);
            assert forall|i: int| 0 <= i < after.len() implies entry_sound(
                #[trigger] after[i],
            ) by {
                if i < before.len() {
                    assert(after[i] == before[i]);
                } else {
                    let entries = entries_of::<String, SubscriptionSnapshotView>(
                        client.subscriptions,
                    );
                    let k = i - before.len();
                    map_of_entry::<String, SubscriptionSnapshotView>(entries, k);
                    assert(client.subscriptions.dom().contains(entries[k].0));
                    assert(after[i] == more[k]);
                    assert(subscription_snapshot(more[k]) == entries[k].1);
                }
            }
        } else {
            assert(restored_sessions(clients, now_ms) == restored_sessions(front, now_ms));
        }
    } else {
        assert(restored_sessions(clients, now_ms) == Map::<Seq<char>, SessionView>::empty());
    }
}

proof fn restored_session_is_sound(client: ClientView, client_id: Seq<char>, now_ms: u64)
    requires
        storable(client, client_id),
    ensures
        session_sound(restored_session(client, now_ms)),
{
    let session = restored_session(client, now_ms);
    let entries = entries_of::<u64, PendingView>(client.offline);
    let queue = session.offline_queue;
    assert forall|i: int| 0 <= i < queue.len() implies valid_offline(
        (#[trigger] queue[i]).pending,
    ) && queue[i].sequence < session.next_offline_sequence by {
        map_of_entry::<u64, PendingView>(entries, i);
        assert(client.offline.dom().contains(entries[i].0));
    }
    assert forall|i: int, j: int|
        #![trigger queue[i], queue[j]]
        0 <= i < j < queue.len() implies queue[i].sequence < queue[j].sequence by {
        assert(u64::before(entries[i].0, entries[j].0));
    }
}

} // verus!
