//! What every operation of the broker keeps: the state stays in order, and every change that has to
//! be stored is marked.
use vstd::prelude::*;

use crate::broker::held_count;
use crate::delivery::with_session;
use crate::message::expired;
use crate::ordered_map::listed;
use crate::protocol::valid_topic_name;
use crate::retained_message::RetainedView;
use crate::session::ClientPersistenceChange;
use crate::session::SessionView;
use crate::session::StateView;
use crate::session::connected_client;
use crate::session::is_durable;
use crate::session::marked_if_durable;
use crate::session::session_expired;
use crate::session::without_expired;
use crate::session_laws::goes_on;
use crate::session_laws::session_sound;
use crate::storage::delta::lookup;
use crate::storage::laws::evolves;
use crate::storage::patch_decode::has_sequence;
use crate::storage::projection::client_snapshot;
use crate::storage::projection::queue_by_sequence;
use crate::storage::projection::stored_client;
use crate::storage::projection::subscriptions_by_filter;
use crate::storage::snapshot::QueuedSnapshotView;
use crate::storage::snapshot::subscription_defect;
use crate::storage::snapshot::subscription_snapshot;
use crate::subscription::EntryView;
use crate::subscription::is_held;

verus! {

/// Clients and connections belong together: each connected client is found under its connection and
/// by its name, and has a session that lasts as long as it asked for, and does not expire
/// meanwhile.
pub open spec fn linked(state: StateView) -> bool {
    &&& forall|connection_id: u64| #[trigger]
        state.clients.dom().contains(connection_id) ==> {
            let client = state.clients[connection_id];
            &&& lookup(state.connections, client.client_id) == Some(connection_id)
            &&& client.persistent_session == (client.session_expiry_interval != 0)
            &&& state.sessions.dom().contains(client.client_id)
            &&& state.sessions[client.client_id].session_expiry_interval
                == client.session_expiry_interval
            &&& state.sessions[client.client_id].expires_at_ms is None
        }
    &&& forall|client_id: Seq<char>| #[trigger]
        state.connections.dom().contains(client_id) ==> state.clients.dom().contains(
            state.connections[client_id],
        ) && state.clients[state.connections[client_id]].client_id == client_id
}

/// A subscription is one that may be stored.
pub open spec fn entry_sound(entry: EntryView) -> bool {
    subscription_defect(subscription_snapshot(entry), entry.client_id) is None
}

/// A state is in order, but for how many subscriptions clients are said to hold.
pub open spec fn state_basics(state: StateView) -> bool {
    &&& linked(state)
    &&& forall|client_id: Seq<char>| #[trigger]
        state.sessions.dom().contains(client_id) ==> client_id.len() > 0 && session_sound(
            state.sessions[client_id],
        )
    &&& forall|i: int|
        0 <= i < state.subscriptions.len() ==> entry_sound(#[trigger] state.subscriptions[i])
    &&& forall|topic: Seq<char>| #[trigger]
        state.retained.dom().contains(topic) ==> valid_topic_name(topic)
            && state.retained[topic].topic_name == topic
    &&& listed::<String, RetainedView>(state.retained)
    &&& forall|key: (u64, u16)| #[trigger]
        state.qos2_inflight.dom().contains(key) ==> valid_topic_name(
            state.qos2_inflight[key].packet.topic_name,
        )
    &&& marks_sound(state)
}

/// No client holds two subscriptions under one filter.
pub open spec fn one_each(subscriptions: Seq<EntryView>) -> bool {
    forall|i: int, j: int|
        #![trigger subscriptions[i], subscriptions[j]]
        0 <= i < j < subscriptions.len() ==> !is_held(
            subscriptions[j],
            subscriptions[i].client_id,
            subscriptions[i].filter,
        )
}

/// Each connected client is said to hold as many subscriptions as it holds, and none of them twice.
pub open spec fn counts_agree(state: StateView) -> bool {
    &&& one_each(state.subscriptions)
    &&& forall|connection_id: u64| #[trigger]
        state.clients.dom().contains(connection_id)
            ==> state.clients[connection_id].subscription_count as nat == held_count(
            state.subscriptions,
            state.clients[connection_id].client_id,
        )
}

/// A state is in order.
pub open spec fn state_sound(state: StateView) -> bool {
    state_basics(state) && counts_agree(state)
}

/// What is marked has a name that can be stored.
pub open spec fn marks_sound(state: StateView) -> bool {
    &&& forall|client_id: Seq<char>| #[trigger]
        state.client_changes.dom().contains(client_id) ==> client_id.len() > 0
    &&& forall|topic: Seq<char>| #[trigger]
        state.retained_changes.contains(topic) ==> valid_topic_name(topic)
}

/// What is stored of a client is as before unless it is marked; one that is marked as changed, and
/// not to be stored anew, is still stored, and its queue only grew at the end.
pub open spec fn client_followed(
    before: StateView,
    after: StateView,
    client_id: Seq<char>,
) -> bool {
    match lookup(after.client_changes, client_id) {
        None => !before.client_changes.dom().contains(client_id) && stored_client(
            after,
            client_id,
        ) == stored_client(before, client_id),
        Some(ClientPersistenceChange::Changed) => {
            &&& lookup(before.client_changes, client_id) != Some(ClientPersistenceChange::Reset)
            &&& stored_client(before, client_id) matches Some(old_client) ==> (stored_client(
                after,
                client_id,
            ) matches Some(new_client) && evolves(old_client, new_client))
        },
        Some(ClientPersistenceChange::Reset) => true,
    }
}

/// What is stored under a topic is as before unless it is marked, or has expired and is dropped.
pub open spec fn topic_followed(
    before: StateView,
    after: StateView,
    topic: Seq<char>,
    now_ms: u64,
) -> bool {
    !after.retained_changes.contains(topic) ==> {
        &&& !before.retained_changes.contains(topic)
        &&& lookup(after.retained, topic) == lookup(before.retained, topic) || (
        !after.retained.dom().contains(topic) && expired(
            before.retained[topic].expires_at_ms,
            now_ms,
        ))
    }
}

/// Every change from one state to another is marked.
pub open spec fn follows(before: StateView, after: StateView, now_ms: u64) -> bool {
    &&& forall|client_id: Seq<char>| #[trigger] client_followed(before, after, client_id)
    &&& forall|topic: Seq<char>| #[trigger] topic_followed(before, after, topic, now_ms)
}

/// An operation keeps the state in order, but for counts, and marks every change.
pub open spec fn basics_kept(before: StateView, after: StateView, now_ms: u64) -> bool {
    state_basics(after) && follows(before, after, now_ms)
}

/// An operation keeps the state in order and marks every change.
pub open spec fn kept(before: StateView, after: StateView, now_ms: u64) -> bool {
    state_sound(after) && follows(before, after, now_ms)
}

/// Following twice is following.
pub proof fn follows_twice(
    first: StateView,
    second: StateView,
    third: StateView,
    earlier_ms: u64,
    now_ms: u64,
)
    requires
        follows(first, second, earlier_ms),
        follows(second, third, now_ms),
        earlier_ms <= now_ms,
    ensures
        follows(first, third, now_ms),
{
    assert forall|client_id: Seq<char>| #[trigger] client_followed(first, third, client_id) by {
        assert(client_followed(first, second, client_id));
        assert(client_followed(second, third, client_id));
        if lookup(third.client_changes, client_id) == Some(ClientPersistenceChange::Changed) {
            if let Some(oldest) = stored_client(first, client_id) {
                let middle = stored_client(second, client_id)->0;
                let newest = stored_client(third, client_id)->0;
                assert(lookup(second.client_changes, client_id) is None ==> middle == oldest);
                assert forall|sequence: u64| #[trigger]
                    newest.offline.dom().contains(sequence) && !oldest.offline.dom().contains(
                        sequence,
                    ) implies sequence >= oldest.session.next_offline_sequence by {
                    if middle.offline.dom().contains(sequence) {
                    }
                }
            }
        }
    }
    assert forall|topic: Seq<char>| #[trigger] topic_followed(first, third, topic, now_ms) by {
        assert(topic_followed(first, second, topic, earlier_ms));
        assert(topic_followed(second, third, topic, now_ms));
    }
}

/// A state follows itself.
pub proof fn follows_itself(state: StateView, now_ms: u64)
    ensures
        follows(state, state, now_ms),
{
    assert forall|client_id: Seq<char>| #[trigger] client_followed(state, state, client_id) by {}
    assert forall|topic: Seq<char>| #[trigger] topic_followed(state, state, topic, now_ms) by {}
}

/// The numbers in a queue are those that it is stored under.
pub proof fn queue_numbers(queue: Seq<QueuedSnapshotView>, sequence: u64)
    ensures
        queue_by_sequence(queue).dom().contains(sequence) <==> has_sequence(queue, sequence),
    decreases queue.len(),
{
    if queue.len() > 0 {
        let front = queue.drop_last();
        queue_numbers(front, sequence);
        if has_sequence(front, sequence) {
            let i = choose|i: int| 0 <= i < front.len() && (#[trigger] front[i]).sequence
                == sequence;
            assert(queue[i].sequence == sequence);
        }
        if has_sequence(queue, sequence) {
            let i = choose|i: int| 0 <= i < queue.len() && (#[trigger] queue[i]).sequence
                == sequence;
            if i < front.len() {
                assert(front[i].sequence == sequence);
            }
        }
        assert(queue[queue.len() - 1].sequence == queue.last().sequence);
    }
}

/// What is stored of a session that goes on evolves.
pub proof fn going_on_evolves(
    before: SessionView,
    after: SessionView,
    old_subscriptions: Seq<EntryView>,
    new_subscriptions: Seq<EntryView>,
    client_id: Seq<char>,
)
    requires
        before.next_offline_sequence <= after.next_offline_sequence,
        forall|sequence: u64| #[trigger]
            has_sequence(after.offline_queue, sequence) && !has_sequence(
                before.offline_queue,
                sequence,
            ) ==> sequence >= before.next_offline_sequence,
    ensures
        evolves(
            client_snapshot(old_subscriptions, client_id, before),
            client_snapshot(new_subscriptions, client_id, after),
        ),
{
    let old_client = client_snapshot(old_subscriptions, client_id, before);
    let new_client = client_snapshot(new_subscriptions, client_id, after);
    assert forall|sequence: u64| #[trigger]
        new_client.offline.dom().contains(sequence) && !old_client.offline.dom().contains(
            sequence,
        ) implies sequence >= old_client.session.next_offline_sequence by {
        queue_numbers(before.offline_queue, sequence);
        queue_numbers(after.offline_queue, sequence);
    }
}

/// A client to whom nothing happens is followed.
pub proof fn bystander_followed(before: StateView, after: StateView, client_id: Seq<char>)
    requires
        lookup(after.client_changes, client_id) == lookup(before.client_changes, client_id),
        stored_client(after, client_id) == stored_client(before, client_id),
    ensures
        client_followed(before, after, client_id),
{
    assert(before.client_changes.dom().contains(client_id) <==> lookup(
        before.client_changes,
        client_id,
    ) is Some);
}

/// A step of one client's session, marked where the session is stored, keeps the state.
pub proof fn session_step(state: StateView, client_id: Seq<char>, session: SessionView, now_ms: u64)
    requires
        state_basics(state),
        state.sessions.dom().contains(client_id),
        session_sound(session),
        goes_on(state.sessions[client_id], session),
    ensures
        basics_kept(
            state,
            marked_if_durable(with_session(state, client_id, session), client_id),
            now_ms,
        ),
{
    let next = with_session(state, client_id, session);
    let after = marked_if_durable(next, client_id);
    let before = state.sessions[client_id];
    assert(connected_client(next, client_id) == connected_client(state, client_id));
    assert(is_durable(next, client_id) == is_durable(state, client_id));
    assert(linked(after)) by {
        assert forall|connection_id: u64| #[trigger]
            after.clients.dom().contains(connection_id) implies ({
            let client = after.clients[connection_id];
            &&& lookup(after.connections, client.client_id) == Some(connection_id)
            &&& client.persistent_session == (client.session_expiry_interval != 0)
            &&& after.sessions.dom().contains(client.client_id)
            &&& after.sessions[client.client_id].session_expiry_interval
                == client.session_expiry_interval
            &&& after.sessions[client.client_id].expires_at_ms is None
        }) by {
            assert(state.clients.dom().contains(connection_id));
        }
        assert forall|id: Seq<char>| #[trigger] after.connections.dom().contains(id) implies
            after.clients.dom().contains(after.connections[id])
            && after.clients[after.connections[id]].client_id == id by {
            assert(state.connections.dom().contains(id));
        }
    }
    assert forall|id: Seq<char>| #[trigger] client_followed(state, after, id) by {
        assert(connected_client(after, id) == connected_client(state, id));
        if id != client_id {
            assert(is_durable(after, id) == is_durable(state, id));
            bystander_followed(state, after, id);
        } else {
            going_on_evolves(
                before,
                session,
                state.subscriptions,
                state.subscriptions,
                client_id,
            );
        }
    }
    assert forall|topic: Seq<char>| #[trigger] topic_followed(state, after, topic, now_ms) by {}
}

/// A session that is put where it was changes nothing.
pub proof fn same_session_put(state: StateView, client_id: Seq<char>)
    requires
        state.sessions.dom().contains(client_id),
    ensures
        with_session(state, client_id, state.sessions[client_id]) == state,
{
    assert(state.sessions.insert(client_id, state.sessions[client_id]) =~= state.sessions);
}

/// Two states that differ only in what is not stored.
pub proof fn unstored_change(before: StateView, after: StateView, now_ms: u64)
    requires
        state_basics(before),
        linked(after),
        after.sessions == before.sessions,
        after.subscriptions == before.subscriptions,
        after.retained == before.retained,
        after.client_changes == before.client_changes,
        after.retained_changes == before.retained_changes,
        forall|client_id: Seq<char>| #[trigger]
            is_durable(after, client_id) == is_durable(before, client_id),
        forall|key: (u64, u16)| #[trigger]
            after.qos2_inflight.dom().contains(key) ==> valid_topic_name(
                after.qos2_inflight[key].packet.topic_name,
            ),
    ensures
        basics_kept(before, after, now_ms),
{
    assert forall|id: Seq<char>| #[trigger] client_followed(before, after, id) by {
        assert(is_durable(after, id) == is_durable(before, id));
        bystander_followed(before, after, id);
    }
    assert forall|topic: Seq<char>| #[trigger] topic_followed(before, after, topic, now_ms) by {}
}

/// The subscriptions of a client that all stay are stored as before.
pub proof fn kept_subscriptions(
    subscriptions: Seq<EntryView>,
    keep: spec_fn(EntryView) -> bool,
    client_id: Seq<char>,
)
    requires
        forall|entry: EntryView| entry.client_id == client_id ==> #[trigger] keep(entry),
    ensures
        subscriptions_by_filter(subscriptions.filter(keep), client_id) == subscriptions_by_filter(
            subscriptions,
            client_id,
        ),
    decreases subscriptions.len(),
{
    reveal(Seq::filter);
    if subscriptions.len() > 0 {
        let front = subscriptions.drop_last();
        let last = subscriptions.last();
        kept_subscriptions(front, keep, client_id);
        if keep(last) {
            let list = front.filter(keep).push(last);
            assert(subscriptions.filter(keep) =~= list);
            assert(list.drop_last() =~= front.filter(keep));
            assert(list.last() == last);
        } else {
            assert(subscriptions.filter(keep) =~= front.filter(keep));
        }
    }
}

/// What a filter keeps are items of the list.
pub proof fn filtered_from<A>(items: Seq<A>, keep: spec_fn(A) -> bool, index: int)
    requires
        0 <= index < items.filter(keep).len(),
    ensures
        items.contains(items.filter(keep)[index]),
        keep(items.filter(keep)[index]),
    decreases items.len(),
{
    reveal(Seq::filter);
    if items.len() > 0 {
        let front = items.drop_last();
        let last = items.last();
        let kept = items.filter(keep);
        if keep(last) {
            assert(kept =~= front.filter(keep).push(last));
        } else {
            assert(kept =~= front.filter(keep));
        }
        if index < front.filter(keep).len() {
            filtered_from(front, keep, index);
            let i = choose|i: int| 0 <= i < front.len() && front[i] == kept[index];
            assert(items[i] == kept[index]);
        } else {
            assert(items[items.len() - 1] == last);
        }
    }
}

/// Subscriptions of which some are dropped stay ones that may be stored.
pub proof fn filtered_entries_sound(subscriptions: Seq<EntryView>, keep: spec_fn(EntryView) -> bool)
    requires
        forall|i: int|
            0 <= i < subscriptions.len() ==> entry_sound(#[trigger] subscriptions[i]),
    ensures
        forall|i: int|
            0 <= i < subscriptions.filter(keep).len() ==> entry_sound(
                #[trigger] subscriptions.filter(keep)[i],
            ),
{
    let list = subscriptions.filter(keep);
    assert forall|i: int| 0 <= i < list.len() implies entry_sound(#[trigger] list[i]) by {
        filtered_from(subscriptions, keep, i);
        let j = choose|j: int| 0 <= j < subscriptions.len() && subscriptions[j] == list[i];
        assert(entry_sound(subscriptions[j]));
    }
}

/// Dropping the sessions that have expired keeps the state.
pub proof fn expiring_keeps_basics(state: StateView, now_ms: u64)
    requires
        state_basics(state),
    ensures
        basics_kept(state, without_expired(state, now_ms), now_ms),
        without_expired(state, now_ms).clients == state.clients,
        without_expired(state, now_ms).connections == state.connections,
{
    let after = without_expired(state, now_ms);
    let keep = |entry: EntryView| !session_expired(state, entry.client_id, now_ms);
    filtered_entries_sound(state.subscriptions, keep);
    assert(linked(after)) by {
        assert forall|connection_id: u64| #[trigger]
            after.clients.dom().contains(connection_id) implies ({
            let client = after.clients[connection_id];
            &&& lookup(after.connections, client.client_id) == Some(connection_id)
            &&& client.persistent_session == (client.session_expiry_interval != 0)
            &&& after.sessions.dom().contains(client.client_id)
            &&& after.sessions[client.client_id].session_expiry_interval
                == client.session_expiry_interval
            &&& after.sessions[client.client_id].expires_at_ms is None
        }) by {
            assert(state.clients.dom().contains(connection_id));
            assert(state.connections.dom().contains(state.clients[connection_id].client_id));
        }
        assert forall|id: Seq<char>| #[trigger] after.connections.dom().contains(id) implies
            after.clients.dom().contains(after.connections[id])
            && after.clients[after.connections[id]].client_id == id by {
            assert(state.connections.dom().contains(id));
        }
    }
    assert forall|id: Seq<char>| #[trigger] client_followed(state, after, id) by {
        if !session_expired(state, id, now_ms) {
            assert(connected_client(after, id) == connected_client(state, id));
            assert(is_durable(after, id) == is_durable(state, id));
            assert forall|entry: EntryView| entry.client_id == id implies #[trigger] keep(
                entry,
            ) by {}
            kept_subscriptions(state.subscriptions, keep, id);
            bystander_followed(state, after, id);
        } else {
            assert(after.client_changes.dom().contains(id));
        }
    }
    assert forall|topic: Seq<char>| #[trigger] topic_followed(state, after, topic, now_ms) by {}
    assert forall|id: Seq<char>| #[trigger] after.sessions.dom().contains(id) implies id.len() > 0
        && session_sound(after.sessions[id]) by {
        assert(state.sessions.dom().contains(id));
    }
}

} // verus!
