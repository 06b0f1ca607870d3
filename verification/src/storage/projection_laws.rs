//! What a commit stores, and what comes back of it.
use vstd::prelude::*;

use crate::message::PendingView;
use crate::ordered_map::OrderedKey;
use crate::ordered_map::ascending;
use crate::ordered_map::entries_of;
use crate::ordered_map::entries_of_entries;
use crate::ordered_map::has_key;
use crate::ordered_map::key_has_entry;
use crate::ordered_map::key_index;
use crate::ordered_map::listed;
use crate::ordered_map::listed_part;
use crate::ordered_map::map_of;
use crate::ordered_map::map_of_entry;
use crate::ordered_map::map_of_insert;
use crate::ordered_map::map_prefix;
use crate::protocol::valid_topic_name;
use crate::retained_message::RetainedView;
use crate::session::ChangeView;
use crate::session::ClientPersistenceChange;
use crate::session::StateView;
use crate::session::changes_of;
use crate::session::client_changes_of;
use crate::session::connected_client;
use crate::session::text_unit_map;
use crate::session::topic_changes_of;
use crate::storage::delta::ProjectionView;
use crate::storage::delta::lookup;
use crate::storage::delta::patch_between;
use crate::storage::delta::patched_all;
use crate::storage::delta::queued_of;
use crate::storage::delta::values_of;
use crate::storage::delta::with_key;
use crate::storage::laws::between_restores;
use crate::storage::laws::evolves;
use crate::storage::laws::presentable;
use crate::storage::laws::storable;
use crate::storage::log::changes_forgotten;
use crate::storage::projection::all_restored_subscriptions;
use crate::storage::projection::canonical;
use crate::storage::projection::changed_clients;
use crate::storage::projection::changed_topics;
use crate::storage::projection::client_change_patches;
use crate::storage::projection::comes_back;
use crate::storage::projection::prepared;
use crate::storage::projection::projected;
use crate::storage::projection::queue_by_sequence;
use crate::storage::projection::restored;
use crate::storage::projection::restored_session;
use crate::storage::projection::restored_sessions;
use crate::storage::projection::restored_subscription;
use crate::storage::projection::restored_subscriptions;
use crate::storage::projection::retained_change_patch;
use crate::storage::projection::retained_change_patches;
use crate::storage::projection::stored_client;
use crate::storage::projection::subscriptions_by_filter;
use crate::storage::projection::topics_agree;
use crate::storage::projection::with_recovered_expiry;
use crate::storage::replay_laws::storable_projection;
use crate::storage::snapshot::ClientView;
use crate::storage::snapshot::QueuedSnapshotView;
use crate::storage::snapshot::StoragePatchView;
use crate::storage::snapshot::SubscriptionSnapshotView;
use crate::storage::snapshot::client_defect;
use crate::subscription::EntryView;

verus! {

/// What is stored agrees with a state but for what is marked as changed.
pub open spec fn up_to_date(projection: ProjectionView, state: StateView) -> bool {
    &&& forall|client_id: Seq<char>|
        !(#[trigger] state.client_changes.dom().contains(client_id)) ==> lookup(
            projection.clients,
            client_id,
        ) == stored_client(state, client_id)
    &&& forall|topic: Seq<char>|
        !(#[trigger] state.retained_changes.contains(topic)) ==> lookup(
            projection.retained,
            topic,
        ) == lookup(state.retained, topic)
}

/// The marks of a state are finitely many.
pub open spec fn marks_listed(state: StateView) -> bool {
    &&& listed::<String, ClientPersistenceChange>(state.client_changes)
    &&& listed::<String, ()>(text_unit_map(state.retained_changes))
}

/// What changed of a client can be stored: it is without defect before and after, and unless it is
/// stored anew its queue only grew at the end.
pub open spec fn client_committable(
    projection: ProjectionView,
    state: StateView,
    client_id: Seq<char>,
    force_reset: bool,
) -> bool {
    let previous = lookup(projection.clients, client_id);
    let next = stored_client(state, client_id);
    &&& client_id.len() > 0
    &&& previous matches Some(client) ==> storable(client, client_id)
    &&& next matches Some(client) ==> storable(client, client_id)
    &&& !force_reset ==> (previous matches Some(before) ==> (next matches Some(after) ==> evolves(
        before,
        after,
    )))
}

/// Everything that changed can be stored.
pub open spec fn committable(projection: ProjectionView, state: StateView) -> bool {
    &&& marks_listed(state)
    &&& forall|client_id: Seq<char>| #[trigger]
        state.client_changes.dom().contains(client_id) ==> client_committable(
            projection,
            state,
            client_id,
            state.client_changes[client_id] == ClientPersistenceChange::Reset,
        )
    &&& forall|topic: Seq<char>| #[trigger]
        state.retained_changes.contains(topic) ==> valid_topic_name(topic)
    &&& topics_agree(state.retained)
}

spec fn forced(entries: Seq<(Seq<char>, ClientPersistenceChange)>) -> Seq<(Seq<char>, bool)> {
    entries.map_values(
        |entry: (Seq<char>, ClientPersistenceChange)|
            (entry.0, entry.1 == ClientPersistenceChange::Reset),
    )
}

/// The clients that marks speak of are those that are marked.
proof fn changed_clients_are_marked(
    entries: Seq<(Seq<char>, ClientPersistenceChange)>,
    count: nat,
)
    requires
        ascending::<String, ClientPersistenceChange>(entries),
        count <= entries.len(),
    ensures
        changed_clients(client_changes_of(entries.take(count as int))) == map_of(
            forced(entries).take(count as int),
        ),
        changed_topics(client_changes_of(entries.take(count as int))) == Map::<
            Seq<char>,
            (),
        >::empty(),
        ascending::<String, bool>(forced(entries)),
    decreases count,
{
    let all = forced(entries);
    assert forall|i: int, j: int|
        #![trigger all[i], all[j]]
        0 <= i < j < all.len() implies String::before(all[i].0, all[j].0) by {
        assert(String::before(entries[i].0, entries[j].0));
    }
    if count == 0 {
        assert(map_of(all.take(0)) =~= Map::<Seq<char>, bool>::empty());
    } else {
        let less = (count - 1) as nat;
        changed_clients_are_marked(entries, less);
        let changes = client_changes_of(entries.take(count as int));
        assert(changes.drop_last() =~= client_changes_of(entries.take(less as int)));
        assert(changes.last() == client_changes_of(entries)[less as int]);
        map_prefix::<String, _>(all, less as int);
        map_of_front_lacks(all, less as int);
    }
}

/// An entry's key is not among those before it.
proof fn map_of_front_lacks<W>(entries: Seq<(Seq<char>, W)>, index: int)
    requires
        ascending::<String, W>(entries),
        0 <= index < entries.len(),
    ensures
        !map_of(entries.take(index)).dom().contains(entries[index].0),
{
    let front = entries.take(index);
    if has_key(front, entries[index].0) {
        let i = key_index(front, entries[index].0);
        assert(String::before(entries[i].0, entries[index].0));
        String::before_irreflexive(entries[index].0);
    }
}

/// The topics that marks speak of are those that are marked, and they speak of no more clients.
proof fn changed_topics_are_marked(
    front: Seq<ChangeView>,
    topics: Seq<(Seq<char>, ())>,
    count: nat,
)
    requires
        ascending::<String, ()>(topics),
        count <= topics.len(),
        changed_topics(front) == Map::<Seq<char>, ()>::empty(),
    ensures
        changed_clients(front + topic_changes_of(topics.take(count as int))) == changed_clients(
            front,
        ),
        changed_topics(front + topic_changes_of(topics.take(count as int))) == map_of(
            topics.take(count as int),
        ),
    decreases count,
{
    if count == 0 {
        assert(front + topic_changes_of(topics.take(0)) =~= front);
        assert(map_of(topics.take(0)) =~= Map::<Seq<char>, ()>::empty());
    } else {
        let less = (count - 1) as nat;
        changed_topics_are_marked(front, topics, less);
        let changes = front + topic_changes_of(topics.take(count as int));
        assert(changes.drop_last() =~= front + topic_changes_of(topics.take(less as int)));
        assert(changes.last() == ChangeView::RetainedTopic(topics[less as int].0));
        map_prefix::<String, _>(topics, less as int);
    }
}

/// What is stored with some clients replaced by those of a state.
spec fn with_clients(
    projection: ProjectionView,
    state: StateView,
    changes: Seq<(Seq<char>, bool)>,
) -> ProjectionView
    decreases changes.len(),
{
    if changes.len() == 0 {
        projection
    } else {
        let front = with_clients(projection, state, changes.drop_last());
        ProjectionView {
            clients: with_key(
                front.clients,
                changes.last().0,
                stored_client(state, changes.last().0),
            ),
            ..front
        }
    }
}

/// What is stored of a client is replaced where it is among those named, and only there.
proof fn with_clients_is(
    projection: ProjectionView,
    state: StateView,
    changes: Seq<(Seq<char>, bool)>,
    client_id: Seq<char>,
)
    ensures
        with_clients(projection, state, changes).retained == projection.retained,
        lookup(with_clients(projection, state, changes).clients, client_id) == (if has_key(
            changes,
            client_id,
        ) {
            stored_client(state, client_id)
        } else {
            lookup(projection.clients, client_id)
        }),
    decreases changes.len(),
{
    if changes.len() > 0 {
        let front = changes.drop_last();
        with_clients_is(projection, state, front, client_id);
        if has_key(front, client_id) {
            let i = key_index(front, client_id);
            assert(changes[i].0 == client_id);
        }
        assert(changes[changes.len() - 1].0 == changes.last().0);
        if has_key(changes, client_id) && changes.last().0 != client_id {
            let i = key_index(changes, client_id);
            assert(front[i].0 == client_id);
        }
    }
}

/// The patches of clients store the clients.
proof fn client_patches_store(
    projection: ProjectionView,
    state: StateView,
    changes: Seq<(Seq<char>, bool)>,
)
    requires
        ascending::<String, bool>(changes),
        forall|i: int|
            0 <= i < changes.len() ==> client_committable(
                projection,
                state,
                (#[trigger] changes[i]).0,
                changes[i].1,
            ),
    ensures
        patched_all(projection, client_change_patches(projection, state, changes)) == Ok::<
            ProjectionView,
            Seq<char>,
        >(with_clients(projection, state, changes)),
    decreases changes.len(),
{
    if changes.len() > 0 {
        let front = changes.drop_last();
        let last = changes.len() - 1;
        assert forall|i: int, j: int|
            #![trigger front[i], front[j]]
            0 <= i < j < front.len() implies String::before(front[i].0, front[j].0) by {
            assert(front[i] == changes[i] && front[j] == changes[j]);
        }
        assert forall|i: int| 0 <= i < front.len() implies client_committable(
            projection,
            state,
            (#[trigger] front[i]).0,
            front[i].1,
        ) by {
            assert(front[i] == changes[i]);
        }
        client_patches_store(projection, state, front);
        let (client_id, force_reset) = changes.last();
        assert(changes[last] == (client_id, force_reset));
        let before = with_clients(projection, state, front);
        with_clients_is(projection, state, front, client_id);
        if has_key(front, client_id) {
            let i = key_index(front, client_id);
            assert(String::before(changes[i].0, changes[last].0));
            String::before_irreflexive(client_id);
        }
        let previous = lookup(projection.clients, client_id);
        let next = stored_client(state, client_id);
        assert(lookup(before.clients, client_id) == previous);
        between_restores(client_id, previous, next, force_reset);
        let patches = client_change_patches(projection, state, front);
        match patch_between(client_id, previous, next, force_reset) {
            Some(patch) => {
                let list = patches.push(StoragePatchView::Client(patch));
                assert(list.drop_last() =~= patches);
                assert(list.last() == StoragePatchView::Client(patch));
            },
            None => {
                assert(with_key(before.clients, client_id, next) =~= before.clients);
            },
        }
    }
}

/// What is stored with some retained messages replaced by those of a state.
spec fn with_retained(
    projection: ProjectionView,
    state: StateView,
    topics: Seq<(Seq<char>, ())>,
) -> ProjectionView
    decreases topics.len(),
{
    if topics.len() == 0 {
        projection
    } else {
        let front = with_retained(projection, state, topics.drop_last());
        ProjectionView {
            retained: with_key(
                front.retained,
                topics.last().0,
                lookup(state.retained, topics.last().0),
            ),
            ..front
        }
    }
}

proof fn with_retained_is(
    projection: ProjectionView,
    state: StateView,
    topics: Seq<(Seq<char>, ())>,
    topic: Seq<char>,
)
    ensures
        with_retained(projection, state, topics).clients == projection.clients,
        lookup(with_retained(projection, state, topics).retained, topic) == (if has_key(
            topics,
            topic,
        ) {
            lookup(state.retained, topic)
        } else {
            lookup(projection.retained, topic)
        }),
    decreases topics.len(),
{
    if topics.len() > 0 {
        let front = topics.drop_last();
        with_retained_is(projection, state, front, topic);
        if has_key(front, topic) {
            let i = key_index(front, topic);
            assert(topics[i].0 == topic);
        }
        assert(topics[topics.len() - 1].0 == topics.last().0);
        if has_key(topics, topic) && topics.last().0 != topic {
            let i = key_index(topics, topic);
            assert(front[i].0 == topic);
        }
    }
}

/// The patches of retained messages store the messages, after some other patches.
proof fn retained_patches_store(
    projection: ProjectionView,
    start: Seq<StoragePatchView>,
    middle: ProjectionView,
    state: StateView,
    topics: Seq<(Seq<char>, ())>,
)
    requires
        patched_all(projection, start) == Ok::<ProjectionView, Seq<char>>(middle),
        middle.retained == projection.retained,
        ascending::<String, ()>(topics),
        forall|i: int| 0 <= i < topics.len() ==> valid_topic_name((#[trigger] topics[i]).0),
        topics_agree(state.retained),
    ensures
        patched_all(projection, start + retained_change_patches(projection, state, topics)) == Ok::<
            ProjectionView,
            Seq<char>,
        >(with_retained(middle, state, topics)),
    decreases topics.len(),
{
    if topics.len() == 0 {
        assert(start + retained_change_patches(projection, state, topics) =~= start);
    } else {
        let front = topics.drop_last();
        let last = topics.len() - 1;
        assert forall|i: int, j: int|
            #![trigger front[i], front[j]]
            0 <= i < j < front.len() implies String::before(front[i].0, front[j].0) by {
            assert(front[i] == topics[i] && front[j] == topics[j]);
        }
        assert forall|i: int| 0 <= i < front.len() implies valid_topic_name(
            (#[trigger] front[i]).0,
        ) by {
            assert(front[i] == topics[i]);
        }
        retained_patches_store(projection, start, middle, state, front);
        let topic = topics.last().0;
        assert(topics[last].0 == topic);
        let before = with_retained(middle, state, front);
        with_retained_is(middle, state, front, topic);
        if has_key(front, topic) {
            let i = key_index(front, topic);
            assert(String::before(topics[i].0, topics[last].0));
            String::before_irreflexive(topic);
        }
        assert(lookup(before.retained, topic) == lookup(projection.retained, topic));
        let patches = retained_change_patches(projection, state, front);
        match retained_change_patch(projection, state, topic) {
            Some(patch) => {
                let item = StoragePatchView::Retained(patch);
                let list = start + patches.push(item);
                assert(list.drop_last() =~= start + patches);
                assert(list.last() == item);
                if let Some(message) = patch.message {
                    assert(state.retained.dom().contains(topic));
                }
            },
            None => {
                assert(with_key(
                    before.retained,
                    topic,
                    lookup(state.retained, topic),
                ) =~= before.retained);
            },
        }
    }
}

/// What is stored with everything that is marked replaced by what a state has.
pub open spec fn committed(projection: ProjectionView, state: StateView) -> ProjectionView {
    ProjectionView {
        clients: Map::new(
            |client_id: Seq<char>| committed_client(projection, state, client_id) is Some,
            |client_id: Seq<char>| committed_client(projection, state, client_id)->0,
        ),
        retained: Map::new(
            |topic: Seq<char>| committed_message(projection, state, topic) is Some,
            |topic: Seq<char>| committed_message(projection, state, topic)->0,
        ),
    }
}

/// What is stored of a client with what is marked replaced.
pub open spec fn committed_client(
    projection: ProjectionView,
    state: StateView,
    client_id: Seq<char>,
) -> Option<ClientView> {
    if state.client_changes.dom().contains(client_id) {
        stored_client(state, client_id)
    } else {
        lookup(projection.clients, client_id)
    }
}

/// What is stored under a topic with what is marked replaced.
pub open spec fn committed_message(
    projection: ProjectionView,
    state: StateView,
    topic: Seq<char>,
) -> Option<RetainedView> {
    if state.retained_changes.contains(topic) {
        lookup(state.retained, topic)
    } else {
        lookup(projection.retained, topic)
    }
}

/// The patches that the marks of a state ask for, applied to what was stored, store just what is
/// marked.
pub proof fn commit_stores_marked(projection: ProjectionView, state: StateView)
    requires
        committable(projection, state),
    ensures
        patched_all(projection, prepared(projection, state, changes_of(state))) == Ok::<
            ProjectionView,
            Seq<char>,
        >(committed(projection, state)),
{
    let marks = entries_of::<String, ClientPersistenceChange>(state.client_changes);
    let topics = entries_of::<String, ()>(text_unit_map(state.retained_changes));
    let forces = forced(marks);
    let client_part = client_changes_of(marks);
    changed_clients_are_marked(marks, marks.len());
    assert(marks.take(marks.len() as int) =~= marks);
    assert(forces.take(marks.len() as int) =~= forces);
    changed_topics_are_marked(client_part, topics, topics.len());
    assert(topics.take(topics.len() as int) =~= topics);
    let changes = changes_of(state);
    assert(changes == client_part + topic_changes_of(topics));
    entries_of_entries::<String, bool>(forces);
    entries_of_entries::<String, ()>(topics);
    assert forall|i: int| 0 <= i < forces.len() implies client_committable(
        projection,
        state,
        (#[trigger] forces[i]).0,
        forces[i].1,
    ) by {
        map_of_entry::<String, ClientPersistenceChange>(marks, i);
        assert(state.client_changes.dom().contains(marks[i].0));
    }
    assert forall|i: int| 0 <= i < topics.len() implies valid_topic_name(
        (#[trigger] topics[i]).0,
    ) by {
        map_of_entry::<String, ()>(topics, i);
        assert(text_unit_map(state.retained_changes).dom().contains(topics[i].0));
        assert(state.retained_changes.contains(topics[i].0));
    }
    client_patches_store(projection, state, forces);
    let middle = with_clients(projection, state, forces);
    with_clients_is(projection, state, forces, Seq::empty());
    let start = client_change_patches(projection, state, forces);
    retained_patches_store(projection, start, middle, state, topics);
    let stored = with_retained(middle, state, topics);
    let goal = committed(projection, state);
    assert forall|client_id: Seq<char>| lookup(stored.clients, client_id) == lookup(
        goal.clients,
        client_id,
    ) by {
        with_clients_is(projection, state, forces, client_id);
        with_retained_is(middle, state, topics, client_id);
        assert(has_key(forces, client_id) <==> state.client_changes.dom().contains(
            client_id,
        )) by {
            if has_key(forces, client_id) {
                let i = key_index(forces, client_id);
                map_of_entry::<String, ClientPersistenceChange>(marks, i);
                assert(marks[i].0 == client_id);
            }
            if state.client_changes.dom().contains(client_id) {
                key_has_entry(marks, client_id);
                let i = key_index(marks, client_id);
                assert(forces[i].0 == client_id);
            }
        }
    }
    same_lookups(stored.clients, goal.clients);
    assert forall|topic: Seq<char>| lookup(stored.retained, topic) == lookup(
        goal.retained,
        topic,
    ) by {
        with_retained_is(middle, state, topics, topic);
        assert(has_key(topics, topic) <==> state.retained_changes.contains(topic)) by {
            assert(state.retained_changes.contains(topic) <==> text_unit_map(
                state.retained_changes,
            ).dom().contains(topic));
            if has_key(topics, topic) {
                let i = key_index(topics, topic);
                map_of_entry::<String, ()>(topics, i);
            }
            if state.retained_changes.contains(topic) {
                key_has_entry(topics, topic);
            }
        }
    }
    same_lookups(stored.retained, goal.retained);
}

/// Where what is stored agrees with a state but for what is marked, a commit stores just the state;
/// from then on what is stored agrees with the state.
pub proof fn commit_stores_state(projection: ProjectionView, state: StateView)
    requires
        up_to_date(projection, state),
        committable(projection, state),
    ensures
        patched_all(projection, prepared(projection, state, changes_of(state))) == Ok::<
            ProjectionView,
            Seq<char>,
        >(projected(state)),
        up_to_date(projected(state), changes_forgotten(state)),
{
    commit_stores_marked(projection, state);
    let goal = projected(state);
    assert forall|client_id: Seq<char>| #[trigger] lookup(
        committed(projection, state).clients,
        client_id,
    ) == lookup(goal.clients, client_id) by {
        assert(state.client_changes.dom().contains(client_id) || lookup(
            projection.clients,
            client_id,
        ) == stored_client(state, client_id));
    }
    same_lookups(committed(projection, state).clients, goal.clients);
    assert forall|topic: Seq<char>| #[trigger] lookup(
        committed(projection, state).retained,
        topic,
    ) == lookup(goal.retained, topic) by {
        assert(state.retained_changes.contains(topic) || lookup(projection.retained, topic)
            == lookup(state.retained, topic));
    }
    same_lookups(committed(projection, state).retained, goal.retained);
    let quiet = changes_forgotten(state);
    assert forall|client_id: Seq<char>| stored_client(quiet, client_id) == stored_client(
        state,
        client_id,
    ) by {
        assert(connected_client(quiet, client_id) == connected_client(state, client_id));
    }
}

/// Maps with the same lookups are the same.
pub proof fn same_lookups<A, B>(a: Map<A, B>, b: Map<A, B>)
    requires
        forall|key: A| #[trigger] lookup(a, key) == lookup(b, key),
    ensures
        a == b,
{
    assert forall|key: A| a.dom().contains(key) <==> b.dom().contains(key) by {
        assert(lookup(a, key) == lookup(b, key));
    }
    assert forall|key: A| a.dom().contains(key) implies a[key] == b[key] by {
        assert(lookup(a, key) == lookup(b, key));
    }
    assert(a =~= b);
}

/// The queue that comes back is stored as it was.
proof fn queue_comes_back(entries: Seq<(u64, PendingView)>)
    requires
        ascending::<u64, PendingView>(entries),
    ensures
        queue_by_sequence(queued_of(entries)) == map_of(entries),
    decreases entries.len(),
{
    let queue = queued_of(entries);
    if entries.len() == 0 {
        assert(map_of(entries) =~= Map::<u64, PendingView>::empty());
    } else {
        let front = entries.drop_last();
        let last = entries.len() - 1;
        assert forall|i: int, j: int|
            #![trigger front[i], front[j]]
            0 <= i < j < front.len() implies u64::before(front[i].0, front[j].0) by {
            assert(front[i] == entries[i] && front[j] == entries[j]);
        }
        queue_comes_back(front);
        assert(queue.drop_last() =~= queued_of(front));
        assert(queue.last() == (QueuedSnapshotView {
            sequence: entries[last].0,
            pending: entries[last].1,
        }));
        assert(front.insert(last, (entries[last].0, entries[last].1)) =~= entries);
        if has_key(front, entries[last].0) {
            let i = key_index(front, entries[last].0);
            assert(u64::before(entries[i].0, entries[last].0));
        }
        map_of_insert::<u64, PendingView>(front, last, entries[last].0, entries[last].1);
    }
}

/// The subscriptions of other clients do not matter.
proof fn others_do_not_matter(
    list: Seq<EntryView>,
    more: Seq<EntryView>,
    client_id: Seq<char>,
)
    requires
        forall|i: int| 0 <= i < more.len() ==> (#[trigger] more[i]).client_id != client_id,
    ensures
        subscriptions_by_filter(list + more, client_id) == subscriptions_by_filter(
            list,
            client_id,
        ),
    decreases more.len(),
{
    if more.len() == 0 {
        assert(list + more =~= list);
    } else {
        let front = more.drop_last();
        assert forall|i: int| 0 <= i < front.len() implies (#[trigger] front[i]).client_id
            != client_id by {
            assert(front[i] == more[i]);
        }
        others_do_not_matter(list, front, client_id);
        assert((list + more).drop_last() =~= list + front);
        assert((list + more).last() == more[more.len() - 1]);
    }
}

/// The subscriptions of a client that come back, behind those of others, are stored as they were.
proof fn subscriptions_come_back(
    list: Seq<EntryView>,
    entries: Seq<(Seq<char>, SubscriptionSnapshotView)>,
    client_id: Seq<char>,
)
    requires
        ascending::<String, SubscriptionSnapshotView>(entries),
        subscriptions_by_filter(list, client_id) == Map::<
            Seq<char>,
            SubscriptionSnapshotView,
        >::empty(),
        forall|i: int|
            0 <= i < entries.len() ==> (#[trigger] entries[i]).1.client_id == client_id
                && entries[i].1.filter == entries[i].0,
    ensures
        subscriptions_by_filter(
            list + values_of(entries).map_values(
                |snapshot: SubscriptionSnapshotView| restored_subscription(snapshot),
            ),
            client_id,
        ) == map_of(entries),
    decreases entries.len(),
{
    let restore = |snapshot: SubscriptionSnapshotView| restored_subscription(snapshot);
    let more = values_of(entries).map_values(restore);
    if entries.len() == 0 {
        assert(list + more =~= list);
        assert(map_of(entries) =~= Map::<Seq<char>, SubscriptionSnapshotView>::empty());
    } else {
        let front = entries.drop_last();
        let last = entries.len() - 1;
        assert forall|i: int, j: int|
            #![trigger front[i], front[j]]
            0 <= i < j < front.len() implies String::before(front[i].0, front[j].0) by {
            assert(front[i] == entries[i] && front[j] == entries[j]);
        }
        assert forall|i: int| 0 <= i < front.len() implies (#[trigger] front[i]).1.client_id
            == client_id && front[i].1.filter == front[i].0 by {
            assert(front[i] == entries[i]);
        }
        subscriptions_come_back(list, front, client_id);
        let less = values_of(front).map_values(restore);
        assert((list + more).drop_last() =~= list + less);
        assert((list + more).last() == restored_subscription(entries[last].1));
        assert(entries[last].1.client_id == client_id);
        assert(front.insert(last, (entries[last].0, entries[last].1)) =~= entries);
        if has_key(front, entries[last].0) {
            let i = key_index(front, entries[last].0);
            assert(String::before(entries[i].0, entries[last].0));
            String::before_irreflexive(entries[last].0);
        }
        map_of_insert::<String, SubscriptionSnapshotView>(
            front,
            last,
            entries[last].0,
            entries[last].1,
        );
    }
}

/// The entries of what is stored of a client's subscriptions carry its name and their filter.
pub proof fn subscription_entries_agree(client: ClientView, client_id: Seq<char>)
    requires
        presentable(client, client_id),
    ensures
        ({
            let entries = entries_of::<String, SubscriptionSnapshotView>(client.subscriptions);
            &&& forall|i: int|
                0 <= i < entries.len() ==> (#[trigger] entries[i]).1.client_id == client_id
                    && entries[i].1.filter == entries[i].0
            &&& forall|i: int|
                0 <= i < restored_subscriptions(client).len() ==> (
                #[trigger] restored_subscriptions(client)[i]).client_id == client_id
        }),
{
    let entries = entries_of::<String, SubscriptionSnapshotView>(client.subscriptions);
    assert forall|i: int| 0 <= i < entries.len() implies (#[trigger] entries[i]).1.client_id
        == client_id && entries[i].1.filter == entries[i].0 by {
        map_of_entry::<String, SubscriptionSnapshotView>(entries, i);
        assert(client.subscriptions.dom().contains(entries[i].0));
    }
    assert forall|i: int| 0 <= i < restored_subscriptions(client).len() implies (
    #[trigger] restored_subscriptions(client)[i]).client_id == client_id by {
        assert(entries[i].1.client_id == client_id);
    }
}

/// Each client comes back with its session and its subscriptions.
proof fn clients_come_back(
    clients: Seq<(Seq<char>, ClientView)>,
    count: nat,
    client_id: Seq<char>,
    now_ms: u64,
)
    requires
        ascending::<String, ClientView>(clients),
        count <= clients.len(),
        forall|i: int|
            0 <= i < clients.len() ==> presentable((#[trigger] clients[i]).1, clients[i].0),
    ensures
        ({
            let front = clients.take(count as int);
            let known = map_of(front);
            let comes = known.dom().contains(client_id) && comes_back(known[client_id]);
            &&& lookup(restored_sessions(front, now_ms), client_id) == (if comes {
                Some(restored_session(known[client_id], now_ms))
            } else {
                None
            })
            &&& subscriptions_by_filter(all_restored_subscriptions(front), client_id) == (if comes {
                known[client_id].subscriptions
            } else {
                Map::empty()
            })
        }),
    decreases count,
{
    let front = clients.take(count as int);
    if count == 0 {
        assert(front =~= Seq::<(Seq<char>, ClientView)>::empty());
        assert(map_of(front) =~= Map::<Seq<char>, ClientView>::empty());
    } else {
        let less = (count - 1) as nat;
        let before = clients.take(less as int);
        clients_come_back(clients, less, client_id, now_ms);
        assert(front.drop_last() =~= before);
        assert(front.last() == clients[less as int]);
        map_prefix::<String, _>(clients, less as int);
        map_of_front_lacks(clients, less as int);
        let (id, client) = clients[less as int];
        assert(presentable(clients[less as int].1, clients[less as int].0));
        if comes_back(client) {
            let list = all_restored_subscriptions(before);
            let more = restored_subscriptions(client);
            subscription_entries_agree(client, id);
            if id == client_id {
                subscriptions_come_back(
                    list,
                    entries_of::<String, SubscriptionSnapshotView>(client.subscriptions),
                    client_id,
                );
            } else {
                others_do_not_matter(list, more, client_id);
            }
        }
    }
}

/// What is stored of every client is without defect.
pub open spec fn presentable_projection(projection: ProjectionView) -> bool {
    &&& listed::<String, ClientView>(projection.clients)
    &&& forall|client_id: Seq<char>| #[trigger]
        projection.clients.dom().contains(client_id) ==> presentable(
            projection.clients[client_id],
            client_id,
        )
}

/// What is stored comes back: a state that is restored is stored again as it was, but for sessions
/// that end with their connection, which are gone, and for the time of sessions without an end,
/// which starts.
pub proof fn restored_state_is_stored(projection: ProjectionView, now_ms: u64)
    requires
        presentable_projection(projection),
    ensures
        projected(restored(projection, now_ms)) == (ProjectionView {
            clients: Map::new(
                |client_id: Seq<char>|
                    projection.clients.dom().contains(client_id) && comes_back(
                        projection.clients[client_id],
                    ),
                |client_id: Seq<char>| with_recovered_expiry(
                    projection.clients[client_id],
                    now_ms,
                ),
            ),
            ..projection
        }),
{
    let state = restored(projection, now_ms);
    let clients = entries_of::<String, ClientView>(projection.clients);
    let goal = Map::new(
        |client_id: Seq<char>|
            projection.clients.dom().contains(client_id) && comes_back(
                projection.clients[client_id],
            ),
        |client_id: Seq<char>| with_recovered_expiry(projection.clients[client_id], now_ms),
    );
    assert(clients.take(clients.len() as int) =~= clients);
    assert forall|i: int| 0 <= i < clients.len() implies presentable(
        (#[trigger] clients[i]).1,
        clients[i].0,
    ) by {
        map_of_entry::<String, ClientView>(clients, i);
        assert(projection.clients.dom().contains(clients[i].0));
    }
    assert forall|client_id: Seq<char>| #[trigger] lookup(
        projected(state).clients,
        client_id,
    ) == lookup(goal, client_id) by {
        clients_come_back(clients, clients.len(), client_id, now_ms);
        assert(connected_client(state, client_id) is None);
        if goal.dom().contains(client_id) {
            let client = projection.clients[client_id];
            assert(presentable(client, client_id));
            let queue = entries_of::<u64, PendingView>(client.offline);
            queue_comes_back(queue);
            assert(state.sessions.dom().contains(client_id));
            assert(state.sessions[client_id] == restored_session(client, now_ms));
            let found = stored_client(state, client_id);
            assert(found == Some(with_recovered_expiry(client, now_ms)));
        } else {
            assert(lookup(state.sessions, client_id) is None);
        }
    }
    same_lookups(projected(state).clients, goal);
}

/// What is stored once it is known that nobody is connected comes back as it is.
pub proof fn canonical_state_is_stored(projection: ProjectionView, now_ms: u64)
    requires
        storable_projection(projection),
    ensures
        storable_projection(canonical(projection, now_ms)),
        projected(restored(canonical(projection, now_ms), now_ms)) == canonical(
            projection,
            now_ms,
        ),
{
    let stored = canonical(projection, now_ms);
    listed_part::<String, ClientView>(projection.clients, stored.clients);
    assert forall|client_id: Seq<char>| #[trigger]
        stored.clients.dom().contains(client_id) implies storable(
        stored.clients[client_id],
        client_id,
    ) by {
        assert(projection.clients.dom().contains(client_id));
        let client = projection.clients[client_id];
        assert(storable(client, client_id));
        assert(client_defect(with_recovered_expiry(client, now_ms), client_id) is None);
    }
    assert forall|client_id: Seq<char>| #[trigger]
        stored.clients.dom().contains(client_id) implies presentable(
        stored.clients[client_id],
        client_id,
    ) by {
        assert(storable(stored.clients[client_id], client_id));
    }
    restored_state_is_stored(stored, now_ms);
    assert(projected(restored(stored, now_ms)).clients =~= stored.clients);
}

} // verus!
