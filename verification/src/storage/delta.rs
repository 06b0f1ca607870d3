//! Patches between two states of what is stored, and their application.
use vstd::prelude::*;

use crate::message::PendingView;
use crate::ordered_map::IdSet;
use crate::ordered_map::OrderedKey;
use crate::ordered_map::OrderedMap;
use crate::ordered_map::ascending;
use crate::ordered_map::entries_of;
use crate::ordered_map::has_key;
use crate::ordered_map::key_has_entry;
use crate::ordered_map::key_index;
use crate::retained_message::RetainedMessage;
use crate::retained_message::RetainedView;
use crate::storage::snapshot::CLIENT_PATCH_VERSION;
use crate::storage::snapshot::ClientPatch;
use crate::storage::snapshot::ClientPatchMode;
use crate::storage::snapshot::ClientPatchView;
use crate::storage::snapshot::ClientSnapshot;
use crate::storage::snapshot::ClientView;
use crate::storage::snapshot::PendingSnapshot;
use crate::storage::snapshot::QueuedSnapshot;
use crate::storage::snapshot::QueuedSnapshotView;
use crate::storage::snapshot::SessionSnapshot;
use crate::storage::snapshot::StoragePatch;
use crate::storage::snapshot::StoragePatchView;
use crate::storage::snapshot::SubscriptionSnapshot;
use crate::storage::snapshot::SubscriptionSnapshotView;
use crate::storage::snapshot::client_defect;
use crate::storage::snapshot::client_patch_defect;
use crate::storage::snapshot::patch_defect;
use crate::value::Value;

verus! {

/// The patch of a mode that changes nothing.
pub open spec fn empty_patch(client_id: Seq<char>, mode: ClientPatchMode) -> ClientPatchView {
    ClientPatchView {
        version: CLIENT_PATCH_VERSION,
        client_id,
        mode,
        session: None,
        subscription_upserts: Seq::empty(),
        subscription_deletes: Seq::empty(),
        offline_remove_through: None,
        offline_append: Seq::empty(),
        qos1_upserts: Map::empty(),
        qos1_deletes: Set::empty(),
        qos2_publish_upserts: Map::empty(),
        qos2_publish_deletes: Set::empty(),
        pubrel_add: Set::empty(),
        pubrel_remove: Set::empty(),
    }
}

/// The values of some entries.
pub open spec fn values_of<A, B>(entries: Seq<(A, B)>) -> Seq<B> {
    Seq::new(entries.len(), |i: int| entries[i].1)
}

/// The entries of an offline queue.
pub open spec fn queued_of(entries: Seq<(u64, PendingView)>) -> Seq<QueuedSnapshotView> {
    Seq::new(
        entries.len(),
        |i: int| QueuedSnapshotView { sequence: entries[i].0, pending: entries[i].1 },
    )
}

/// The patch that replaces what is stored of a client.
pub open spec fn reset_patch(client_id: Seq<char>, client: ClientView) -> ClientPatchView {
    ClientPatchView {
        session: Some(client.session),
        subscription_upserts: values_of(
            entries_of::<String, SubscriptionSnapshotView>(client.subscriptions),
        ),
        offline_append: queued_of(entries_of::<u64, PendingView>(client.offline)),
        qos1_upserts: client.qos1,
        qos2_publish_upserts: client.qos2_publish,
        pubrel_add: client.qos2_pubrel,
        ..empty_patch(client_id, ClientPatchMode::Reset)
    }
}

/// A key has another value in the next map than in the previous one, or none in the previous one.
pub open spec fn changed<A, B>(previous: Map<A, B>, key: A, value: B) -> bool {
    !(previous.dom().contains(key) && previous[key] == value)
}

/// What is new or changed in the next map.
pub open spec fn diff_upserts<A, B>(previous: Map<A, B>, next: Map<A, B>) -> Map<A, B> {
    Map::new(
        |key: A| next.dom().contains(key) && changed(previous, key, next[key]),
        |key: A| next[key],
    )
}

/// What is gone in the next map.
pub open spec fn diff_deletes<A, B>(previous: Map<A, B>, next: Map<A, B>) -> Set<A> {
    previous.dom().difference(next.dom())
}

/// The entries that are new or changed against a previous map, in order.
pub open spec fn changed_entries<A, B>(previous: Map<A, B>, entries: Seq<(A, B)>) -> Seq<(A, B)>
    decreases entries.len(),
{
    if entries.len() == 0 {
        Seq::empty()
    } else {
        let front = changed_entries(previous, entries.drop_last());
        if changed(previous, entries.last().0, entries.last().1) {
            front.push(entries.last())
        } else {
            front
        }
    }
}

/// The entries whose keys a map does not have, in order.
pub open spec fn missing_entries<A, B>(entries: Seq<(A, B)>, next: Map<A, B>) -> Seq<(A, B)>
    decreases entries.len(),
{
    if entries.len() == 0 {
        Seq::empty()
    } else {
        let front = missing_entries(entries.drop_last(), next);
        if next.dom().contains(entries.last().0) {
            front
        } else {
            front.push(entries.last())
        }
    }
}

/// The keys of some entries.
pub open spec fn keys_of<A, B>(entries: Seq<(A, B)>) -> Seq<A> {
    Seq::new(entries.len(), |i: int| entries[i].0)
}

/// What happened to an offline queue, where it only lost publications at its front and gained
/// publications at its end: the last number that it lost, and what it gained.
pub open spec fn offline_diff(
    previous: Map<u64, PendingView>,
    next: Map<u64, PendingView>,
) -> Option<(Option<u64>, Seq<QueuedSnapshotView>)> {
    let before = entries_of::<u64, PendingView>(previous);
    let after = entries_of::<u64, PendingView>(next);
    let removed = missing_entries(before, next);
    let added = missing_entries(after, previous);
    if exists|sequence: u64| #[trigger]
        previous.dom().contains(sequence) && next.dom().contains(sequence) && next[sequence]
            != previous[sequence] {
        None
    } else if before.take(removed.len() as int) != removed {
        None
    } else if before.len() > 0 && exists|i: int|
        0 <= i < added.len() && (#[trigger] added[i]).0 <= before.last().0 {
        None
    } else {
        Some(
            (
                if removed.len() > 0 {
                    Some(removed.last().0)
                } else {
                    None
                },
                queued_of(added),
            ),
        )
    }
}

/// The patch that changes what is stored of a client from one state to another, where the offline
/// queue allows one.
pub open spec fn merge_patch(
    client_id: Seq<char>,
    previous: ClientView,
    next: ClientView,
) -> Option<ClientPatchView> {
    match offline_diff(previous.offline, next.offline) {
        None => None,
        Some(offline) => Some(
            ClientPatchView {
                session: if previous.session != next.session {
                    Some(next.session)
                } else {
                    None
                },
                subscription_upserts: values_of(
                    changed_entries(
                        previous.subscriptions,
                        entries_of::<String, SubscriptionSnapshotView>(next.subscriptions),
                    ),
                ),
                subscription_deletes: keys_of(
                    missing_entries(
                        entries_of::<String, SubscriptionSnapshotView>(previous.subscriptions),
                        next.subscriptions,
                    ),
                ),
                offline_remove_through: offline.0,
                offline_append: offline.1,
                qos1_upserts: diff_upserts(previous.qos1, next.qos1),
                qos1_deletes: diff_deletes(previous.qos1, next.qos1),
                qos2_publish_upserts: diff_upserts(previous.qos2_publish, next.qos2_publish),
                qos2_publish_deletes: diff_deletes(previous.qos2_publish, next.qos2_publish),
                pubrel_add: next.qos2_pubrel.difference(previous.qos2_pubrel),
                pubrel_remove: previous.qos2_pubrel.difference(next.qos2_pubrel),
                ..empty_patch(client_id, ClientPatchMode::Merge)
            },
        ),
    }
}

/// The patch between two states of what is stored of a client.
pub open spec fn patch_between(
    client_id: Seq<char>,
    previous: Option<ClientView>,
    next: Option<ClientView>,
    force_reset: bool,
) -> Option<ClientPatchView> {
    match (previous, next) {
        (_, None) => if force_reset || previous is Some {
            Some(empty_patch(client_id, ClientPatchMode::Delete))
        } else {
            None
        },
        (None, Some(next)) => Some(reset_patch(client_id, next)),
        (Some(previous), Some(next)) => if force_reset {
            Some(reset_patch(client_id, next))
        } else if previous == next {
            None
        } else {
            match merge_patch(client_id, previous, next) {
                Some(patch) => Some(patch),
                None => Some(reset_patch(client_id, next)),
            }
        },
    }
}

/// Collects what is new or changed in the next map, and what is gone.
fn diff_map<V: Value>(
    previous: &OrderedMap<u16, V>,
    next: &OrderedMap<u16, V>,
    upserts: &mut OrderedMap<u16, V>,
    deletes: &mut IdSet,
)
    requires
        old(upserts).deep_view() == Map::<u16, V::V>::empty(),
        old(deletes).deep_view() == Map::<u16, ()>::empty(),
    ensures
        final(upserts).deep_view() == diff_upserts(previous.deep_view(), next.deep_view()),
        final(deletes).deep_view().dom() == diff_deletes(previous.deep_view(), next.deep_view()),
{
    let ghost before = previous.deep_view();
    let ghost after = next.deep_view();
    let count: usize = next.len();
    let ghost list = next.entries();
    let mut index: usize = 0;
    while index < count
        invariant
            index <= count == list.len(),
            list == next.entries(),
            before == previous.deep_view(),
            after == next.deep_view(),
            forall|key: u16| #[trigger]
                upserts.deep_view().dom().contains(key) <==> exists|i: int|
                    0 <= i < index && (#[trigger] list[i]).0 == key && changed(
                        before,
                        key,
                        after[key],
                    ),
            forall|key: u16| #[trigger]
                upserts.deep_view().dom().contains(key) ==> upserts.deep_view()[key] == after[key],
        decreases count - index,
    {
        let key: u16 = *next.key_at(index);
        let value: &V = next.value_at(index);
        let unchanged: bool = match previous.get(&key) {
            Some(was) => was.same(value),
            None => false,
        };
        let ghost collected = upserts.deep_view();
        assert(list[index as int].0 == key);
        if !unchanged {
            upserts.insert(key, value.dup());
        }
        proof {
            assert forall|k: u16| #[trigger] upserts.deep_view().dom().contains(k) <==> exists|
                i: int,
            |
                0 <= i < index + 1 && (#[trigger] list[i]).0 == k && changed(
                    before,
                    k,
                    after[k],
                ) by {
                if collected.dom().contains(k) {
                    let i = choose|i: int|
                        0 <= i < index && (#[trigger] list[i]).0 == k && changed(
                            before,
                            k,
                            after[k],
                        );
                    assert(list[i].0 == k);
                }
            }
        }
        index += 1;
    }
    proof {
        assert(upserts.deep_view() =~= diff_upserts(before, after)) by {
            assert forall|key: u16| #[trigger] after.dom().contains(key) && changed(
                before,
                key,
                after[key],
            ) implies upserts.deep_view().dom().contains(key) by {
                key_has_entry(list, key);
                assert(list[key_index(list, key)].0 == key);
            }
            assert forall|key: u16| #[trigger]
                upserts.deep_view().dom().contains(key) implies after.dom().contains(key) by {
                let i = choose|i: int|
                    0 <= i < index && (#[trigger] list[i]).0 == key && changed(
                        before,
                        key,
                        after[key],
                    );
                assert(has_key(list, key));
            }
        }
    }
    let old_count: usize = previous.len();
    let ghost old_list = previous.entries();
    let mut old_index: usize = 0;
    while old_index < old_count
        invariant
            old_index <= old_count == old_list.len(),
            old_list == previous.entries(),
            after == next.deep_view(),
            forall|key: u16| #[trigger]
                deletes.deep_view().dom().contains(key) <==> exists|i: int|
                    0 <= i < old_index && (#[trigger] old_list[i]).0 == key
                        && !after.dom().contains(key),
        decreases old_count - old_index,
    {
        let key: u16 = *previous.key_at(old_index);
        let ghost collected = deletes.deep_view();
        assert(old_list[old_index as int].0 == key);
        if !next.contains_key(&key) {
            deletes.insert(key, ());
        }
        proof {
            assert forall|k: u16| #[trigger] deletes.deep_view().dom().contains(k) <==> exists|
                i: int,
            |
                0 <= i < old_index + 1 && (#[trigger] old_list[i]).0 == k
                    && !after.dom().contains(k) by {
                if collected.dom().contains(k) {
                    let i = choose|i: int|
                        0 <= i < old_index && (#[trigger] old_list[i]).0 == k
                            && !after.dom().contains(k);
                    assert(old_list[i].0 == k);
                }
            }
        }
        old_index += 1;
    }
    proof {
        assert(deletes.deep_view().dom() =~= diff_deletes(before, after)) by {
            assert forall|key: u16| before.dom().contains(key) && !after.dom().contains(
                key,
            ) implies #[trigger] deletes.deep_view().dom().contains(key) by {
                key_has_entry(old_list, key);
                assert(old_list[key_index(old_list, key)].0 == key);
            }
            assert forall|key: u16| #[trigger]
                deletes.deep_view().dom().contains(key) implies before.dom().contains(key) by {
                let i = choose|i: int|
                    0 <= i < old_index && (#[trigger] old_list[i]).0 == key
                        && !after.dom().contains(key);
                assert(has_key(old_list, key));
            }
        }
    }
}

/// The subscriptions that are new or changed.
fn changed_subscriptions(
    previous: &OrderedMap<String, SubscriptionSnapshot>,
    next: &OrderedMap<String, SubscriptionSnapshot>,
) -> (result: Vec<SubscriptionSnapshot>)
    ensures
        result.deep_view() == values_of(
            changed_entries(
                previous.deep_view(),
                entries_of::<String, SubscriptionSnapshotView>(next.deep_view()),
            ),
        ),
{
    let mut result: Vec<SubscriptionSnapshot> = Vec::new();
    let count: usize = next.len();
    let ghost list = next.entries();
    let mut index: usize = 0;
    assert(result.deep_view() =~= values_of(changed_entries(previous.deep_view(), list.take(0))));
    while index < count
        invariant
            index <= count == list.len(),
            list == next.entries(),
            result.deep_view() == values_of(
                changed_entries(previous.deep_view(), list.take(index as int)),
            ),
        decreases count - index,
    {
        let filter: &String = next.key_at(index);
        let subscription: &SubscriptionSnapshot = next.value_at(index);
        let unchanged: bool = match previous.get(filter) {
            Some(was) => was.same(subscription),
            None => false,
        };
        let ghost before = changed_entries(previous.deep_view(), list.take(index as int));
        proof {
            assert(list.take(index + 1).drop_last() =~= list.take(index as int));
            assert(list.take(index + 1).last() == list[index as int]);
        }
        let ghost collected = result.deep_view();
        if !unchanged {
            result.push(subscription.dup());
            assert(result.deep_view() =~= collected.push(subscription.deep_view()));
            assert(values_of(before.push(list[index as int])) =~= values_of(before).push(
                list[index as int].1,
            ));
        }
        index += 1;
    }
    assert(list.take(index as int) =~= list);
    result
}

/// The filters of the subscriptions that are gone.
fn removed_subscriptions(
    previous: &OrderedMap<String, SubscriptionSnapshot>,
    next: &OrderedMap<String, SubscriptionSnapshot>,
) -> (result: Vec<String>)
    ensures
        result.deep_view() == keys_of(
            missing_entries(
                entries_of::<String, SubscriptionSnapshotView>(previous.deep_view()),
                next.deep_view(),
            ),
        ),
{
    let mut result: Vec<String> = Vec::new();
    let count: usize = previous.len();
    let ghost list = previous.entries();
    let mut index: usize = 0;
    assert(result.deep_view() =~= keys_of(missing_entries(list.take(0), next.deep_view())));
    while index < count
        invariant
            index <= count == list.len(),
            list == previous.entries(),
            result.deep_view() == keys_of(
                missing_entries(list.take(index as int), next.deep_view()),
            ),
        decreases count - index,
    {
        let filter: &String = previous.key_at(index);
        let ghost before = missing_entries(list.take(index as int), next.deep_view());
        proof {
            assert(list.take(index + 1).drop_last() =~= list.take(index as int));
            assert(list.take(index + 1).last() == list[index as int]);
        }
        let ghost collected = result.deep_view();
        if !next.contains_key(filter) {
            result.push(filter.dup());
            assert(result.deep_view() =~= collected.push(filter@));
            assert(keys_of(before.push(list[index as int])) =~= keys_of(before).push(
                list[index as int].0,
            ));
        }
        index += 1;
    }
    assert(list.take(index as int) =~= list);
    result
}

/// The publications of an offline queue that another queue does not have.
fn missing_publications(
    queue: &OrderedMap<u64, PendingSnapshot>,
    other: &OrderedMap<u64, PendingSnapshot>,
) -> (result: Vec<QueuedSnapshot>)
    ensures
        result.deep_view() == queued_of(
            missing_entries(entries_of::<u64, PendingView>(queue.deep_view()), other.deep_view()),
        ),
{
    let mut result: Vec<QueuedSnapshot> = Vec::new();
    let count: usize = queue.len();
    let ghost list = queue.entries();
    let mut index: usize = 0;
    assert(result.deep_view() =~= queued_of(missing_entries(list.take(0), other.deep_view())));
    while index < count
        invariant
            index <= count == list.len(),
            list == queue.entries(),
            result.deep_view() == queued_of(
                missing_entries(list.take(index as int), other.deep_view()),
            ),
        decreases count - index,
    {
        let sequence: u64 = *queue.key_at(index);
        let ghost before = missing_entries(list.take(index as int), other.deep_view());
        proof {
            assert(list.take(index + 1).drop_last() =~= list.take(index as int));
            assert(list.take(index + 1).last() == list[index as int]);
        }
        let ghost collected = result.deep_view();
        if !other.contains_key(&sequence) {
            let queued: QueuedSnapshot = QueuedSnapshot {
                sequence,
                pending: queue.value_at(index).dup(),
            };
            let ghost view = queued.deep_view();
            result.push(queued);
            assert(result.deep_view() =~= collected.push(view));
            assert(queued_of(before.push(list[index as int])) =~= queued_of(before).push(view));
        }
        index += 1;
    }
    assert(list.take(index as int) =~= list);
    result
}

/// Whether a publication that both queues have differs between them.
fn queue_differs(
    previous: &OrderedMap<u64, PendingSnapshot>,
    next: &OrderedMap<u64, PendingSnapshot>,
) -> (result: bool)
    ensures
        result == exists|sequence: u64| #[trigger]
            previous.deep_view().dom().contains(sequence) && next.deep_view().dom().contains(
                sequence,
            ) && next.deep_view()[sequence] != previous.deep_view()[sequence],
{
    let count: usize = previous.len();
    let ghost list = previous.entries();
    let mut index: usize = 0;
    while index < count
        invariant
            index <= count == list.len(),
            list == previous.entries(),
            forall|i: int|
                0 <= i < index ==> !(next.deep_view().dom().contains((#[trigger] list[i]).0)
                    && next.deep_view()[list[i].0] != list[i].1),
        decreases count - index,
    {
        let sequence: u64 = *previous.key_at(index);
        if let Some(value) = next.get(&sequence) {
            if !value.same(previous.value_at(index)) {
                assert(previous.deep_view().dom().contains(sequence));
                return true;
            }
        }
        index += 1;
    }
    proof {
        assert forall|sequence: u64| #[trigger]
            previous.deep_view().dom().contains(sequence) && next.deep_view().dom().contains(
                sequence,
            ) implies next.deep_view()[sequence] == previous.deep_view()[sequence] by {
            key_has_entry(list, sequence);
        }
    }
    false
}

/// The values of a map in key order.
fn map_values<K: OrderedKey, V: Value>(map: &OrderedMap<K, V>) -> (result: Vec<V>)
    ensures
        result.deep_view() == values_of(entries_of::<K, V::V>(map.deep_view())),
{
    let mut result: Vec<V> = Vec::new();
    let count: usize = map.len();
    let ghost list = map.entries();
    let mut index: usize = 0;
    while index < count
        invariant
            index <= count == list.len(),
            list == map.entries(),
            result@.len() == index,
            forall|i: int| 0 <= i < index ==> (#[trigger] result@[i]).deep_view() == list[i].1,
        decreases count - index,
    {
        result.push(map.value_at(index).dup());
        index += 1;
    }
    assert(result.deep_view() =~= values_of(list));
    result
}

impl ClientPatch {
    /// The patch of a mode that changes nothing.
    pub fn empty(client_id: String, mode: ClientPatchMode) -> (result: Self)
        ensures
            result.deep_view() == empty_patch(client_id.deep_view(), mode),
    {
        let result: ClientPatch = ClientPatch {
            version: CLIENT_PATCH_VERSION,
            client_id,
            mode,
            session: None,
            subscription_upserts: Vec::new(),
            subscription_deletes: Vec::new(),
            offline_remove_through: None,
            offline_append: Vec::new(),
            qos1_upserts: OrderedMap::new(),
            qos1_deletes: IdSet::new(),
            qos2_publish_upserts: OrderedMap::new(),
            qos2_publish_deletes: IdSet::new(),
            pubrel_add: IdSet::new(),
            pubrel_remove: IdSet::new(),
        };
        proof {
            let view = result.deep_view();
            assert(Map::<u16, ()>::empty().dom() =~= Set::<u16>::empty());
            assert(view.subscription_upserts =~= Seq::empty());
            assert(view.subscription_deletes =~= Seq::empty());
            assert(view.offline_append =~= Seq::empty());
        }
        result
    }

    /// The patch that replaces what is stored of a client.
    pub fn reset(client_id: String, client: &ClientSnapshot) -> (result: Self)
        ensures
            result.deep_view() == reset_patch(client_id.deep_view(), client.deep_view()),
    {
        let mut result: ClientPatch = ClientPatch::empty(client_id, ClientPatchMode::Reset);
        let nothing: OrderedMap<u64, PendingSnapshot> = OrderedMap::new();
        result.session = Some(client.session);
        result.subscription_upserts = map_values(&client.subscriptions);
        result.offline_append = missing_publications(&client.offline, &nothing);
        result.qos1_upserts = client.qos1.dup();
        result.qos2_publish_upserts = client.qos2_publish.dup();
        result.pubrel_add = client.qos2_pubrel.dup();
        proof {
            all_missing(entries_of::<u64, PendingView>(client.offline.deep_view()));
        }
        result
    }

    /// The patch that removes what is stored of a client.
    pub fn delete(client_id: String) -> (result: Self)
        ensures
            result.deep_view() == empty_patch(client_id.deep_view(), ClientPatchMode::Delete),
    {
        ClientPatch::empty(client_id, ClientPatchMode::Delete)
    }

    /// The patch between two states of what is stored of a client.
    pub fn between(
        client_id: String,
        previous: Option<&ClientSnapshot>,
        next: Option<&ClientSnapshot>,
        force_reset: bool,
    ) -> (result: Option<Self>)
        ensures
            result.deep_view() == patch_between(
                client_id.deep_view(),
                match previous {
                    Some(client) => Some(client.deep_view()),
                    None => None,
                },
                match next {
                    Some(client) => Some(client.deep_view()),
                    None => None,
                },
                force_reset,
            ),
    {
        match (previous, next) {
            (_, None) => if force_reset || previous.is_some() {
                Some(ClientPatch::delete(client_id))
            } else {
                None
            },
            (None, Some(next)) => Some(ClientPatch::reset(client_id, next)),
            (Some(previous), Some(next)) => if force_reset {
                Some(ClientPatch::reset(client_id, next))
            } else if previous.same(next) {
                None
            } else {
                match ClientPatch::merge(client_id.dup(), previous, next) {
                    Some(patch) => Some(patch),
                    None => Some(ClientPatch::reset(client_id, next)),
                }
            },
        }
    }

    /// The patch that changes what is stored of a client, where the offline queue allows one.
    fn merge(client_id: String, previous: &ClientSnapshot, next: &ClientSnapshot) -> (result:
        Option<Self>)
        ensures
            result.deep_view() == merge_patch(
                client_id.deep_view(),
                previous.deep_view(),
                next.deep_view(),
            ),
    {
        let mut patch: ClientPatch = ClientPatch::empty(client_id, ClientPatchMode::Merge);
        if !previous.session.same(&next.session) {
            patch.session = Some(next.session);
        }
        patch.subscription_upserts = changed_subscriptions(
            &previous.subscriptions,
            &next.subscriptions,
        );
        patch.subscription_deletes = removed_subscriptions(
            &previous.subscriptions,
            &next.subscriptions,
        );
        match diff_offline(&previous.offline, &next.offline) {
            None => return None,
            Some((through, appended)) => {
                patch.offline_remove_through = through;
                patch.offline_append = appended;
            },
        }
        let mut qos1_upserts: OrderedMap<u16, PendingSnapshot> = OrderedMap::new();
        let mut qos1_deletes: IdSet = IdSet::new();
        diff_map(&previous.qos1, &next.qos1, &mut qos1_upserts, &mut qos1_deletes);
        let mut qos2_upserts: OrderedMap<u16, PendingSnapshot> = OrderedMap::new();
        let mut qos2_deletes: IdSet = IdSet::new();
        diff_map(
            &previous.qos2_publish,
            &next.qos2_publish,
            &mut qos2_upserts,
            &mut qos2_deletes,
        );
        let mut pubrel_add: IdSet = IdSet::new();
        let mut pubrel_remove: IdSet = IdSet::new();
        diff_map(&previous.qos2_pubrel, &next.qos2_pubrel, &mut pubrel_add, &mut pubrel_remove);
        proof {
            assert(pubrel_add.deep_view().dom() =~= next.deep_view().qos2_pubrel.difference(
                previous.deep_view().qos2_pubrel,
            ));
        }
        patch.qos1_upserts = qos1_upserts;
        patch.qos1_deletes = qos1_deletes;
        patch.qos2_publish_upserts = qos2_upserts;
        patch.qos2_publish_deletes = qos2_deletes;
        patch.pubrel_add = pubrel_add;
        patch.pubrel_remove = pubrel_remove;
        Some(patch)
    }
}

/// Every entry is missing from the empty map.
proof fn all_missing<A, B>(entries: Seq<(A, B)>)
    ensures
        missing_entries(entries, Map::<A, B>::empty()) == entries,
    decreases entries.len(),
{
    if entries.len() == 0 {
        assert(missing_entries(entries, Map::<A, B>::empty()) =~= entries);
    } else {
        all_missing(entries.drop_last());
        assert(entries =~= entries.drop_last().push(entries.last()));
    }
}

/// What happened to an offline queue.
fn diff_offline(
    previous: &OrderedMap<u64, PendingSnapshot>,
    next: &OrderedMap<u64, PendingSnapshot>,
) -> (result: Option<(Option<u64>, Vec<QueuedSnapshot>)>)
    ensures
        match result {
            Some(found) => offline_diff(previous.deep_view(), next.deep_view()) == Some(
                (found.0, found.1.deep_view()),
            ),
            None => offline_diff(previous.deep_view(), next.deep_view()) is None,
        },
{
    let ghost before = entries_of::<u64, PendingView>(previous.deep_view());
    let ghost after = entries_of::<u64, PendingView>(next.deep_view());
    let ghost gone = missing_entries(before, next.deep_view());
    let ghost new = missing_entries(after, previous.deep_view());
    if queue_differs(previous, next) {
        return None;
    }
    let removed: Vec<QueuedSnapshot> = missing_publications(previous, next);
    assert(removed.deep_view() == queued_of(gone));
    assert(removed.len() == gone.len());
    let count: usize = previous.len();
    proof {
        missing_is_part(before, next.deep_view());
    }
    let mut index: usize = 0;
    while index < removed.len()
        invariant
            index <= removed.len() <= count == before.len(),
            before == previous.entries(),
            gone == missing_entries(before, next.deep_view()),
            removed.len() == gone.len(),
            ascending::<u64, PendingView>(before),
            removed.deep_view() == queued_of(gone),
            before == entries_of::<u64, PendingView>(previous.deep_view()),
            forall|i: int| 0 <= i < index ==> before[i] == #[trigger] gone[i],
        decreases removed.len() - index,
    {
        assert(removed.deep_view()[index as int].sequence == removed@[index as int].sequence);
        assert(queued_of(gone)[index as int].sequence == gone[index as int].0);
        if *previous.key_at(index) != removed[index].sequence {
            assert(before.take(gone.len() as int)[index as int] != gone[index as int]);
            return None;
        }
        proof {
            missing_is_part_at(before, next.deep_view(), index as int);
            let i = choose|i: int| 0 <= i < before.len() && before[i] == gone[index as int];
            if i != index {
                assert(before[i].0 == before[index as int].0);
                if i < index {
                    assert(u64::before(before[i].0, before[index as int].0));
                } else {
                    assert(u64::before(before[index as int].0, before[i].0));
                }
            }
        }
        index += 1;
    }
    assert(before.take(gone.len() as int) =~= gone);
    let through: Option<u64> = if removed.len() > 0 {
        let last: usize = removed.len() - 1;
        assert(removed.deep_view()[last as int].sequence == removed@[last as int].sequence);
        assert(queued_of(gone)[last as int].sequence == gone[last as int].0);
        Some(removed[last].sequence)
    } else {
        None
    };
    let added: Vec<QueuedSnapshot> = missing_publications(next, previous);
    assert(added.deep_view() == queued_of(new));
    assert(added.len() == new.len());
    if count > 0 {
        let last: u64 = *previous.key_at(count - 1);
        let mut next_index: usize = 0;
        while next_index < added.len()
            invariant
                next_index <= added.len(),
                added.len() == new.len(),
                added.deep_view() == queued_of(new),
                before.len() > 0,
                before.last().0 == last,
                before == entries_of::<u64, PendingView>(previous.deep_view()),
                after == entries_of::<u64, PendingView>(next.deep_view()),
                new == missing_entries(after, previous.deep_view()),
                forall|i: int| 0 <= i < next_index ==> (#[trigger] new[i]).0 > last,
            decreases added.len() - next_index,
        {
            assert(added.deep_view()[next_index as int].sequence
                == added@[next_index as int].sequence);
            assert(queued_of(new)[next_index as int].sequence == new[next_index as int].0);
            if added[next_index].sequence <= last {
                assert(new[next_index as int].0 <= before.last().0);
                return None;
            }
            next_index += 1;
        }
    }
    Some((through, added))
}

/// The missing entries are entries, and no more than there are.
proof fn missing_is_part<A, B>(entries: Seq<(A, B)>, next: Map<A, B>)
    ensures
        missing_entries(entries, next).len() <= entries.len(),
    decreases entries.len(),
{
    if entries.len() > 0 {
        missing_is_part(entries.drop_last(), next);
    }
}

/// A missing entry is an entry whose key the map lacks.
proof fn missing_is_part_at<A, B>(entries: Seq<(A, B)>, next: Map<A, B>, index: int)
    requires
        0 <= index < missing_entries(entries, next).len(),
    ensures
        exists|i: int| 0 <= i < entries.len()
            && entries[i] == missing_entries(entries, next)[index],
        !next.dom().contains(missing_entries(entries, next)[index].0),
    decreases entries.len(),
{
    if entries.len() > 0 {
        let front = missing_entries(entries.drop_last(), next);
        if index < front.len() {
            missing_is_part_at(entries.drop_last(), next, index);
            let i = choose|i: int|
                0 <= i < entries.drop_last().len() && entries.drop_last()[i] == front[index];
            assert(entries[i] == front[index]);
        } else {
            assert(entries[entries.len() - 1] == missing_entries(entries, next)[index]);
        }
    }
}

/// The subscriptions after some are put.
pub open spec fn put_subscriptions(
    subscriptions: Map<Seq<char>, SubscriptionSnapshotView>,
    upserts: Seq<SubscriptionSnapshotView>,
) -> Map<Seq<char>, SubscriptionSnapshotView>
    decreases upserts.len(),
{
    if upserts.len() == 0 {
        subscriptions
    } else {
        put_subscriptions(subscriptions, upserts.drop_last()).insert(
            upserts.last().filter,
            upserts.last(),
        )
    }
}

/// A map after some keys are removed.
pub open spec fn drop_keys<A, B>(map: Map<A, B>, keys: Seq<A>) -> Map<A, B>
    decreases keys.len(),
{
    if keys.len() == 0 {
        map
    } else {
        drop_keys(map, keys.drop_last()).remove(keys.last())
    }
}

/// The offline queue after everything up to a number is removed.
pub open spec fn keep_after(
    offline: Map<u64, PendingView>,
    through: Option<u64>,
) -> Map<u64, PendingView> {
    match through {
        None => offline,
        Some(through) => Map::new(
            |sequence: u64| offline.dom().contains(sequence) && sequence > through,
            |sequence: u64| offline[sequence],
        ),
    }
}

/// The offline queue after publications are appended, unless one of them has the number of another
/// publication.
pub open spec fn append_offline(
    offline: Map<u64, PendingView>,
    appends: Seq<QueuedSnapshotView>,
) -> Option<Map<u64, PendingView>>
    decreases appends.len(),
{
    if appends.len() == 0 {
        Some(offline)
    } else {
        match append_offline(offline, appends.drop_last()) {
            None => None,
            Some(queue) => if !queue.dom().contains(appends.last().sequence) {
                Some(queue.insert(appends.last().sequence, appends.last().pending))
            } else if queue[appends.last().sequence] == appends.last().pending {
                Some(queue)
            } else {
                None
            },
        }
    }
}

/// A map after some keys are removed and some entries put.
pub open spec fn delta_map<B>(map: Map<u16, B>, upserts: Map<u16, B>, deletes: Set<u16>) -> Map<
    u16,
    B,
> {
    Map::new(
        |key: u16|
            upserts.dom().contains(key) || (map.dom().contains(key) && !deletes.contains(key)),
        |key: u16|
            if upserts.dom().contains(key) {
                upserts[key]
            } else {
                map[key]
            },
    )
}

/// Why a merge patch cannot be applied to what is stored of a client.
pub open spec fn merge_defect(client: ClientView, patch: ClientPatchView) -> Option<Seq<char>> {
    if patch.session matches Some(session) && session.next_offline_sequence
        < client.session.next_offline_sequence {
        Some("offline sequence counter moved backwards"@)
    } else if patch.offline_remove_through matches Some(through) && through
        >= client.session.next_offline_sequence {
        Some("offline removal exceeds the issued sequence range"@)
    } else if patch.offline_append.len() > 0 && patch.offline_append[0].sequence
        < client.session.next_offline_sequence {
        Some("offline append reuses an issued sequence"@)
    } else if append_offline(
        keep_after(client.offline, patch.offline_remove_through),
        patch.offline_append,
    ) is None {
        Some("offline append conflicts with an existing sequence"@)
    } else {
        None
    }
}

/// What is stored of a client after a merge patch.
pub open spec fn merged(client: ClientView, patch: ClientPatchView) -> ClientView {
    ClientView {
        session: match patch.session {
            Some(session) => session,
            None => client.session,
        },
        subscriptions: put_subscriptions(
            drop_keys(client.subscriptions, patch.subscription_deletes),
            patch.subscription_upserts,
        ),
        offline: append_offline(
            keep_after(client.offline, patch.offline_remove_through),
            patch.offline_append,
        )->0,
        qos1: delta_map(client.qos1, patch.qos1_upserts, patch.qos1_deletes),
        qos2_publish: delta_map(
            client.qos2_publish,
            patch.qos2_publish_upserts,
            patch.qos2_publish_deletes,
        ),
        qos2_pubrel: client.qos2_pubrel.difference(patch.pubrel_remove).union(patch.pubrel_add),
    }
}

/// What is stored of a client after a reset patch.
pub open spec fn reset_client(patch: ClientPatchView) -> ClientView {
    ClientView {
        session: patch.session->0,
        subscriptions: put_subscriptions(Map::empty(), patch.subscription_upserts),
        offline: append_offline(Map::empty(), patch.offline_append)->0,
        qos1: patch.qos1_upserts,
        qos2_publish: patch.qos2_publish_upserts,
        qos2_pubrel: patch.pubrel_add,
    }
}

/// What is stored of a client after a patch, or why the patch cannot be applied.
pub open spec fn patched_client(
    client: Option<ClientView>,
    patch: ClientPatchView,
) -> Result<Option<ClientView>, Seq<char>> {
    match client_patch_defect(patch) {
        Some(defect) => Err(defect),
        None => match patch.mode {
            ClientPatchMode::Delete => Ok(None),
            ClientPatchMode::Reset => match client_defect(reset_client(patch), patch.client_id) {
                Some(defect) => Err(defect),
                None => Ok(Some(reset_client(patch))),
            },
            ClientPatchMode::Merge => match client {
                None => Err("client merge patch has no persisted session"@),
                Some(client) => match merge_defect(client, patch) {
                    Some(defect) => Err(defect),
                    None => match client_defect(merged(client, patch), patch.client_id) {
                        Some(defect) => Err(defect),
                        None => Ok(Some(merged(client, patch))),
                    },
                },
            },
        },
    }
}

/// Everything that is stored.
pub struct PersistentProjection {
    pub clients: OrderedMap<String, ClientSnapshot>,
    pub retained: OrderedMap<String, RetainedMessage>,
}

/// What a `PersistentProjection` stands for.
pub struct ProjectionView {
    pub clients: Map<Seq<char>, ClientView>,
    pub retained: Map<Seq<char>, RetainedView>,
}

impl DeepView for PersistentProjection {
    type V = ProjectionView;

    open spec fn deep_view(&self) -> ProjectionView {
        ProjectionView {
            clients: self.clients.deep_view(),
            retained: self.retained.deep_view(),
        }
    }
}

impl Value for PersistentProjection {
    fn dup(&self) -> (copy: Self) {
        PersistentProjection {
            clients: self.clients.dup(),
            retained: self.retained.dup(),
        }
    }

    fn same(&self, other: &Self) -> (result: bool) {
        self.clients.same(&other.clients)
            && self.retained.same(&other.retained)
    }
}

/// A map with a key set or removed.
pub open spec fn with_key<A, B>(map: Map<A, B>, key: A, value: Option<B>) -> Map<A, B> {
    match value {
        Some(value) => map.insert(key, value),
        None => map.remove(key),
    }
}

/// What a map has under a key.
pub open spec fn lookup<A, B>(map: Map<A, B>, key: A) -> Option<B> {
    if map.dom().contains(key) {
        Some(map[key])
    } else {
        None
    }
}

/// Everything that is stored after a patch, or why the patch cannot be applied.
pub open spec fn patched(
    projection: ProjectionView,
    patch: StoragePatchView,
) -> Result<ProjectionView, Seq<char>> {
    match patch_defect(patch) {
        Some(defect) => Err(defect),
        None => match patch {
            StoragePatchView::Client(patch) => match patched_client(
                lookup(projection.clients, patch.client_id),
                patch,
            ) {
                Err(defect) => Err(defect),
                Ok(client) => Ok(
                    ProjectionView {
                        clients: with_key(projection.clients, patch.client_id, client),
                        ..projection
                    },
                ),
            },
            StoragePatchView::Retained(patch) => Ok(
                ProjectionView {
                    retained: with_key(projection.retained, patch.topic_name, patch.message),
                    ..projection
                },
            ),
        },
    }
}

/// Everything that is stored after some patches, or why one of them cannot be applied.
pub open spec fn patched_all(
    projection: ProjectionView,
    patches: Seq<StoragePatchView>,
) -> Result<ProjectionView, Seq<char>>
    decreases patches.len(),
{
    if patches.len() == 0 {
        Ok(projection)
    } else {
        match patched_all(projection, patches.drop_last()) {
            Err(defect) => Err(defect),
            Ok(projection) => patched(projection, patches.last()),
        }
    }
}

/// Removes some keys and puts some entries.
fn apply_map_delta<V: Value>(
    target: &mut OrderedMap<u16, V>,
    upserts: &OrderedMap<u16, V>,
    deletes: &IdSet,
)
    ensures
        final(target).deep_view() == delta_map(
            old(target).deep_view(),
            upserts.deep_view(),
            deletes.deep_view().dom(),
        ),
{
    let ghost start = target.deep_view();
    let count: usize = deletes.len();
    let ghost list = deletes.entries();
    let mut index: usize = 0;
    while index < count
        invariant
            index <= count == list.len(),
            list == deletes.entries(),
            forall|key: u16| #[trigger]
                target.deep_view().dom().contains(key) <==> start.dom().contains(key) && !exists|
                    i: int,
                |
                    0 <= i < index && (#[trigger] list[i]).0 == key,
            forall|key: u16| #[trigger]
                target.deep_view().dom().contains(key) ==> target.deep_view()[key] == start[key],
        decreases count - index,
    {
        let key: u16 = *deletes.key_at(index);
        let ghost before = target.deep_view();
        target.remove(&key);
        proof {
            assert(list[index as int].0 == key);
            assert forall|k: u16| #[trigger]
                target.deep_view().dom().contains(k) <==> start.dom().contains(k) && !exists|
                    i: int,
                |
                    0 <= i < index + 1 && (#[trigger] list[i]).0 == k by {
                if k != key && before.dom().contains(k) {
                    assert forall|i: int| 0 <= i < index + 1 implies (#[trigger] list[i]).0
                        != k by {}
                }
            }
        }
        index += 1;
    }
    let ghost dropped = target.deep_view();
    proof {
        assert forall|key: u16| #[trigger] dropped.dom().contains(key) <==> start.dom().contains(
            key,
        ) && !deletes.deep_view().dom().contains(key) by {
            if deletes.deep_view().dom().contains(key) {
                key_has_entry(list, key);
                assert(list[key_index(list, key)].0 == key);
            } else {
                assert forall|i: int| 0 <= i < index implies (#[trigger] list[i]).0 != key by {
                    if list[i].0 == key {
                        assert(has_key(list, key));
                    }
                }
            }
        }
    }
    let put_count: usize = upserts.len();
    let ghost puts = upserts.entries();
    let mut put_index: usize = 0;
    while put_index < put_count
        invariant
            put_index <= put_count == puts.len(),
            puts == upserts.entries(),
            ascending::<u16, V::V>(puts),
            forall|key: u16| #[trigger]
                target.deep_view().dom().contains(key) <==> dropped.dom().contains(key) || exists|
                    i: int,
                |
                    0 <= i < put_index && (#[trigger] puts[i]).0 == key,
            forall|i: int|
                0 <= i < put_index ==> target.deep_view()[(#[trigger] puts[i]).0] == puts[i].1,
            forall|key: u16| #[trigger]
                dropped.dom().contains(key) && !(exists|i: int|
                    0 <= i < put_index && (#[trigger] puts[i]).0 == key)
                    ==> target.deep_view()[key] == dropped[key],
        decreases put_count - put_index,
    {
        let key: u16 = *upserts.key_at(put_index);
        let ghost before = target.deep_view();
        target.insert(key, upserts.value_at(put_index).dup());
        proof {
            assert(puts[put_index as int].0 == key);
            assert forall|k: u16| #[trigger]
                target.deep_view().dom().contains(k) <==> dropped.dom().contains(k) || exists|
                    i: int,
                |
                    0 <= i < put_index + 1 && (#[trigger] puts[i]).0 == k by {
                if before.dom().contains(k) && !dropped.dom().contains(k) {
                    let i = choose|i: int| 0 <= i < put_index && (#[trigger] puts[i]).0 == k;
                    assert(puts[i].0 == k);
                }
            }
            assert forall|i: int| 0 <= i < put_index + 1 implies target.deep_view()[(
            #[trigger] puts[i]).0] == puts[i].1 by {
                if i < put_index {
                    assert(u16::before(puts[i].0, puts[put_index as int].0));
                }
            }
            assert forall|k: u16| #[trigger] dropped.dom().contains(k) && !(exists|i: int|
                0 <= i < put_index + 1 && (#[trigger] puts[i]).0 == k) implies
                target.deep_view()[k] == dropped[k] by {
                assert(k != key) by {
                    if k == key {
                        assert(puts[put_index as int].0 == k);
                    }
                }
                assert(!exists|i: int| 0 <= i < put_index && (#[trigger] puts[i]).0 == k) by {
                    if exists|i: int| 0 <= i < put_index && (#[trigger] puts[i]).0 == k {
                        let i = choose|i: int| 0 <= i < put_index && (#[trigger] puts[i]).0 == k;
                        assert(puts[i].0 == k);
                    }
                }
            }
        }
        put_index += 1;
    }
    proof {
        let expected = delta_map(start, upserts.deep_view(), deletes.deep_view().dom());
        assert forall|key: u16| upserts.deep_view().dom().contains(key) == exists|i: int|
            0 <= i < put_index && (#[trigger] puts[i]).0 == key by {
            if upserts.deep_view().dom().contains(key) {
                key_has_entry(puts, key);
                assert(puts[key_index(puts, key)].0 == key);
            }
            if exists|i: int| 0 <= i < put_index && (#[trigger] puts[i]).0 == key {
                assert(has_key(puts, key));
            }
        }
        assert forall|key: u16| #[trigger] expected.dom().contains(key) implies
            target.deep_view()[key] == expected[key] by {
            if upserts.deep_view().dom().contains(key) {
                key_has_entry(puts, key);
                assert(puts[key_index(puts, key)].0 == key);
            } else {
                assert(dropped.dom().contains(key));
                assert forall|i: int| 0 <= i < put_index implies (#[trigger] puts[i]).0 != key by {
                    if puts[i].0 == key {
                        assert(has_key(puts, key));
                    }
                }
            }
        }
        assert(target.deep_view() =~= expected);
    }
}

/// Puts some subscriptions.
fn apply_upserts(
    subscriptions: &mut OrderedMap<String, SubscriptionSnapshot>,
    upserts: &Vec<SubscriptionSnapshot>,
)
    ensures
        final(subscriptions).deep_view() == put_subscriptions(
            old(subscriptions).deep_view(),
            upserts.deep_view(),
        ),
{
    let ghost start = subscriptions.deep_view();
    let ghost list = upserts.deep_view();
    let mut index: usize = 0;
    while index < upserts.len()
        invariant
            index <= upserts.len(),
            list == upserts.deep_view(),
            subscriptions.deep_view() == put_subscriptions(start, list.take(index as int)),
        decreases upserts.len() - index,
    {
        let subscription: SubscriptionSnapshot = upserts[index].dup();
        assert(list.take(index + 1).drop_last() =~= list.take(index as int));
        assert(list.take(index + 1).last() == subscription.deep_view());
        subscriptions.insert(subscription.filter.dup(), subscription);
        index += 1;
    }
    assert(list.take(index as int) =~= list);
}

/// Removes the subscriptions under some filters.
fn apply_deletes(
    subscriptions: &mut OrderedMap<String, SubscriptionSnapshot>,
    deletes: &Vec<String>,
)
    ensures
        final(subscriptions).deep_view() == drop_keys(
            old(subscriptions).deep_view(),
            deletes.deep_view(),
        ),
{
    let ghost start = subscriptions.deep_view();
    let ghost list = deletes.deep_view();
    let mut index: usize = 0;
    while index < deletes.len()
        invariant
            index <= deletes.len(),
            list == deletes.deep_view(),
            subscriptions.deep_view() == drop_keys(start, list.take(index as int)),
        decreases deletes.len() - index,
    {
        assert(list.take(index + 1).drop_last() =~= list.take(index as int));
        assert(list.take(index + 1).last() == deletes@[index as int]@);
        subscriptions.remove(&deletes[index]);
        index += 1;
    }
    assert(list.take(index as int) =~= list);
}

/// Removes everything up to a number from an offline queue.
fn apply_removal(offline: &mut OrderedMap<u64, PendingSnapshot>, through: Option<u64>)
    ensures
        final(offline).deep_view() == keep_after(old(offline).deep_view(), through),
{
    let ghost start = offline.deep_view();
    if let Some(through) = through {
        let mut count: usize = offline.len();
        while count > 0 && *offline.key_at(0) <= through
            invariant
                count == offline.entries().len(),
                ascending::<u64, PendingView>(offline.entries()),
                forall|sequence: u64| #[trigger]
                    offline.deep_view().dom().contains(sequence) ==> start.dom().contains(sequence)
                        && offline.deep_view()[sequence] == start[sequence],
                forall|sequence: u64| #[trigger]
                    start.dom().contains(sequence) && sequence > through
                        ==> offline.deep_view().dom().contains(sequence),
            decreases count,
        {
            offline.remove_at(0);
            count = offline.len();
        }
        proof {
            let list = offline.entries();
            assert forall|sequence: u64| #[trigger]
                offline.deep_view().dom().contains(sequence) implies sequence > through by {
                key_has_entry(list, sequence);
                let i = key_index(list, sequence);
                if i > 0 {
                    assert(u64::before(list[0].0, list[i].0));
                }
            }
            assert(offline.deep_view() =~= keep_after(start, Some(through)));
        }
    }
}

/// Appends publications to an offline queue, unless one of them has the number of another
/// publication.
fn apply_appends(
    offline: &mut OrderedMap<u64, PendingSnapshot>,
    appends: &Vec<QueuedSnapshot>,
) -> (result: bool)
    ensures
        result <==> append_offline(old(offline).deep_view(), appends.deep_view()) is Some,
        result ==> append_offline(old(offline).deep_view(), appends.deep_view()) == Some(
            final(offline).deep_view(),
        ),
{
    let ghost start = offline.deep_view();
    let ghost list = appends.deep_view();
    let mut index: usize = 0;
    while index < appends.len()
        invariant
            index <= appends.len(),
            list == appends.deep_view(),
            start == old(offline).deep_view(),
            append_offline(start, list.take(index as int)) == Some(offline.deep_view()),
        decreases appends.len() - index,
    {
        let queued: &QueuedSnapshot = &appends[index];
        assert(list.take(index + 1).drop_last() =~= list.take(index as int));
        assert(list.take(index + 1).last() == queued.deep_view());
        let conflict: bool = match offline.get(&queued.sequence) {
            Some(existing) => !existing.same(&queued.pending),
            None => false,
        };
        if conflict {
            proof {
                append_conflict(start, list, index + 1);
            }
            return false;
        }
        if !offline.contains_key(&queued.sequence) {
            offline.insert(queued.sequence, queued.pending.dup());
        }
        index += 1;
    }
    assert(list.take(index as int) =~= list);
    true
}

/// A conflict among the first appends is one among all of them.
proof fn append_conflict(
    offline: Map<u64, PendingView>,
    appends: Seq<QueuedSnapshotView>,
    count: int,
)
    requires
        0 <= count <= appends.len(),
        append_offline(offline, appends.take(count)) is None,
    ensures
        append_offline(offline, appends) is None,
    decreases appends.len(),
{
    if count == appends.len() {
        assert(appends.take(count) =~= appends);
    } else {
        assert(appends.drop_last().take(count) =~= appends.take(count));
        append_conflict(offline, appends.drop_last(), count);
    }
}

/// Appends in ascending order, all past what a queue has, meet no conflict: the queue gains each
/// of them.
pub proof fn appends_without_conflict(
    offline: Map<u64, PendingView>,
    appends: Seq<QueuedSnapshotView>,
)
    requires
        forall|i: int, j: int|
            #![trigger appends[i], appends[j]]
            0 <= i < j < appends.len() ==> appends[i].sequence < appends[j].sequence,
        forall|i: int|
            0 <= i < appends.len() ==> !offline.dom().contains((#[trigger] appends[i]).sequence),
    ensures
        append_offline(offline, appends) is Some,
        forall|sequence: u64| #[trigger]
            append_offline(
                offline,
                appends,
            )->0.dom().contains(sequence) <==> offline.dom().contains(
                sequence,
            ) || exists|i: int|
                0 <= i < appends.len() && (#[trigger] appends[i]).sequence == sequence,
        forall|i: int|
            0 <= i < appends.len() ==> append_offline(offline, appends)->0[(
            #[trigger] appends[i]).sequence] == appends[i].pending,
        forall|sequence: u64| #[trigger]
            offline.dom().contains(sequence) ==> append_offline(offline, appends)->0[sequence]
                == offline[sequence],
    decreases appends.len(),
{
    if appends.len() > 0 {
        let front = appends.drop_last();
        let last = appends.len() - 1;
        assert forall|i: int, j: int|
            #![trigger front[i], front[j]]
            0 <= i < j < front.len() implies front[i].sequence < front[j].sequence by {
            assert(appends[i].sequence < appends[j].sequence);
        }
        assert forall|i: int| 0 <= i < front.len() implies !offline.dom().contains(
            (#[trigger] front[i]).sequence,
        ) by {
            assert(front[i] == appends[i]);
        }
        appends_without_conflict(offline, front);
        let queue = append_offline(offline, front)->0;
        let key = appends[last].sequence;
        assert(!queue.dom().contains(key)) by {
            if queue.dom().contains(key) {
                let i = choose|i: int|
                    0 <= i < front.len() && (#[trigger] front[i]).sequence == key;
                assert(appends[i].sequence < appends[last].sequence);
            }
        }
        let after = append_offline(offline, appends)->0;
        assert(after == queue.insert(key, appends[last].pending));
        assert forall|sequence: u64| #[trigger] after.dom().contains(sequence)
            <==> offline.dom().contains(sequence) || exists|i: int|
                0 <= i < appends.len() && (#[trigger] appends[i]).sequence == sequence by {
            if queue.dom().contains(sequence) && !offline.dom().contains(sequence) {
                let i = choose|i: int|
                    0 <= i < front.len() && (#[trigger] front[i]).sequence == sequence;
                assert(appends[i].sequence == sequence);
            }
            if exists|i: int|
                0 <= i < appends.len() && (#[trigger] appends[i]).sequence == sequence {
                let i = choose|i: int|
                    0 <= i < appends.len() && (#[trigger] appends[i]).sequence == sequence;
                if i < last {
                    assert(front[i].sequence == sequence);
                }
            }
            assert(appends[last].sequence == key);
        }
        assert forall|i: int| 0 <= i < appends.len() implies after[(
        #[trigger] appends[i]).sequence] == appends[i].pending by {
            if i < last {
                assert(front[i] == appends[i]);
                assert(appends[i].sequence < appends[last].sequence);
            }
        }
    }
}

impl ClientSnapshot {
    /// What is stored of a client after a reset patch.
    fn from_reset_patch(patch: &ClientPatch) -> (result: Result<Self, &'static str>)
        requires
            client_patch_defect(patch.deep_view()) is None,
            patch.mode == ClientPatchMode::Reset,
        ensures
            match result {
                Ok(client) => client.deep_view() == reset_client(patch.deep_view())
                    && client_defect(client.deep_view(), patch.deep_view().client_id) is None,
                Err(message) => client_defect(
                    reset_client(patch.deep_view()),
                    patch.deep_view().client_id,
                ) == Some(message@),
            },
    {
        let session: SessionSnapshot = match &patch.session {
            Some(session) => *session,
            None => return Err("reset client patch has no session"),
        };
        let mut client: ClientSnapshot = ClientSnapshot {
            session,
            subscriptions: OrderedMap::new(),
            offline: OrderedMap::new(),
            qos1: patch.qos1_upserts.dup(),
            qos2_publish: patch.qos2_publish_upserts.dup(),
            qos2_pubrel: patch.pubrel_add.dup(),
        };
        apply_upserts(&mut client.subscriptions, &patch.subscription_upserts);
        proof {
            appends_without_conflict(
                Map::<u64, PendingView>::empty(),
                patch.deep_view().offline_append,
            );
        }
        if !apply_appends(&mut client.offline, &patch.offline_append) {
            return Err("duplicate offline sequence in reset patch");
        }
        match client.validate(patch.client_id.as_str()) {
            Ok(()) => Ok(client),
            Err(defect) => Err(defect),
        }
    }

    /// What is stored of a client after a merge patch.
    fn apply_merge(&self, patch: &ClientPatch) -> (result: Result<Self, &'static str>)
        requires
            client_patch_defect(patch.deep_view()) is None,
        ensures
            match result {
                Ok(client) => client.deep_view() == merged(self.deep_view(), patch.deep_view())
                    && merge_defect(self.deep_view(), patch.deep_view()) is None,
                Err(message) => merge_defect(self.deep_view(), patch.deep_view()) == Some(message@),
            },
    {
        if let Some(session) = &patch.session {
            if session.next_offline_sequence < self.session.next_offline_sequence {
                return Err("offline sequence counter moved backwards");
            }
        }
        if let Some(through) = patch.offline_remove_through {
            if through >= self.session.next_offline_sequence {
                return Err("offline removal exceeds the issued sequence range");
            }
        }
        if patch.offline_append.len() > 0 {
            assert(patch.deep_view().offline_append[0].sequence
                == patch.offline_append@[0].sequence);
            if patch.offline_append[0].sequence < self.session.next_offline_sequence {
                return Err("offline append reuses an issued sequence");
            }
        }
        let mut client: ClientSnapshot = self.dup();
        if let Some(session) = &patch.session {
            client.session = *session;
        }
        apply_deletes(&mut client.subscriptions, &patch.subscription_deletes);
        apply_upserts(&mut client.subscriptions, &patch.subscription_upserts);
        apply_removal(&mut client.offline, patch.offline_remove_through);
        if !apply_appends(&mut client.offline, &patch.offline_append) {
            return Err("offline append conflicts with an existing sequence");
        }
        apply_map_delta(&mut client.qos1, &patch.qos1_upserts, &patch.qos1_deletes);
        apply_map_delta(
            &mut client.qos2_publish,
            &patch.qos2_publish_upserts,
            &patch.qos2_publish_deletes,
        );
        apply_map_delta(&mut client.qos2_pubrel, &patch.pubrel_add, &patch.pubrel_remove);
        proof {
            let view = patch.deep_view();
            assert(client.deep_view().qos2_pubrel =~= self.deep_view().qos2_pubrel.difference(
                view.pubrel_remove,
            ).union(view.pubrel_add));
        }
        Ok(client)
    }
}

impl PersistentProjection {
    /// Nothing is stored.
    pub fn new() -> (result: Self)
        ensures
            result.deep_view() == (
                ProjectionView { clients: Map::empty(), retained: Map::empty() }
            ),
    {
        PersistentProjection { clients: OrderedMap::new(), retained: OrderedMap::new() }
    }

    /// Applies a patch. A patch that cannot be applied changes nothing.
    pub fn apply_patch(&mut self, patch: &StoragePatch) -> (result: Result<(), &'static str>)
        ensures
            match result {
                Ok(()) => patched(old(self).deep_view(), patch.deep_view()) == Ok::<
                    ProjectionView,
                    Seq<char>,
                >(final(self).deep_view()),
                Err(message) => patched(old(self).deep_view(), patch.deep_view()) == Err::<
                    ProjectionView,
                    Seq<char>,
                >(message@) && final(self).deep_view() == old(self).deep_view(),
            },
    {
        match patch.validate() {
            Ok(()) => {},
            Err(defect) => return Err(defect),
        }
        match patch {
            StoragePatch::Client(patch) => self.apply_client_patch(patch),
            StoragePatch::Retained(patch) => {
                match &patch.message {
                    Some(message) => {
                        self.retained.insert(patch.topic_name.dup(), message.dup());
                    },
                    None => {
                        self.retained.remove(&patch.topic_name);
                    },
                }
                Ok(())
            },
        }
    }

    /// Applies a client patch.
    fn apply_client_patch(&mut self, patch: &ClientPatch) -> (result: Result<(), &'static str>)
        requires
            client_patch_defect(patch.deep_view()) is None,
        ensures
            match result {
                Ok(()) => patched_client(
                    lookup(old(self).deep_view().clients, patch.deep_view().client_id),
                    patch.deep_view(),
                ) matches Ok(client) && final(self).deep_view() == (ProjectionView {
                    clients: with_key(
                        old(self).deep_view().clients,
                        patch.deep_view().client_id,
                        client,
                    ),
                    ..old(self).deep_view()
                }),
                Err(message) => patched_client(
                    lookup(old(self).deep_view().clients, patch.deep_view().client_id),
                    patch.deep_view(),
                ) == Err::<Option<ClientView>, Seq<char>>(message@) && final(self).deep_view()
                    == old(self).deep_view(),
            },
    {
        match patch.mode {
            ClientPatchMode::Delete => {
                self.clients.remove(&patch.client_id);
                Ok(())
            },
            ClientPatchMode::Reset => match ClientSnapshot::from_reset_patch(patch) {
                Ok(client) => {
                    self.clients.insert(patch.client_id.dup(), client);
                    Ok(())
                },
                Err(defect) => Err(defect),
            },
            ClientPatchMode::Merge => {
                let merged: Result<ClientSnapshot, &'static str> = match self.clients.get(
                    &patch.client_id,
                ) {
                    None => return Err("client merge patch has no persisted session"),
                    Some(client) => client.apply_merge(patch),
                };
                match merged {
                    Err(defect) => Err(defect),
                    Ok(next) => match next.validate(patch.client_id.as_str()) {
                        Err(defect) => Err(defect),
                        Ok(()) => {
                            self.clients.insert(patch.client_id.dup(), next);
                            Ok(())
                        },
                    },
                }
            },
        }
    }
}

} // verus!
