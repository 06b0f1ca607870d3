//! What patches do to what is stored.
use vstd::prelude::*;

use crate::message::PendingView;
use crate::ordered_map::OrderedKey;
use crate::ordered_map::ascending;
use crate::ordered_map::entries_of;
use crate::ordered_map::key_has_entry;
use crate::ordered_map::key_index;
use crate::ordered_map::listed;
use crate::ordered_map::map_of_entry;
use crate::storage::delta::ProjectionView;
use crate::storage::delta::append_offline;
use crate::storage::delta::appends_without_conflict;
use crate::storage::delta::changed;
use crate::storage::delta::changed_entries;
use crate::storage::delta::delta_map;
use crate::storage::delta::diff_deletes;
use crate::storage::delta::diff_upserts;
use crate::storage::delta::drop_keys;
use crate::storage::delta::empty_patch;
use crate::storage::delta::keep_after;
use crate::storage::delta::keys_of;
use crate::storage::delta::lookup;
use crate::storage::delta::merge_defect;
use crate::storage::delta::merge_patch;
use crate::storage::delta::merged;
use crate::storage::delta::missing_entries;
use crate::storage::delta::offline_diff;
use crate::storage::delta::patch_between;
use crate::storage::delta::patched;
use crate::storage::delta::patched_client;
use crate::storage::delta::put_subscriptions;
use crate::storage::delta::queued_of;
use crate::storage::delta::reset_client;
use crate::storage::delta::reset_patch;
use crate::storage::delta::values_of;
use crate::storage::snapshot::ClientPatchMode;
use crate::storage::snapshot::ClientView;
use crate::storage::snapshot::StoragePatchView;
use crate::storage::snapshot::SubscriptionSnapshotView;
use crate::storage::snapshot::client_defect;
use crate::storage::snapshot::client_patch_defect;
use crate::storage::snapshot::deletes_agree;
use crate::storage::snapshot::empty_delta;
use crate::storage::snapshot::has_filter;
use crate::storage::snapshot::sound_upserts;
use crate::storage::snapshot::subscription_defect;
use crate::storage::snapshot::upserts_defect;
use crate::storage::snapshot::valid_appends;

verus! {

/// What is known of a client is without defect.
pub open spec fn presentable(client: ClientView, client_id: Seq<char>) -> bool {
    &&& client_defect(client, client_id) is None
    &&& listed::<String, SubscriptionSnapshotView>(client.subscriptions)
    &&& listed::<u64, PendingView>(client.offline)
}

/// What is stored of a client, without defect, with finite tables, and without packet identifier
/// zero.
pub open spec fn storable(client: ClientView, client_id: Seq<char>) -> bool {
    &&& client_id.len() > 0
    &&& presentable(client, client_id)
    &&& !client.qos1.dom().contains(0)
    &&& !client.qos2_publish.dom().contains(0)
    &&& !client.qos2_pubrel.contains(0)
}

/// What is known of a client is in finite tables, with each subscription under its own filter.
pub open spec fn tabled(client: ClientView) -> bool {
    &&& listed::<String, SubscriptionSnapshotView>(client.subscriptions)
    &&& listed::<u64, PendingView>(client.offline)
    &&& forall|filter: Seq<char>| #[trigger]
        client.subscriptions.dom().contains(filter) ==> client.subscriptions[filter].filter
            == filter
}

/// The offline queue of a client gains only publications with numbers not issued before.
pub open spec fn evolves(previous: ClientView, next: ClientView) -> bool {
    &&& previous.session.next_offline_sequence <= next.session.next_offline_sequence
    &&& forall|sequence: u64| #[trigger]
        next.offline.dom().contains(sequence) && !previous.offline.dom().contains(sequence)
            ==> sequence >= previous.session.next_offline_sequence
}

/// Removing keys leaves just the others.
proof fn drop_keys_leaves<A, B>(map: Map<A, B>, keys: Seq<A>)
    ensures
        forall|key: A| #[trigger]
            drop_keys(map, keys).dom().contains(key) <==> map.dom().contains(key)
                && !keys.contains(key),
        forall|key: A| #[trigger]
            drop_keys(map, keys).dom().contains(key) ==> drop_keys(map, keys)[key] == map[key],
    decreases keys.len(),
{
    if keys.len() > 0 {
        let front = keys.drop_last();
        drop_keys_leaves(map, front);
        assert(drop_keys(map, keys) == drop_keys(map, front).remove(keys.last()));
        assert forall|key: A| #[trigger] drop_keys(map, keys).dom().contains(key)
            <==> map.dom().contains(key) && !keys.contains(key) by {
            assert(drop_keys(map, front).dom().contains(key) <==> map.dom().contains(key)
                && !front.contains(key));
            if front.contains(key) {
                let i = front.index_of(key);
                assert(keys[i] == key);
            }
            if keys.contains(key) && key != keys.last() {
                let i = keys.index_of(key);
                assert(front[i] == key);
            }
            assert(keys[keys.len() - 1] == keys.last());
        }
        assert forall|key: A| #[trigger] drop_keys(map, keys).dom().contains(key) implies
            drop_keys(map, keys)[key] == map[key] by {
            assert(drop_keys(map, front).dom().contains(key));
        }
    }
}

/// Putting subscriptions under distinct filters gives each its filter and leaves the others.
proof fn put_subscriptions_gives(
    map: Map<Seq<char>, SubscriptionSnapshotView>,
    upserts: Seq<SubscriptionSnapshotView>,
)
    requires
        forall|i: int, j: int|
            #![trigger upserts[i], upserts[j]]
            0 <= i < j < upserts.len() ==> upserts[i].filter != upserts[j].filter,
    ensures
        forall|filter: Seq<char>| #[trigger]
            put_subscriptions(map, upserts).dom().contains(filter) <==> map.dom().contains(filter)
                || has_filter(upserts, filter),
        forall|i: int|
            0 <= i < upserts.len() ==> put_subscriptions(map, upserts)[(
            #[trigger] upserts[i]).filter] == upserts[i],
        forall|filter: Seq<char>| #[trigger]
            map.dom().contains(filter) && !has_filter(upserts, filter) ==> put_subscriptions(
                map,
                upserts,
            )[filter] == map[filter],
    decreases upserts.len(),
{
    if upserts.len() > 0 {
        let front = upserts.drop_last();
        let last = upserts.len() - 1;
        assert forall|i: int, j: int|
            #![trigger front[i], front[j]]
            0 <= i < j < front.len() implies front[i].filter != front[j].filter by {
            assert(upserts[i].filter != upserts[j].filter);
        }
        put_subscriptions_gives(map, front);
        assert forall|filter: Seq<char>| has_filter(upserts, filter) == (has_filter(front, filter)
            || filter == upserts[last].filter) by {
            if has_filter(front, filter) {
                let i = choose|i: int|
                    0 <= i < front.len() && (#[trigger] front[i]).filter == filter;
                assert(upserts[i].filter == filter);
            }
            if has_filter(upserts, filter) {
                let i = choose|i: int|
                    0 <= i < upserts.len() && (#[trigger] upserts[i]).filter == filter;
                if i < last {
                    assert(front[i].filter == filter);
                }
            }
        }
        assert forall|filter: Seq<char>| #[trigger]
            put_subscriptions(map, upserts).dom().contains(filter) <==> map.dom().contains(filter)
                || has_filter(upserts, filter) by {
            assert(put_subscriptions(map, front).dom().contains(filter) <==> map.dom().contains(
                filter,
            ) || has_filter(front, filter));
            assert(has_filter(upserts, filter) == (has_filter(front, filter) || filter
                == upserts[last].filter));
        }
        assert forall|i: int| 0 <= i < upserts.len() implies put_subscriptions(map, upserts)[(
        #[trigger] upserts[i]).filter] == upserts[i] by {
            if i < last {
                assert(front[i] == upserts[i]);
                assert(upserts[i].filter != upserts[last].filter);
            }
        }
        assert forall|filter: Seq<char>| #[trigger] map.dom().contains(filter) && !has_filter(
            upserts,
            filter,
        ) implies put_subscriptions(map, upserts)[filter] == map[filter] by {
            assert(has_filter(upserts, filter) == (has_filter(front, filter) || filter
                == upserts[last].filter));
        }
    }
}

/// The changed entries are ascending, and are just the entries that changed.
proof fn changed_entries_are<K: OrderedKey, W>(
    previous: Map<K::V, W>,
    entries: Seq<(K::V, W)>,
)
    requires
        ascending::<K, W>(entries),
    ensures
        ascending::<K, W>(changed_entries(previous, entries)),
        forall|i: int|
            0 <= i < changed_entries(previous, entries).len() ==> changed(
                previous,
                (#[trigger] changed_entries(previous, entries)[i]).0,
                changed_entries(previous, entries)[i].1,
            ) && entries.contains(changed_entries(previous, entries)[i]),
        forall|j: int|
            0 <= j < entries.len() && changed(previous, (#[trigger] entries[j]).0, entries[j].1)
                ==> changed_entries(previous, entries).contains(entries[j]),
    decreases entries.len(),
{
    if entries.len() > 0 {
        let rest = entries.drop_last();
        let last = entries.len() - 1;
        let front = changed_entries(previous, rest);
        let all = changed_entries(previous, entries);
        assert forall|i: int, j: int|
            #![trigger rest[i], rest[j]]
            0 <= i < j < rest.len() implies K::before(rest[i].0, rest[j].0) by {
            assert(K::before(entries[i].0, entries[j].0));
        }
        changed_entries_are::<K, W>(previous, rest);
        assert forall|i: int| 0 <= i < front.len() implies (#[trigger] front[i]) == all[i]
            && entries.contains(front[i]) && K::before(front[i].0, entries[last].0) by {
            let j = rest.index_of(front[i]);
            assert(entries[j] == front[i]);
            assert(K::before(entries[j].0, entries[last].0));
        }
        assert forall|i: int, j: int|
            #![trigger all[i], all[j]]
            0 <= i < j < all.len() implies K::before(all[i].0, all[j].0) by {
            assert(all[i] == front[i]);
            if j < front.len() {
                assert(all[j] == front[j]);
            }
        }
        assert forall|i: int| 0 <= i < all.len() implies changed(
            previous,
            (#[trigger] all[i]).0,
            all[i].1,
        ) && entries.contains(all[i]) by {
            if i < front.len() {
                assert(all[i] == front[i]);
            } else {
                assert(entries[last] == all[i]);
            }
        }
        assert forall|j: int|
            0 <= j < entries.len() && changed(
                previous,
                (#[trigger] entries[j]).0,
                entries[j].1,
            ) implies all.contains(entries[j]) by {
            if j < last {
                assert(rest[j] == entries[j]);
                let i = front.index_of(rest[j]);
                assert(all[i] == entries[j]);
            } else {
                assert(all[all.len() - 1] == entries[j]);
            }
        }
    }
}

/// The missing entries are ascending, and are just the entries that the map lacks.
proof fn missing_entries_are<K: OrderedKey, W>(entries: Seq<(K::V, W)>, next: Map<K::V, W>)
    requires
        ascending::<K, W>(entries),
    ensures
        ascending::<K, W>(missing_entries(entries, next)),
        missing_entries(entries, next).len() <= entries.len(),
        forall|i: int|
            0 <= i < missing_entries(entries, next).len() ==> !next.dom().contains(
                (#[trigger] missing_entries(entries, next)[i]).0,
            ) && entries.contains(missing_entries(entries, next)[i]),
        forall|j: int|
            0 <= j < entries.len() && !next.dom().contains((#[trigger] entries[j]).0)
                ==> missing_entries(entries, next).contains(entries[j]),
    decreases entries.len(),
{
    if entries.len() > 0 {
        let rest = entries.drop_last();
        let last = entries.len() - 1;
        let front = missing_entries(rest, next);
        let all = missing_entries(entries, next);
        assert forall|i: int, j: int|
            #![trigger rest[i], rest[j]]
            0 <= i < j < rest.len() implies K::before(rest[i].0, rest[j].0) by {
            assert(K::before(entries[i].0, entries[j].0));
        }
        missing_entries_are::<K, W>(rest, next);
        assert forall|i: int| 0 <= i < front.len() implies (#[trigger] front[i]) == all[i]
            && entries.contains(front[i]) && K::before(front[i].0, entries[last].0) by {
            let j = rest.index_of(front[i]);
            assert(entries[j] == front[i]);
            assert(K::before(entries[j].0, entries[last].0));
        }
        assert forall|i: int, j: int|
            #![trigger all[i], all[j]]
            0 <= i < j < all.len() implies K::before(all[i].0, all[j].0) by {
            assert(all[i] == front[i]);
            if j < front.len() {
                assert(all[j] == front[j]);
            }
        }
        assert forall|i: int| 0 <= i < all.len() implies !next.dom().contains(
            (#[trigger] all[i]).0,
        ) && entries.contains(all[i]) by {
            if i < front.len() {
                assert(all[i] == front[i]);
            } else {
                assert(entries[last] == all[i]);
            }
        }
        assert forall|j: int|
            0 <= j < entries.len() && !next.dom().contains(
                (#[trigger] entries[j]).0,
            ) implies all.contains(entries[j]) by {
            if j < last {
                assert(rest[j] == entries[j]);
                let i = front.index_of(rest[j]);
                assert(all[i] == entries[j]);
            } else {
                assert(all[all.len() - 1] == entries[j]);
            }
        }
    }
}

/// Subscriptions listed by filter are under distinct filters, and none is defective.
proof fn listed_upserts(
    subscriptions: Map<Seq<char>, SubscriptionSnapshotView>,
    entries: Seq<(Seq<char>, SubscriptionSnapshotView)>,
    client_id: Seq<char>,
)
    requires
        ascending::<String, SubscriptionSnapshotView>(entries),
        forall|i: int|
            0 <= i < entries.len() ==> subscriptions.dom().contains((#[trigger] entries[i]).0)
                && subscriptions[entries[i].0] == entries[i].1,
        forall|filter: Seq<char>| #[trigger]
            subscriptions.dom().contains(filter) ==> subscriptions[filter].filter == filter,
    ensures
        (forall|filter: Seq<char>| #[trigger]
            subscriptions.dom().contains(filter) ==> subscription_defect(
                subscriptions[filter],
                client_id,
            ) is None) ==> upserts_defect(values_of(entries), client_id) is None,
        forall|i: int, j: int|
            #![trigger values_of(entries)[i], values_of(entries)[j]]
            0 <= i < j < entries.len() ==> values_of(entries)[i].filter != values_of(
                entries,
            )[j].filter,
        forall|i: int|
            0 <= i < entries.len() ==> (#[trigger] values_of(entries)[i]).filter == entries[i].0,
{
    let upserts = values_of(entries);
    assert forall|i: int| 0 <= i < entries.len() implies (#[trigger] upserts[i]).filter
        == entries[i].0 by {
        assert(subscriptions.dom().contains(entries[i].0));
    }
    assert forall|i: int, j: int|
        #![trigger upserts[i], upserts[j]]
        0 <= i < j < upserts.len() implies upserts[i].filter != upserts[j].filter by {
        assert(String::before(entries[i].0, entries[j].0));
        String::before_irreflexive(entries[i].0);
    }
    if forall|filter: Seq<char>| #[trigger]
        subscriptions.dom().contains(filter) ==> subscription_defect(
            subscriptions[filter],
            client_id,
        ) is None {
        assert forall|i: int| 0 <= i < upserts.len() implies subscription_defect(
            #[trigger] upserts[i],
            client_id,
        ) is None by {
            assert(subscriptions.dom().contains(entries[i].0));
        }
        sound_upserts(upserts, client_id);
    }
}

/// Publications listed by number are in order.
proof fn listed_appends(entries: Seq<(u64, PendingView)>)
    requires
        ascending::<u64, PendingView>(entries),
    ensures
        forall|i: int, j: int|
            #![trigger queued_of(entries)[i], queued_of(entries)[j]]
            0 <= i < j < entries.len() ==> queued_of(entries)[i].sequence < queued_of(
                entries,
            )[j].sequence,
{
    let appends = queued_of(entries);
    assert forall|i: int, j: int|
        #![trigger appends[i], appends[j]]
        0 <= i < j < entries.len() implies appends[i].sequence < appends[j].sequence by {
        assert(u64::before(entries[i].0, entries[j].0));
    }
}

/// A reset patch made from what is known of a client holds what is known.
proof fn reset_gives(client_id: Seq<char>, client: ClientView)
    requires
        tabled(client),
    ensures
        reset_client(reset_patch(client_id, client)) == client,
{
    let patch = reset_patch(client_id, client);
    let subs = entries_of::<String, SubscriptionSnapshotView>(client.subscriptions);
    let queue = entries_of::<u64, PendingView>(client.offline);
    assert forall|i: int| 0 <= i < subs.len() implies client.subscriptions.dom().contains(
        (#[trigger] subs[i]).0,
    ) && client.subscriptions[subs[i].0] == subs[i].1 by {
        map_of_entry::<String, SubscriptionSnapshotView>(subs, i);
    }
    listed_upserts(client.subscriptions, subs, client_id);
    listed_appends(queue);
    let appends = patch.offline_append;
    assert forall|i: int| 0 <= i < appends.len() implies client.offline.dom().contains(
        (#[trigger] appends[i]).sequence,
    ) && client.offline[appends[i].sequence] == appends[i].pending by {
        map_of_entry::<u64, PendingView>(queue, i);
    }
    appends_without_conflict(Map::<u64, PendingView>::empty(), appends);
    let offline = append_offline(Map::<u64, PendingView>::empty(), appends)->0;
    assert(offline =~= client.offline) by {
        assert forall|sequence: u64| client.offline.dom().contains(sequence)
            == #[trigger] offline.dom().contains(sequence) by {
            if client.offline.dom().contains(sequence) {
                key_has_entry(queue, sequence);
                assert(appends[key_index(queue, sequence)].sequence == sequence);
            }
        }
        assert forall|sequence: u64| #[trigger] offline.dom().contains(sequence) implies
            offline[sequence] == client.offline[sequence] by {
            let i = choose|i: int|
                0 <= i < appends.len() && (#[trigger] appends[i]).sequence == sequence;
            assert(appends[i].sequence == sequence);
        }
    }
    let upserts = patch.subscription_upserts;
    put_subscriptions_gives(Map::<Seq<char>, SubscriptionSnapshotView>::empty(), upserts);
    let subscriptions = put_subscriptions(
        Map::<Seq<char>, SubscriptionSnapshotView>::empty(),
        upserts,
    );
    assert(subscriptions =~= client.subscriptions) by {
        assert forall|filter: Seq<char>| client.subscriptions.dom().contains(filter)
            == #[trigger] subscriptions.dom().contains(filter) by {
            if client.subscriptions.dom().contains(filter) {
                key_has_entry(subs, filter);
                assert(upserts[key_index(subs, filter)].filter == filter);
            }
            if subscriptions.dom().contains(filter) {
                let i = choose|i: int|
                    0 <= i < upserts.len() && (#[trigger] upserts[i]).filter == filter;
                assert(subs[i].0 == filter);
            }
        }
        assert forall|filter: Seq<char>| #[trigger] subscriptions.dom().contains(filter) implies
            subscriptions[filter] == client.subscriptions[filter] by {
            let i = choose|i: int|
                0 <= i < upserts.len() && (#[trigger] upserts[i]).filter == filter;
            assert(upserts[i].filter == filter);
        }
    }
    assert(reset_client(patch) == client);
}

/// A reset patch made from what is stored of a client is without defect, and applied to whatever
/// is stored it gives the client back.
pub proof fn reset_restores(
    client_id: Seq<char>,
    previous: Option<ClientView>,
    client: ClientView,
)
    requires
        storable(client, client_id),
    ensures
        client_patch_defect(reset_patch(client_id, client)) is None,
        patched_client(previous, reset_patch(client_id, client)) == Ok::<
            Option<ClientView>,
            Seq<char>,
        >(Some(client)),
{
    let patch = reset_patch(client_id, client);
    let subs = entries_of::<String, SubscriptionSnapshotView>(client.subscriptions);
    let queue = entries_of::<u64, PendingView>(client.offline);
    assert forall|i: int| 0 <= i < subs.len() implies client.subscriptions.dom().contains(
        (#[trigger] subs[i]).0,
    ) && client.subscriptions[subs[i].0] == subs[i].1 by {
        map_of_entry::<String, SubscriptionSnapshotView>(subs, i);
    }
    listed_upserts(client.subscriptions, subs, client_id);
    listed_appends(queue);
    let appends = patch.offline_append;
    assert forall|i: int| 0 <= i < appends.len() implies client.offline.dom().contains(
        (#[trigger] appends[i]).sequence,
    ) && client.offline[appends[i].sequence] == appends[i].pending by {
        map_of_entry::<u64, PendingView>(queue, i);
    }
    assert(valid_appends(appends));
    assert(deletes_agree(patch.subscription_upserts, patch.subscription_deletes));
    if appends.len() > 0 {
        assert(appends.last() == appends[appends.len() - 1]);
    }
    assert(client_patch_defect(patch) is None);
    reset_gives(client_id, client);
    assert(reset_client(patch) == client);
}

/// What is taken from the front of an offline queue and what is put at its end make up the next
/// queue.
proof fn offline_diff_restores(previous: ClientView, next: ClientView, client_id: Seq<char>)
    requires
        tabled(previous),
        tabled(next),
        offline_diff(previous.offline, next.offline) is Some,
    ensures
        ({
            let (through, appends) = offline_diff(previous.offline, next.offline)->0;
            &&& storable(previous, client_id) && storable(next, client_id) && evolves(
                previous,
                next,
            ) ==> {
                &&& valid_appends(appends)
                &&& through matches Some(through) ==> through
                    < previous.session.next_offline_sequence
                &&& forall|i: int|
                    0 <= i < appends.len() ==> (#[trigger] appends[i]).sequence
                        >= previous.session.next_offline_sequence && appends[i].sequence
                        < next.session.next_offline_sequence
            }
            &&& append_offline(keep_after(previous.offline, through), appends) == Some(next.offline)
            &&& (through is None && appends.len() == 0 ==> previous.offline == next.offline)
        }),
{
    let before = entries_of::<u64, PendingView>(previous.offline);
    let after = entries_of::<u64, PendingView>(next.offline);
    let removed = missing_entries(before, next.offline);
    let added = missing_entries(after, previous.offline);
    let (through, appends) = offline_diff(previous.offline, next.offline)->0;
    missing_entries_are::<u64, PendingView>(before, next.offline);
    missing_entries_are::<u64, PendingView>(after, previous.offline);
    listed_appends(added);
    assert forall|i: int| 0 <= i < appends.len() implies next.offline.dom().contains(
        (#[trigger] appends[i]).sequence,
    ) && next.offline[appends[i].sequence] == appends[i].pending
        && !previous.offline.dom().contains(appends[i].sequence) by {
        assert(added[i].0 == appends[i].sequence);
        let j = after.index_of(added[i]);
        map_of_entry::<u64, PendingView>(after, j);
    }
    if storable(previous, client_id) && storable(next, client_id) {
        assert(valid_appends(appends));
    }
    let count = removed.len() as int;
    assert forall|j: int| 0 <= j < before.len() implies (next.offline.dom().contains(
        (#[trigger] before[j]).0,
    ) <==> j >= count) by {
        if j < count {
            assert(before.take(count)[j] == removed[j]);
        } else if !next.offline.dom().contains(before[j].0) {
            let i = removed.index_of(before[j]);
            assert(before.take(count)[i] == removed[i]);
            assert(u64::before(before[i].0, before[j].0));
        }
    }
    if count > 0 {
        assert(before.take(count)[count - 1] == removed[count - 1]);
        map_of_entry::<u64, PendingView>(before, count - 1);
        assert(previous.offline.dom().contains(before[count - 1].0));
    }
    let kept = keep_after(previous.offline, through);
    assert forall|sequence: u64| #[trigger] kept.dom().contains(sequence)
        <==> previous.offline.dom().contains(sequence) && next.offline.dom().contains(sequence) by {
        if previous.offline.dom().contains(sequence) {
            key_has_entry(before, sequence);
            let j = key_index(before, sequence);
            if count > 0 {
                if j < count - 1 {
                    assert(u64::before(before[j].0, before[count - 1].0));
                } else if j > count - 1 {
                    assert(u64::before(before[count - 1].0, before[j].0));
                }
            }
        }
    }
    appends_without_conflict(kept, appends);
    let queue = append_offline(kept, appends)->0;
    assert(queue =~= next.offline) by {
        assert forall|sequence: u64| next.offline.dom().contains(sequence)
            == #[trigger] queue.dom().contains(sequence) by {
            if next.offline.dom().contains(sequence) && !previous.offline.dom().contains(
                sequence,
            ) {
                key_has_entry(after, sequence);
                let j = key_index(after, sequence);
                let i = added.index_of(after[j]);
                assert(appends[i].sequence == sequence);
            }
        }
        assert forall|sequence: u64| #[trigger] queue.dom().contains(sequence) implies
            queue[sequence] == next.offline[sequence] by {
            if kept.dom().contains(sequence) {
                assert(previous.offline.dom().contains(sequence));
            } else {
                let i = choose|i: int|
                    0 <= i < appends.len() && (#[trigger] appends[i]).sequence == sequence;
                assert(appends[i].sequence == sequence);
            }
        }
    }
    if through is None && appends.len() == 0 {
        assert(kept == previous.offline);
        assert(append_offline(kept, appends) == Some(kept));
    }
}

/// What is put and what is removed make up the next table.
proof fn diff_restores<B>(previous: Map<u16, B>, next: Map<u16, B>)
    ensures
        delta_map(previous, diff_upserts(previous, next), diff_deletes(previous, next)) == next,
        diff_upserts(previous, next) == Map::<u16, B>::empty() && diff_deletes(previous, next)
            == Set::<u16>::empty() ==> previous == next,
{
    let upserts = diff_upserts(previous, next);
    let deletes = diff_deletes(previous, next);
    assert(delta_map(previous, upserts, deletes) =~= next);
    if upserts == Map::<u16, B>::empty() && deletes == Set::<u16>::empty() {
        assert forall|key: u16| #[trigger] next.dom().contains(key) implies previous.dom().contains(
            key,
        ) && previous[key] == next[key] by {
            assert(!upserts.dom().contains(key));
        }
        assert forall|key: u16| #[trigger] previous.dom().contains(
            key,
        ) implies next.dom().contains(key) by {
            assert(!deletes.contains(key));
        }
        assert(previous =~= next);
    }
}

/// The subscriptions that are put and removed make up the next subscriptions.
proof fn subscription_diff_restores(previous: ClientView, next: ClientView, client_id: Seq<char>)
    requires
        tabled(previous),
        tabled(next),
    ensures
        ({
            let upserts = values_of(
                changed_entries(
                    previous.subscriptions,
                    entries_of::<String, SubscriptionSnapshotView>(next.subscriptions),
                ),
            );
            let deletes = keys_of(
                missing_entries(
                    entries_of::<String, SubscriptionSnapshotView>(previous.subscriptions),
                    next.subscriptions,
                ),
            );
            &&& storable(next, client_id) ==> upserts_defect(upserts, client_id) is None
            &&& deletes_agree(upserts, deletes)
            &&& forall|i: int|
                0 <= i < deletes.len() ==> previous.subscriptions.dom().contains(
                    #[trigger] deletes[i],
                )
            &&& put_subscriptions(drop_keys(previous.subscriptions, deletes), upserts)
                == next.subscriptions
            &&& (upserts.len() == 0 && deletes.len() == 0 ==> previous.subscriptions
                == next.subscriptions)
        }),
{
    let before = entries_of::<String, SubscriptionSnapshotView>(previous.subscriptions);
    let after = entries_of::<String, SubscriptionSnapshotView>(next.subscriptions);
    let put = changed_entries(previous.subscriptions, after);
    let gone = missing_entries(before, next.subscriptions);
    let upserts = values_of(put);
    let deletes = keys_of(gone);
    changed_entries_are::<String, SubscriptionSnapshotView>(previous.subscriptions, after);
    missing_entries_are::<String, SubscriptionSnapshotView>(before, next.subscriptions);
    assert forall|i: int| 0 <= i < put.len() implies next.subscriptions.dom().contains(
        (#[trigger] put[i]).0,
    ) && next.subscriptions[put[i].0] == put[i].1 by {
        let j = after.index_of(put[i]);
        map_of_entry::<String, SubscriptionSnapshotView>(after, j);
    }
    listed_upserts(next.subscriptions, put, client_id);
    assert forall|i: int| 0 <= i < deletes.len() implies previous.subscriptions.dom().contains(
        #[trigger] deletes[i],
    ) && !next.subscriptions.dom().contains(deletes[i]) by {
        assert(gone[i].0 == deletes[i]);
        let j = before.index_of(gone[i]);
        map_of_entry::<String, SubscriptionSnapshotView>(before, j);
    }
    assert(deletes.no_duplicates()) by {
        assert forall|i: int, j: int| 0 <= i < j < deletes.len() implies deletes[i]
            != deletes[j] by {
            assert(String::before(gone[i].0, gone[j].0));
            String::before_irreflexive(gone[i].0);
        }
    }
    assert forall|i: int| 0 <= i < deletes.len() implies !has_filter(
        upserts,
        #[trigger] deletes[i],
    ) by {
        if has_filter(upserts, deletes[i]) {
            let j = choose|j: int|
                0 <= j < upserts.len() && (#[trigger] upserts[j]).filter == deletes[i];
            assert(put[j].0 == deletes[i]);
        }
    }
    drop_keys_leaves(previous.subscriptions, deletes);
    let dropped = drop_keys(previous.subscriptions, deletes);
    put_subscriptions_gives(dropped, upserts);
    let result = put_subscriptions(dropped, upserts);
    assert forall|filter: Seq<char>| #[trigger] dropped.dom().contains(filter)
        <==> previous.subscriptions.dom().contains(filter) && next.subscriptions.dom().contains(
        filter,
    ) by {
        if previous.subscriptions.dom().contains(filter) && !next.subscriptions.dom().contains(
            filter,
        ) {
            key_has_entry(before, filter);
            let i = gone.index_of(before[key_index(before, filter)]);
            assert(deletes[i] == filter);
        }
        if deletes.contains(filter) {
            let i = deletes.index_of(filter);
            assert(!next.subscriptions.dom().contains(deletes[i]));
        }
    }
    assert forall|filter: Seq<char>| has_filter(upserts, filter) == (
    next.subscriptions.dom().contains(filter) && changed(
        previous.subscriptions,
        filter,
        next.subscriptions[filter],
    )) by {
        if has_filter(upserts, filter) {
            let i = choose|i: int|
                0 <= i < upserts.len() && (#[trigger] upserts[i]).filter == filter;
            assert(put[i].0 == filter);
        }
        if next.subscriptions.dom().contains(filter) && changed(
            previous.subscriptions,
            filter,
            next.subscriptions[filter],
        ) {
            key_has_entry(after, filter);
            let i = put.index_of(after[key_index(after, filter)]);
            assert(upserts[i].filter == filter);
        }
    }
    assert(result =~= next.subscriptions) by {
        assert forall|filter: Seq<char>| #[trigger] result.dom().contains(filter) implies
            result[filter] == next.subscriptions[filter] by {
            if has_filter(upserts, filter) {
                let i = choose|i: int|
                    0 <= i < upserts.len() && (#[trigger] upserts[i]).filter == filter;
                assert(put[i].0 == filter);
            }
        }
    }
    if upserts.len() == 0 && deletes.len() == 0 {
        assert(dropped == previous.subscriptions);
        assert(result == dropped);
    }
}

/// A merge patch made between two states of what is stored of a client is without defect, and
/// applied to the first state it gives the second.
pub proof fn merge_restores(client_id: Seq<char>, previous: ClientView, next: ClientView)
    requires
        storable(previous, client_id),
        storable(next, client_id),
        evolves(previous, next),
        previous != next,
        merge_patch(client_id, previous, next) is Some,
    ensures
        client_patch_defect(merge_patch(client_id, previous, next)->0) is None,
        patched_client(Some(previous), merge_patch(client_id, previous, next)->0) == Ok::<
            Option<ClientView>,
            Seq<char>,
        >(Some(next)),
{
    let patch = merge_patch(client_id, previous, next)->0;
    offline_diff_restores(previous, next, client_id);
    subscription_diff_restores(previous, next, client_id);
    diff_restores(previous.qos1, next.qos1);
    diff_restores(previous.qos2_publish, next.qos2_publish);
    let appends = patch.offline_append;
    if appends.len() > 0 {
        assert(appends.last() == appends[appends.len() - 1]);
        assert(appends[0].sequence >= previous.session.next_offline_sequence);
    }
    assert(previous.qos2_pubrel.difference(patch.pubrel_remove).union(patch.pubrel_add)
        =~= next.qos2_pubrel);
    if patch.session is None && empty_delta(patch) {
        assert(previous.qos2_pubrel =~= next.qos2_pubrel) by {
            assert forall|id: u16| previous.qos2_pubrel.contains(id)
                == next.qos2_pubrel.contains(id) by {
                assert(!patch.pubrel_add.contains(id));
                assert(!patch.pubrel_remove.contains(id));
            }
        }
        assert(previous == next);
    }
    assert(client_patch_defect(patch) is None) by {
        assert forall|i: int| 0 <= i < patch.subscription_deletes.len() implies
            crate::protocol::valid_topic_filter(#[trigger] patch.subscription_deletes[i]) by {
            let filter = patch.subscription_deletes[i];
            assert(previous.subscriptions.dom().contains(filter));
        }
    }
    assert(merge_defect(previous, patch) is None);
    assert(merged(previous, patch) == next);
}

/// The patch between two states of what is stored of a client, applied to the first state, gives
/// the second; and where there is no patch the states are the same.
pub proof fn between_restores(
    client_id: Seq<char>,
    previous: Option<ClientView>,
    next: Option<ClientView>,
    force_reset: bool,
)
    requires
        client_id.len() > 0,
        previous matches Some(client) ==> storable(client, client_id),
        next matches Some(client) ==> storable(client, client_id),
        !force_reset ==> (previous matches Some(before) ==> (next matches Some(after) ==> evolves(
            before,
            after,
        ))),
    ensures
        match patch_between(client_id, previous, next, force_reset) {
            Some(patch) => patched_client(previous, patch) == Ok::<Option<ClientView>, Seq<char>>(
                next,
            ) && client_patch_defect(patch) is None && patch.client_id == client_id,
            None => previous == next,
        },
{
    match next {
        None => {
            let patch = empty_patch(client_id, ClientPatchMode::Delete);
            assert(valid_appends(patch.offline_append));
            assert(deletes_agree(patch.subscription_upserts, patch.subscription_deletes));
            assert(client_patch_defect(patch) is None);
        },
        Some(after) => {
            reset_restores(client_id, previous, after);
            if let Some(before) = previous {
                if !force_reset && before != after && merge_patch(
                    client_id,
                    before,
                    after,
                ) is Some {
                    merge_restores(client_id, before, after);
                }
            }
        },
    }
}

/// A merge patch made between two values holds what leads from the one to the other.
proof fn merge_gives(client_id: Seq<char>, previous: ClientView, next: ClientView)
    requires
        tabled(previous),
        tabled(next),
        merge_patch(client_id, previous, next) is Some,
    ensures
        merged(previous, merge_patch(client_id, previous, next)->0) == next,
{
    let patch = merge_patch(client_id, previous, next)->0;
    offline_diff_restores(previous, next, client_id);
    subscription_diff_restores(previous, next, client_id);
    diff_restores(previous.qos1, next.qos1);
    diff_restores(previous.qos2_publish, next.qos2_publish);
    assert(previous.qos2_pubrel.difference(patch.pubrel_remove).union(patch.pubrel_add)
        =~= next.qos2_pubrel);
}

/// The patch between any two values of what is known of a client, where it can be applied to the
/// first, gives the second; and where there is no patch the values are the same.
pub proof fn applied_patch_gives_next(
    projection: ProjectionView,
    client_id: Seq<char>,
    next: Option<ClientView>,
    force_reset: bool,
)
    requires
        lookup(projection.clients, client_id) matches Some(client) ==> tabled(client),
        next matches Some(client) ==> tabled(client),
    ensures
        match patch_between(
            client_id,
            lookup(projection.clients, client_id),
            next,
            force_reset,
        ) {
            Some(patch) => match patched(projection, StoragePatchView::Client(patch)) {
                Ok(after) => {
                    &&& lookup(after.clients, client_id) == next
                    &&& forall|other: Seq<char>|
                        other != client_id ==> #[trigger] lookup(after.clients, other) == lookup(
                            projection.clients,
                            other,
                        )
                    &&& after.retained == projection.retained
                },
                Err(_) => true,
            },
            None => lookup(projection.clients, client_id) == next,
        },
{
    if let Some(after) = next {
        reset_gives(client_id, after);
        if let Some(before) = lookup(projection.clients, client_id) {
            if merge_patch(client_id, before, after) is Some {
                merge_gives(client_id, before, after);
            }
        }
    }
}

} // verus!
