//! Whom a publication reaches.
use vstd::prelude::*;
use vstd::arithmetic::div_mod::lemma_fundamental_div_mod;
use vstd::arithmetic::div_mod::lemma_fundamental_div_mod_converse_mod;

use crate::broker::completed_qos2;
use crate::broker::stored_qos2;
use crate::config::BrokerConfig;
use crate::delivery::DeliveryView;
use crate::delivery::after_retain;
use crate::delivery::group_of;
use crate::delivery::joined_group;
use crate::delivery::joined_group_len;
use crate::delivery::picked;
use crate::delivery::served;
use crate::delivery::share_key;
use crate::delivery::shared_groups;
use crate::delivery::unshared;
use crate::message::expired;
use crate::message::expiry_of;
use crate::ordered_map::OrderedKey;
use crate::ordered_map::ascending;
use crate::ordered_map::entries_of;
use crate::ordered_map::has_key;
use crate::ordered_map::key_has_entry;
use crate::ordered_map::key_index;
use crate::ordered_map::listed;
use crate::ordered_map::listed_empty;
use crate::ordered_map::listed_insert;
use crate::ordered_map::map_of_entry;
use crate::packet::PublishView;
use crate::protocol::SUCCESS;
use crate::routing::published;
use crate::routing::publisher_of;
use crate::routing::routed;
use crate::routing::routed_all;
use crate::routing::wanting;
use crate::routing::wants;
use crate::session::StateView;
use crate::session::without_expired;
use crate::state_laws::filtered_from;
use crate::storage::delta::lookup;
use crate::subscription::EntryView;

verus! {

/// Every member of every group is one of some subscriptions, is shared under the group's key, and
/// no group is empty.
pub open spec fn groups_sound(
    groups: Map<Seq<char>, Seq<EntryView>>,
    subscriptions: Seq<EntryView>,
) -> bool {
    forall|key: Seq<char>| #[trigger]
        groups.dom().contains(key) ==> groups[key].len() > 0 && forall|i: int|
            0 <= i < groups[key].len() ==> subscriptions.contains(#[trigger] groups[key][i])
                && groups[key][i].shared_group is Some && share_key(groups[key][i]) == key
}

/// A group with one more member holds the members and the new one.
pub proof fn joined_group_holds(members: Seq<EntryView>, subscription: EntryView, index: int)
    requires
        0 <= index < joined_group(members, subscription).len(),
    ensures
        joined_group(members, subscription)[index] == subscription || members.contains(
            joined_group(members, subscription)[index],
        ),
        joined_group(members, subscription).len() == members.len() + 1,
    decreases members.len(),
{
    let joined = joined_group(members, subscription);
    if members.len() == 0 || !String::before(subscription.client_id, members.last().client_id) {
        if index < members.len() {
            assert(members[index] == joined[index]);
        }
    } else {
        let front = members.drop_last();
        let before = joined_group(front, subscription);
        if before.len() > 0 {
            joined_group_holds(front, subscription, if index < before.len() {
                index
            } else {
                0
            });
        }
        if index < before.len() {
            assert(joined[index] == before[index]);
            if before[index] != subscription {
                let i = choose|i: int| 0 <= i < front.len() && front[i] == before[index];
                assert(members[i] == joined[index]);
            }
        } else {
            assert(members[members.len() - 1] == joined[index]);
        }
    }
}

/// The groups of some subscriptions are made of them.
pub proof fn shared_groups_sound(state: StateView, subscriptions: Seq<EntryView>)
    ensures
        groups_sound(shared_groups(state, subscriptions), subscriptions),
        listed::<String, Seq<EntryView>>(shared_groups(state, subscriptions)),
    decreases subscriptions.len(),
{
    if subscriptions.len() == 0 {
        listed_empty::<String, Seq<EntryView>>();
    } else {
        let front = subscriptions.drop_last();
        let last = subscriptions.last();
        shared_groups_sound(state, front);
        let before = shared_groups(state, front);
        let after = shared_groups(state, subscriptions);
        assert forall|entry: EntryView| #[trigger] front.contains(entry) implies
            subscriptions.contains(entry) by {
            let i = choose|i: int| 0 <= i < front.len() && front[i] == entry;
            assert(subscriptions[i] == entry);
        }
        assert(subscriptions[subscriptions.len() - 1] == last);
        assert(subscriptions.contains(last));
        if last.shared_group is Some && state.connections.dom().contains(last.client_id) {
            let own = share_key(last);
            let members = group_of(before, own);
            listed_insert::<String, Seq<EntryView>>(before, own, joined_group(members, last));
            assert forall|key: Seq<char>| #[trigger] after.dom().contains(key) implies
                after[key].len() > 0 && forall|i: int|
                0 <= i < after[key].len() ==> subscriptions.contains(#[trigger] after[key][i])
                    && after[key][i].shared_group is Some && share_key(after[key][i]) == key by {
                if key == own {
                    joined_group_len(members, last);
                    assert forall|i: int| 0 <= i < after[key].len() implies subscriptions.contains(
                        #[trigger] after[key][i],
                    ) && after[key][i].shared_group is Some && share_key(after[key][i])
                        == key by {
                        joined_group_holds(members, last, i);
                        if after[key][i] != last {
                            let j = choose|j: int|
                                0 <= j < members.len() && members[j] == after[key][i];
                            assert(before.dom().contains(key));
                            assert(front.contains(before[key][j]));
                        }
                    }
                } else {
                    assert(before.dom().contains(key));
                    assert forall|i: int| 0 <= i < after[key].len() implies subscriptions.contains(
                        #[trigger] after[key][i],
                    ) && after[key][i].shared_group is Some && share_key(after[key][i])
                        == key by {
                        assert(front.contains(before[key][i]));
                    }
                }
            }
        } else {
            assert forall|key: Seq<char>| #[trigger] after.dom().contains(key) implies
                after[key].len() > 0 && forall|i: int|
                0 <= i < after[key].len() ==> subscriptions.contains(#[trigger] after[key][i])
                    && after[key][i].shared_group is Some && share_key(after[key][i]) == key by {
                assert(before.dom().contains(key));
                assert forall|i: int| 0 <= i < after[key].len() implies subscriptions.contains(
                    #[trigger] after[key][i],
                ) && after[key][i].shared_group is Some && share_key(after[key][i]) == key by {
                    assert(front.contains(before[key][i]));
                }
            }
        }
    }
}

/// One member of each group is picked, in the order of the groups.
proof fn one_of_each_group(
    cursors: Map<Seq<char>, usize>,
    groups: Seq<(Seq<char>, Seq<EntryView>)>,
)
    requires
        forall|i: int| 0 <= i < groups.len() ==> (#[trigger] groups[i]).1.len() > 0,
    ensures
        picked(cursors, groups).1.len() == groups.len(),
        forall|i: int|
            0 <= i < groups.len() ==> (#[trigger] groups[i]).1.contains(
                picked(cursors, groups).1[i],
            ),
    decreases groups.len(),
{
    if groups.len() > 0 {
        let front = groups.drop_last();
        assert forall|i: int| 0 <= i < front.len() implies (#[trigger] front[i]).1.len() > 0 by {
            assert(front[i] == groups[i]);
        }
        one_of_each_group(cursors, front);
        let before = picked(cursors, front);
        let (key, members) = groups.last();
        let turn = if before.0.dom().contains(key) {
            before.0[key]
        } else {
            0
        };
        assert(groups[groups.len() - 1].1.len() > 0);
        let index = turn as int % members.len() as int;
        assert(0 <= index < members.len()) by (nonlinear_arith)
            requires
                index == turn as int % members.len() as int,
                members.len() > 0,
        ;
        assert(members.contains(members[index]));
        assert forall|i: int| 0 <= i < groups.len() implies (#[trigger] groups[i]).1.contains(
            picked(cursors, groups).1[i],
        ) by {
            if i < front.len() {
                assert(front[i] == groups[i]);
            }
        }
    }
}

/// Every subscription that is served is one of those that want the publication; those that are not
/// shared all are, and of those that share a group whose members are connected just one is.
pub proof fn served_are_wanted(state: StateView, subscriptions: Seq<EntryView>)
    ensures
        ({
            let groups = entries_of::<String, Seq<EntryView>>(
                shared_groups(state, subscriptions),
            );
            let plain = unshared(subscriptions);
            let chosen = served(state, subscriptions).1;
            &&& chosen.len() == plain.len() + groups.len()
            &&& forall|i: int| 0 <= i < plain.len() ==> #[trigger] chosen[i] == plain[i]
            &&& forall|i: int|
                0 <= i < groups.len() ==> (#[trigger] groups[i]).1.contains(
                    chosen[plain.len() + i],
                )
            &&& forall|i: int|
                0 <= i < chosen.len() ==> subscriptions.contains(#[trigger] chosen[i])
        }),
{
    let map = shared_groups(state, subscriptions);
    let groups = entries_of::<String, Seq<EntryView>>(map);
    let plain = unshared(subscriptions);
    let turns = picked(state.cursors, groups);
    let chosen = served(state, subscriptions).1;
    shared_groups_sound(state, subscriptions);
    assert forall|i: int| 0 <= i < groups.len() implies (#[trigger] groups[i]).1.len() > 0 by {
        map_of_entry::<String, Seq<EntryView>>(groups, i);
        assert(map.dom().contains(groups[i].0));
    }
    one_of_each_group(state.cursors, groups);
    assert forall|i: int| 0 <= i < groups.len() implies (#[trigger] groups[i]).1.contains(
        chosen[plain.len() + i],
    ) by {
        assert(chosen[plain.len() + i] == turns.1[i]);
    }
    assert forall|i: int| 0 <= i < chosen.len() implies subscriptions.contains(
        #[trigger] chosen[i],
    ) by {
        if i < plain.len() {
            filtered_from(subscriptions, |entry: EntryView| entry.shared_group is None, i);
        } else {
            let k = i - plain.len();
            map_of_entry::<String, Seq<EntryView>>(groups, k);
            assert(map.dom().contains(groups[k].0));
            let members = groups[k].1;
            assert(members.contains(turns.1[k]));
            let j = choose|j: int| 0 <= j < members.len() && members[j] == turns.1[k];
            assert(subscriptions.contains(map[groups[k].0][j]));
        }
    }
}

/// What is sent for some subscriptions goes to the connections of their clients.
proof fn routed_to_clients(
    state: StateView,
    subscriptions: Seq<EntryView>,
    packet: PublishView,
    config: BrokerConfig,
    now_ms: u64,
)
    ensures
        ({
            let outcome = routed_all(state, subscriptions, packet, config, now_ms);
            &&& outcome.0.connections == state.connections
            &&& outcome.0.clients == state.clients
            &&& outcome.0.qos2_inflight == state.qos2_inflight
            &&& outcome.0.subscriptions == state.subscriptions
            &&& forall|i: int|
                0 <= i < outcome.1.len() ==> exists|k: int|
                    0 <= k < subscriptions.len() && lookup(
                        state.connections,
                        (#[trigger] subscriptions[k]).client_id,
                    ) == Some((#[trigger] outcome.1[i]).connection_id)
        }),
    decreases subscriptions.len(),
{
    if subscriptions.len() > 0 {
        let front = subscriptions.drop_last();
        routed_to_clients(state, front, packet, config, now_ms);
        let before = routed_all(state, front, packet, config, now_ms);
        let last = subscriptions.last();
        let outcome = routed_all(state, subscriptions, packet, config, now_ms);
        let step = routed(before.0, last, packet, config, now_ms);
        assert forall|i: int| 0 <= i < outcome.1.len() implies exists|k: int|
            0 <= k < subscriptions.len() && lookup(
                state.connections,
                (#[trigger] subscriptions[k]).client_id,
            ) == Some((#[trigger] outcome.1[i]).connection_id) by {
            if i < before.1.len() {
                assert(outcome.1[i] == before.1[i]);
                let k = choose|k: int|
                    0 <= k < front.len() && lookup(
                        state.connections,
                        (#[trigger] front[k]).client_id,
                    ) == Some(before.1[i].connection_id);
                assert(subscriptions[k] == front[k]);
            } else {
                assert(outcome.1[i] == step.1[i - before.1.len()]);
                assert(subscriptions[subscriptions.len() - 1] == last);
            }
        }
    }
}

/// A publication is sent only to connections whose client holds a subscription that matches its
/// topic, and not to its publisher where that one wishes not to hear itself; it changes neither who
/// is connected, nor subscriptions, nor publications that wait to be released.
pub proof fn sent_to_subscribers(
    state: StateView,
    publisher_connection_id: u64,
    packet: PublishView,
    config: BrokerConfig,
    now_ms: u64,
)
    ensures
        ({
            let outcome = published(state, publisher_connection_id, packet, config, now_ms);
            let publisher = publisher_of(state, publisher_connection_id);
            &&& outcome.0.connections == state.connections
            &&& outcome.0.clients == state.clients
            &&& outcome.0.qos2_inflight == state.qos2_inflight
            &&& outcome.0.subscriptions == state.subscriptions
            &&& forall|i: int|
                0 <= i < outcome.1.len() ==> exists|k: int|
                    0 <= k < state.subscriptions.len() && wants(
                        #[trigger] state.subscriptions[k],
                        packet.topic_name,
                        publisher,
                    ) && lookup(state.connections, state.subscriptions[k].client_id) == Some(
                        (#[trigger] outcome.1[i]).connection_id,
                    )
        }),
{
    let outcome = published(state, publisher_connection_id, packet, config, now_ms);
    let publisher = publisher_of(state, publisher_connection_id);
    if !expired(expiry_of(packet.properties, now_ms), now_ms) {
        let wish = |entry: EntryView| wants(entry, packet.topic_name, publisher);
        let wanted = wanting(state.subscriptions, packet.topic_name, publisher);
        let chosen = served(state, wanted);
        served_are_wanted(state, wanted);
        routed_to_clients(chosen.0, chosen.1, packet, config, now_ms);
        assert forall|i: int| 0 <= i < outcome.1.len() implies exists|k: int|
            0 <= k < state.subscriptions.len() && wants(
                #[trigger] state.subscriptions[k],
                packet.topic_name,
                publisher,
            ) && lookup(state.connections, state.subscriptions[k].client_id) == Some(
                (#[trigger] outcome.1[i]).connection_id,
            ) by {
            let j = choose|j: int|
                0 <= j < chosen.1.len() && lookup(
                    state.connections,
                    (#[trigger] chosen.1[j]).client_id,
                ) == Some(outcome.1[i].connection_id);
            assert(wanted.contains(chosen.1[j]));
            let w = choose|w: int| 0 <= w < wanted.len() && wanted[w] == chosen.1[j];
            filtered_from(state.subscriptions, wish, w);
            let k = choose|k: int|
                0 <= k < state.subscriptions.len() && state.subscriptions[k] == wanted[w];
            assert(wants(state.subscriptions[k], packet.topic_name, publisher));
        }
    }
}

/// A QoS 2 publication that waits is not kept twice, and once it is released it is unknown: a
/// second release sends nothing.
pub proof fn qos2_publication_is_served_once(
    state: StateView,
    config: BrokerConfig,
    connection_id: u64,
    packet_id: u16,
    again: PublishView,
    now_ms: u64,
    later_ms: u64,
)
    requires
        state.qos2_inflight.dom().contains((connection_id, packet_id)),
    ensures
        stored_qos2(state, config, connection_id, packet_id, again, now_ms) == (state, SUCCESS),
        completed_qos2(state, config, connection_id, packet_id, now_ms).1 is Some,
        ({
            let after = completed_qos2(state, config, connection_id, packet_id, now_ms).0;
            completed_qos2(after, config, connection_id, packet_id, later_ms) == (
                after,
                None::<Seq<DeliveryView>>,
            )
        }),
{
    let key = (connection_id, packet_id);
    let pending = state.qos2_inflight[key];
    let released = StateView { qos2_inflight: state.qos2_inflight.remove(key), ..state };
    if !expired(pending.expires_at_ms, now_ms) {
        let told = after_retain(
            without_expired(released, now_ms),
            pending.packet,
            config,
            now_ms,
        );
        sent_to_subscribers(told, connection_id, pending.packet, config, now_ms);
    }
}

/// How often a group was served before.
pub open spec fn turn_of(cursors: Map<Seq<char>, usize>, key: Seq<char>) -> usize {
    match lookup(cursors, key) {
        Some(turn) => turn,
        None => 0,
    }
}

/// The member of a group whose turn it is.
pub open spec fn member_in_turn(
    state: StateView,
    subscriptions: Seq<EntryView>,
    key: Seq<char>,
) -> EntryView {
    let members = shared_groups(state, subscriptions)[key];
    members[turn_of(state.cursors, key) as int % members.len() as int]
}

/// The state after some subscriptions were served some times in a row.
pub open spec fn served_times(
    state: StateView,
    subscriptions: Seq<EntryView>,
    times: nat,
) -> StateView
    decreases times,
{
    if times == 0 {
        state
    } else {
        served(served_times(state, subscriptions, (times - 1) as nat), subscriptions).0
    }
}

/// Each of some groups is served by the member whose turn it is, and the turns of the others stay.
proof fn picked_in_turn(
    cursors: Map<Seq<char>, usize>,
    groups: Seq<(Seq<char>, Seq<EntryView>)>,
    key: Seq<char>,
)
    requires
        ascending::<String, Seq<EntryView>>(groups),
    ensures
        picked(cursors, groups).1.len() == groups.len(),
        !has_key(groups, key) ==> turn_of(picked(cursors, groups).0, key) == turn_of(
            cursors,
            key,
        ),
        forall|i: int|
            0 <= i < groups.len() && (#[trigger] groups[i]).0 == key ==> {
                let turn = turn_of(cursors, key);
                &&& picked(cursors, groups).1[i] == groups[i].1[turn as int
                    % groups[i].1.len() as int]
                &&& turn < usize::MAX ==> turn_of(picked(cursors, groups).0, key) == turn + 1
            },
    decreases groups.len(),
{
    if groups.len() > 0 {
        let front = groups.drop_last();
        picked_in_turn(cursors, front, key);
        let last = groups.len() - 1;
        assert(groups[last] == groups.last());
        if has_key(front, key) {
            let j = choose|j: int| 0 <= j < front.len() && (#[trigger] front[j]).0 == key;
            assert(groups[j].0 == key);
            String::before_irreflexive(key);
            assert(groups[last].0 != key);
        }
        assert forall|i: int| 0 <= i < groups.len() && (#[trigger] groups[i]).0 == key implies {
            let turn = turn_of(cursors, key);
            &&& picked(cursors, groups).1[i] == groups[i].1[turn as int
                % groups[i].1.len() as int]
            &&& turn < usize::MAX ==> turn_of(picked(cursors, groups).0, key) == turn + 1
        } by {
            if i < last {
                assert(front[i] == groups[i]);
                assert(has_key(front, key));
            } else {
                assert(!has_key(front, key));
            }
        }
        if !has_key(groups, key) {
            assert(groups[last].0 != key);
        }
    }
}

/// A group is served by the member whose turn it is, and then it is the next one's turn.
pub proof fn members_take_turns(
    state: StateView,
    subscriptions: Seq<EntryView>,
    key: Seq<char>,
)
    requires
        shared_groups(state, subscriptions).dom().contains(key),
    ensures
        ({
            let outcome = served(state, subscriptions);
            &&& outcome.1.contains(member_in_turn(state, subscriptions, key))
            &&& shared_groups(outcome.0, subscriptions) == shared_groups(state, subscriptions)
            &&& turn_of(state.cursors, key) < usize::MAX ==> turn_of(outcome.0.cursors, key)
                == turn_of(state.cursors, key) + 1
        }),
{
    let map = shared_groups(state, subscriptions);
    let groups = entries_of::<String, Seq<EntryView>>(map);
    let outcome = served(state, subscriptions);
    shared_groups_sound(state, subscriptions);
    picked_in_turn(state.cursors, groups, key);
    same_groups(state, outcome.0, subscriptions);
    key_has_entry(groups, key);
    let i = key_index(groups, key);
    assert(groups[i].0 == key);
    assert(outcome.1[unshared(subscriptions).len() + i] == member_in_turn(
        state,
        subscriptions,
        key,
    ));
}

/// The groups depend on nothing but who is connected.
proof fn same_groups(state: StateView, other: StateView, subscriptions: Seq<EntryView>)
    requires
        state.connections == other.connections,
    ensures
        shared_groups(state, subscriptions) == shared_groups(other, subscriptions),
    decreases subscriptions.len(),
{
    if subscriptions.len() > 0 {
        same_groups(state, other, subscriptions.drop_last());
    }
}

/// Each time a group is served, its turn moves on by one.
proof fn turns_add_up(
    state: StateView,
    subscriptions: Seq<EntryView>,
    key: Seq<char>,
    times: nat,
)
    requires
        shared_groups(state, subscriptions).dom().contains(key),
        turn_of(state.cursors, key) + times <= usize::MAX,
    ensures
        ({
            let after = served_times(state, subscriptions, times);
            &&& shared_groups(after, subscriptions) == shared_groups(state, subscriptions)
            &&& turn_of(after.cursors, key) == turn_of(state.cursors, key) + times
        }),
    decreases times,
{
    if times > 0 {
        let before = (times - 1) as nat;
        turns_add_up(state, subscriptions, key, before);
        members_take_turns(served_times(state, subscriptions, before), subscriptions, key);
    }
}

/// Where a group is served as often as it has members, each member is served once: at its time, and
/// at no other.
pub proof fn every_member_has_a_turn(
    state: StateView,
    subscriptions: Seq<EntryView>,
    key: Seq<char>,
    position: int,
)
    requires
        shared_groups(state, subscriptions).dom().contains(key),
        0 <= position < shared_groups(state, subscriptions)[key].len(),
        turn_of(state.cursors, key) + shared_groups(state, subscriptions)[key].len()
            <= usize::MAX,
    ensures
        ({
            let members = shared_groups(state, subscriptions)[key];
            let turn = turn_of(state.cursors, key);
            let time = (position - turn as int) % members.len() as int;
            &&& 0 <= time < members.len()
            &&& member_in_turn(
                served_times(state, subscriptions, time as nat),
                subscriptions,
                key,
            ) == members[position]
            &&& forall|other: nat|
                other < members.len() && other != time ==> turn_of(
                    (#[trigger] served_times(state, subscriptions, other)).cursors,
                    key,
                ) as int % members.len() as int != position
        }),
{
    let members = shared_groups(state, subscriptions)[key];
    let count = members.len() as int;
    let turn = turn_of(state.cursors, key) as int;
    let time = (position - turn) % count;
    let rounds = (position - turn) / count;
    lemma_fundamental_div_mod(position - turn, count);
    assert(0 <= time < count) by (nonlinear_arith)
        requires
            count > 0,
            time == (position - turn) % count,
    ;
    assert(turn + time == (-rounds) * count + position) by (nonlinear_arith)
        requires
            position - turn == count * rounds + time,
    ;
    lemma_fundamental_div_mod_converse_mod(turn + time, count, -rounds, position);
    turns_add_up(state, subscriptions, key, time as nat);
    assert forall|other: nat| other < members.len() && other != time implies turn_of(
        (#[trigger] served_times(state, subscriptions, other)).cursors,
        key,
    ) as int % members.len() as int != position by {
        turns_add_up(state, subscriptions, key, other);
        let late = other as int;
        assert((turn + late) % count != position) by (nonlinear_arith)
            requires
                0 <= time < count,
                0 <= late < count,
                late != time,
                (turn + time) % count == position,
        ;
    }
}

/// Where the same subscriptions are served again and again, with the same clients connected and no
/// turn taken before, each time the subscriptions that are not shared are served, all of them and
/// in order, and then one member of each group, in the order of the groups: the first member the
/// first time, the next one the next time, and the first one again after the last.
pub proof fn groups_are_served_in_rounds(
    state: StateView,
    subscriptions: Seq<EntryView>,
    times: nat,
)
    requires
        state.cursors == Map::<Seq<char>, usize>::empty(),
        times < usize::MAX,
    ensures
        ({
            let groups = entries_of::<String, Seq<EntryView>>(
                shared_groups(state, subscriptions),
            );
            let plain = unshared(subscriptions);
            let chosen = served(served_times(state, subscriptions, times), subscriptions).1;
            &&& chosen.len() == plain.len() + groups.len()
            &&& chosen.take(plain.len() as int) == plain
            &&& forall|i: int|
                0 <= i < groups.len() ==> chosen[plain.len() + i] == (
                #[trigger] groups[i]).1[times as int % groups[i].1.len() as int]
        }),
{
    let map = shared_groups(state, subscriptions);
    let groups = entries_of::<String, Seq<EntryView>>(map);
    let plain = unshared(subscriptions);
    let now = served_times(state, subscriptions, times);
    let chosen = served(now, subscriptions).1;
    shared_groups_sound(state, subscriptions);
    served_times_keep_groups(state, subscriptions, times);
    picked_in_turn(now.cursors, groups, Seq::empty());
    assert(chosen.take(plain.len() as int) =~= plain);
    assert forall|i: int| 0 <= i < groups.len() implies chosen[plain.len() + i] == (
    #[trigger] groups[i]).1[times as int % groups[i].1.len() as int] by {
        map_of_entry::<String, Seq<EntryView>>(groups, i);
        turns_add_up(state, subscriptions, groups[i].0, times);
        picked_in_turn(now.cursors, groups, groups[i].0);
    }
}

/// Serving leaves the groups as they are.
proof fn served_times_keep_groups(
    state: StateView,
    subscriptions: Seq<EntryView>,
    times: nat,
)
    ensures
        shared_groups(served_times(state, subscriptions, times), subscriptions) == shared_groups(
            state,
            subscriptions,
        ),
    decreases times,
{
    if times > 0 {
        let before = (times - 1) as nat;
        served_times_keep_groups(state, subscriptions, before);
        same_groups(
            served_times(state, subscriptions, before),
            served_times(state, subscriptions, times),
            subscriptions,
        );
    }
}

/// The members of a group are just the shared subscriptions under the group's key whose clients are
/// connected, in the order of their clients' names.
pub proof fn groups_hold_connected_members(
    state: StateView,
    subscriptions: Seq<EntryView>,
    key: Seq<char>,
)
    ensures
        ({
            let members = group_of(shared_groups(state, subscriptions), key);
            &&& forall|entry: EntryView| #[trigger]
                members.contains(entry) <==> subscriptions.contains(entry) && entry.shared_group
                    is Some && share_key(entry) == key && state.connections.dom().contains(
                    entry.client_id,
                )
            &&& forall|i: int, j: int|
                #![trigger members[i], members[j]]
                0 <= i < j < members.len() ==> !String::before(
                    members[j].client_id,
                    members[i].client_id,
                )
        }),
    decreases subscriptions.len(),
{
    let members = group_of(shared_groups(state, subscriptions), key);
    if subscriptions.len() > 0 {
        let front = subscriptions.drop_last();
        let last = subscriptions.last();
        let before = group_of(shared_groups(state, front), key);
        groups_hold_connected_members(state, front, key);
        assert forall|entry: EntryView| #[trigger] subscriptions.contains(entry) <==> (
        front.contains(entry) || entry == last) by {
            if front.contains(entry) {
                let i = choose|i: int| 0 <= i < front.len() && front[i] == entry;
                assert(subscriptions[i] == entry);
            }
            if subscriptions.contains(entry) {
                let i = choose|i: int|
                    0 <= i < subscriptions.len() && subscriptions[i] == entry;
                if i < front.len() {
                    assert(front[i] == entry);
                }
            }
            assert(subscriptions[subscriptions.len() - 1] == last);
        }
        if last.shared_group is Some && state.connections.dom().contains(last.client_id)
            && share_key(last) == key {
            joined_group_in_order(before, last);
        } else {
            assert(members == before);
        }
    }
}

/// A group with one more member holds just the members and the new one, in order.
proof fn joined_group_in_order(members: Seq<EntryView>, subscription: EntryView)
    requires
        forall|i: int, j: int|
            #![trigger members[i], members[j]]
            0 <= i < j < members.len() ==> !String::before(
                members[j].client_id,
                members[i].client_id,
            ),
    ensures
        ({
            let joined = joined_group(members, subscription);
            &&& forall|entry: EntryView| #[trigger]
                joined.contains(entry) <==> members.contains(entry) || entry == subscription
            &&& forall|i: int, j: int|
                #![trigger joined[i], joined[j]]
                0 <= i < j < joined.len() ==> !String::before(
                    joined[j].client_id,
                    joined[i].client_id,
                )
        }),
    decreases members.len(),
{
    let joined = joined_group(members, subscription);
    joined_group_len(members, subscription);
    if members.len() == 0 || !String::before(subscription.client_id, members.last().client_id) {
        assert forall|entry: EntryView| #[trigger] joined.contains(entry) <==> (members.contains(
            entry,
        ) || entry == subscription) by {
            pushed_contains(members, subscription, entry);
        }
        assert forall|i: int, j: int|
            #![trigger joined[i], joined[j]]
            0 <= i < j < joined.len() implies !String::before(
            joined[j].client_id,
            joined[i].client_id,
        ) by {
            assert(joined[i] == members[i]);
            if j < members.len() {
                assert(joined[j] == members[j]);
            } else {
                let end = members.last();
                assert(end == members[members.len() - 1]);
                if String::before(subscription.client_id, members[i].client_id) {
                    if i < members.len() - 1 {
                        assert(!String::before(end.client_id, members[i].client_id));
                        String::before_total(end.client_id, members[i].client_id);
                        String::before_transitive(
                            subscription.client_id,
                            members[i].client_id,
                            end.client_id,
                        );
                    }
                }
            }
        }
    } else {
        let front = members.drop_last();
        let end = members.last();
        let before = joined_group(front, subscription);
        assert forall|i: int, j: int|
            #![trigger front[i], front[j]]
            0 <= i < j < front.len() implies !String::before(
            front[j].client_id,
            front[i].client_id,
        ) by {
            assert(front[i] == members[i] && front[j] == members[j]);
        }
        joined_group_in_order(front, subscription);
        assert(members =~= front.push(end));
        assert forall|entry: EntryView| #[trigger] joined.contains(entry) <==> (members.contains(
            entry,
        ) || entry == subscription) by {
            pushed_contains(before, end, entry);
            pushed_contains(front, end, entry);
        }
        assert forall|i: int, j: int|
            #![trigger joined[i], joined[j]]
            0 <= i < j < joined.len() implies !String::before(
            joined[j].client_id,
            joined[i].client_id,
        ) by {
            assert(joined[i] == before[i]);
            if j < before.len() {
                assert(joined[j] == before[j]);
            } else {
                assert(before.contains(before[i]));
                String::before_irreflexive(end.client_id);
                String::before_transitive(
                    end.client_id,
                    subscription.client_id,
                    end.client_id,
                );
                if before[i] != subscription {
                    let k = choose|k: int| 0 <= k < front.len() && front[k] == before[i];
                    assert(members[k] == before[i]);
                    assert(members[members.len() - 1] == end);
                }
            }
        }
    }
}

/// A list with an item behind it holds what the list holds, and the item.
proof fn pushed_contains<A>(list: Seq<A>, last: A, item: A)
    ensures
        list.push(last).contains(item) <==> list.contains(item) || item == last,
{
    let longer = list.push(last);
    if list.contains(item) {
        let i = choose|i: int| 0 <= i < list.len() && list[i] == item;
        assert(longer[i] == item);
    }
    assert(longer[list.len() as int] == last);
    if longer.contains(item) {
        let i = choose|i: int| 0 <= i < longer.len() && longer[i] == item;
        if i < list.len() {
            assert(list[i] == item);
        }
    }
}

} // verus!
