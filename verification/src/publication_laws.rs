//! Who is sent a publication, and who is not.
use vstd::prelude::*;

use crate::broker::publication;
use crate::config::BrokerConfig;
use crate::copy_laws::copy_exists;
use crate::copy_laws::is_copy_for;
use crate::copy_laws::small_enough;
use crate::copy_laws::unacknowledged_is_sent_at_once;
use crate::delivery::DeliveryView;
use crate::delivery::after_retain;
use crate::delivery::group_of;
use crate::delivery::publish_to;
use crate::delivery::served;
use crate::delivery::share_key;
use crate::delivery::shared_groups;
use crate::delivery::unshared;
use crate::delivery_laws::groups_hold_connected_members;
use crate::delivery_laws::served_are_wanted;
use crate::delivery_laws::shared_groups_sound;
use crate::entrance_laws::filter_holds;
use crate::entrance_laws::session_lives;
use crate::inflight::free_id;
use crate::message::PendingView;
use crate::message::expiry_of;
use crate::mqtt_codec::fits_size;
use crate::ordered_map::OrderedKey;
use crate::ordered_map::entries_of;
use crate::ordered_map::key_has_entry;
use crate::ordered_map::key_index;
use crate::ordered_map::map_of_entry;
use crate::ordered_map::map_of_len;
use crate::packet::PacketView;
use crate::packet::PropertyView;
use crate::packet::PublishView;
use crate::packet::QoS;
use crate::protocol::valid_topic_filter;
use crate::protocol::valid_topic_name;
use crate::routing::publisher_of;
use crate::routing::reachable;
use crate::routing::routed;
use crate::routing::routed_all;
use crate::routing::target_of;
use crate::routing::terms_of;
use crate::routing::wanting;
use crate::routing::wants;
use crate::service_laws::in_flight;
use crate::service_laws::queue_full;
use crate::service_laws::routing_all_tells;
use crate::service_laws::sent_form;
use crate::service_laws::sent_in_flight;
use crate::service_laws::told;
use crate::service_laws::waits;
use crate::session::SessionView;
use crate::session::StateView;
use crate::session::session_expired;
use crate::session::without_expired;
use crate::state_laws::filtered_from;
use crate::subscription::EntryView;
use crate::topic_laws::filters_match_by_level;
use crate::topic_laws::topic_fits;
use crate::topic_laws::topic_shown;
use crate::write::WriteView;

verus! {

/// A subscription asks for what a connection publishes to a topic: the topic fits its filter, and
/// it is not one that wishes not to hear its own client while that client is the publisher.
pub open spec fn asks_for(
    state: StateView,
    entry: EntryView,
    publisher_connection_id: u64,
    topic: Seq<char>,
) -> bool {
    &&& topic_fits(entry.match_filter, topic)
    &&& topic_shown(entry.match_filter, topic)
    &&& entry.options.no_local && state.clients.dom().contains(publisher_connection_id)
        ==> state.clients[publisher_connection_id].client_id != entry.client_id
}

/// A message with these properties has not expired when it comes.
pub open spec fn lasting(properties: Seq<PropertyView>, now_ms: u64) -> bool {
    &&& now_ms < u64::MAX
    &&& forall|i: int|
        0 <= i < properties.len() ==> #[trigger] properties[i]
            != PropertyView::MessageExpiryInterval(0)
}

/// A message whose intervals are all above nought has not expired when it comes.
pub proof fn lasting_message_has_not_expired(properties: Seq<PropertyView>, now_ms: u64)
    requires
        lasting(properties, now_ms),
    ensures
        expiry_of(properties, now_ms) matches Some(at) ==> at > now_ms,
    decreases properties.len(),
{
    if properties.len() > 0 {
        let rest = properties.drop_first();
        assert(properties[0] != PropertyView::MessageExpiryInterval(0));
        assert forall|i: int| 0 <= i < rest.len() implies #[trigger] rest[i]
            != PropertyView::MessageExpiryInterval(0) by {
            assert(rest[i] == properties[i + 1]);
        }
        lasting_message_has_not_expired(rest, now_ms);
    }
}

/// A subscription that asks for a publication is one that wants it.
pub proof fn asking_is_wanting(
    state: StateView,
    entry: EntryView,
    publisher_connection_id: u64,
    topic: Seq<char>,
)
    requires
        valid_topic_filter(entry.match_filter),
        valid_topic_name(topic),
    ensures
        wants(entry, topic, publisher_of(state, publisher_connection_id)) <==> asks_for(
            state,
            entry,
            publisher_connection_id,
            topic,
        ),
{
    filters_match_by_level(entry.match_filter, topic);
}

/// A client is connected, and what is kept of it is at hand.
pub open spec fn within_reach(state: StateView, client_id: Seq<char>) -> bool {
    &&& state.connections.dom().contains(client_id)
    &&& state.clients.dom().contains(state.connections[client_id])
    &&& state.sessions.dom().contains(client_id)
}

/// The largest packet that a connected client takes.
pub open spec fn size_limit(state: StateView, client_id: Seq<char>) -> u32 {
    state.clients[state.connections[client_id]].maximum_packet_size
}

/// What goes to a connection.
pub open spec fn sent_to(connection_id: u64, packet: PublishView) -> DeliveryView {
    DeliveryView { connection_id, packet: WriteView::Packet(PacketView::Publish(packet)) }
}

/// A publication for one subscription leaves alone who is connected, who has a session, and the
/// sessions of all others.
proof fn routed_keeps_others(
    state: StateView,
    entry: EntryView,
    packet: PublishView,
    config: BrokerConfig,
    now_ms: u64,
)
    ensures
        ({
            let after = routed(state, entry, packet, config, now_ms).0;
            &&& after.connections == state.connections
            &&& after.clients == state.clients
            &&& after.sessions.dom() == state.sessions.dom()
            &&& forall|client_id: Seq<char>| #[trigger]
                state.sessions.dom().contains(client_id) && client_id != entry.client_id
                    ==> after.sessions[client_id] == state.sessions[client_id]
            &&& after.retained == state.retained
            &&& after.subscriptions == state.subscriptions
            &&& after.qos2_inflight == state.qos2_inflight
            &&& after.cursors == state.cursors
        }),
{
    let after = routed(state, entry, packet, config, now_ms).0;
    assert(after.sessions.dom() =~= state.sessions.dom());
}

/// A publication for some subscriptions leaves alone who is connected, who has a session, and the
/// sessions of all others.
proof fn routed_all_keeps_others(
    state: StateView,
    entries: Seq<EntryView>,
    packet: PublishView,
    config: BrokerConfig,
    now_ms: u64,
)
    ensures
        ({
            let after = routed_all(state, entries, packet, config, now_ms).0;
            &&& after.connections == state.connections
            &&& after.clients == state.clients
            &&& after.sessions.dom() == state.sessions.dom()
            &&& forall|client_id: Seq<char>| #[trigger]
                state.sessions.dom().contains(client_id) && (forall|k: int|
                    0 <= k < entries.len() ==> (#[trigger] entries[k]).client_id != client_id)
                    ==> after.sessions[client_id] == state.sessions[client_id]
            &&& after.retained == state.retained
            &&& after.subscriptions == state.subscriptions
            &&& after.qos2_inflight == state.qos2_inflight
            &&& after.cursors == state.cursors
        }),
    decreases entries.len(),
{
    if entries.len() > 0 {
        let front = entries.drop_last();
        let before = routed_all(state, front, packet, config, now_ms).0;
        routed_all_keeps_others(state, front, packet, config, now_ms);
        routed_keeps_others(before, entries.last(), packet, config, now_ms);
        let after = routed_all(state, entries, packet, config, now_ms).0;
        assert forall|client_id: Seq<char>| #[trigger]
            state.sessions.dom().contains(client_id) && (forall|k: int|
                0 <= k < entries.len() ==> (#[trigger] entries[k]).client_id != client_id)
            implies after.sessions[client_id] == state.sessions[client_id] by {
            assert forall|k: int| 0 <= k < front.len() implies (#[trigger] front[k]).client_id
                != client_id by {
                assert(front[k] == entries[k]);
            }
            assert(entries[entries.len() - 1].client_id != client_id);
        }
    }
}

/// A publication that needs no acknowledgement goes out for one subscription.
proof fn routed_sends(
    state: StateView,
    entry: EntryView,
    packet: PublishView,
    config: BrokerConfig,
    now_ms: u64,
    copy: PublishView,
)
    requires
        within_reach(state, entry.client_id),
        lasting(packet.properties, now_ms),
        packet.qos == QoS::AtMostOnce || entry.options.maximum_qos == QoS::AtMostOnce,
        is_copy_for(copy, packet, entry),
        copy.packet_id is None,
        small_enough(
            copy,
            state.clients[state.connections[entry.client_id]].maximum_packet_size,
        ),
    ensures
        routed(state, entry, packet, config, now_ms).1 == seq![
            sent_to(state.connections[entry.client_id], copy),
        ],
{
    lasting_message_has_not_expired(packet.properties, now_ms);
    let connection_id = state.connections[entry.client_id];
    let client = state.clients[connection_id];
    unacknowledged_is_sent_at_once(
        state.sessions[entry.client_id],
        target_of(connection_id, client),
        packet,
        terms_of(entry, packet, expiry_of(packet.properties, now_ms), config),
        now_ms,
        copy,
    );
}

/// A publication that needs no acknowledgement goes out for each of some subscriptions.
proof fn routed_all_sends(
    state: StateView,
    entries: Seq<EntryView>,
    packet: PublishView,
    config: BrokerConfig,
    now_ms: u64,
    index: int,
    copy: PublishView,
)
    requires
        0 <= index < entries.len(),
        within_reach(state, entries[index].client_id),
        lasting(packet.properties, now_ms),
        packet.qos == QoS::AtMostOnce || entries[index].options.maximum_qos == QoS::AtMostOnce,
        is_copy_for(copy, packet, entries[index]),
        copy.packet_id is None,
        small_enough(
            copy,
            state.clients[state.connections[entries[index].client_id]].maximum_packet_size,
        ),
    ensures
        routed_all(state, entries, packet, config, now_ms).1.contains(
            sent_to(state.connections[entries[index].client_id], copy),
        ),
    decreases entries.len(),
{
    let front = entries.drop_last();
    let before = routed_all(state, front, packet, config, now_ms);
    let step = routed(before.0, entries.last(), packet, config, now_ms);
    let all = routed_all(state, entries, packet, config, now_ms).1;
    let item = sent_to(state.connections[entries[index].client_id], copy);
    routed_all_keeps_others(state, front, packet, config, now_ms);
    if index < front.len() {
        assert(front[index] == entries[index]);
        routed_all_sends(state, front, packet, config, now_ms, index, copy);
        let i = choose|i: int| 0 <= i < before.1.len() && before.1[i] == item;
        assert(all[i] == item);
    } else {
        routed_sends(before.0, entries.last(), packet, config, now_ms, copy);
        assert(step.1[0] == item);
        assert(all[before.1.len() as int] == item);
    }
}

/// The state that a publication finds: without the sessions that have expired, and with what it
/// leaves behind as retained.
spec fn found(
    state: StateView,
    packet: PublishView,
    config: BrokerConfig,
    now_ms: u64,
) -> StateView {
    after_retain(without_expired(state, now_ms), packet, config, now_ms)
}

/// A subscription of a client whose session has not expired is still there.
proof fn subscription_stays(state: StateView, now_ms: u64, index: int)
    requires
        0 <= index < state.subscriptions.len(),
        !session_expired(state, state.subscriptions[index].client_id, now_ms),
    ensures
        without_expired(state, now_ms).subscriptions.contains(state.subscriptions[index]),
{
    let keep = |entry: EntryView| !session_expired(state, entry.client_id, now_ms);
    state.subscriptions.lemma_filter_contains(keep, index);
}

/// A publication that needs no acknowledgement is sent for every subscription that asks for it, is
/// not shared, and whose client is connected: also to the publisher itself, unless the subscription
/// wishes not to hear it. It is sent as it was published, but that it bears the subscription's
/// identifier, and is marked as retained only where it was published so and the subscription asks
/// to be told; it is left out only where that would be too large for the client.
pub proof fn subscriber_is_sent_what_it_asks_for(
    state: StateView,
    config: BrokerConfig,
    publisher_connection_id: u64,
    packet: PublishView,
    now_ms: u64,
    index: int,
    copy: PublishView,
)
    requires
        0 <= index < state.subscriptions.len(),
        valid_topic_filter(state.subscriptions[index].match_filter),
        valid_topic_name(packet.topic_name),
        state.subscriptions[index].shared_group is None,
        asks_for(
            state,
            state.subscriptions[index],
            publisher_connection_id,
            packet.topic_name,
        ),
        within_reach(state, state.subscriptions[index].client_id),
        lasting(packet.properties, now_ms),
        packet.qos == QoS::AtMostOnce || state.subscriptions[index].options.maximum_qos
            == QoS::AtMostOnce,
        is_copy_for(copy, packet, state.subscriptions[index]),
        copy.packet_id is None,
        small_enough(
            copy,
            size_limit(state, state.subscriptions[index].client_id),
        ),
    ensures
        publication(state, config, publisher_connection_id, packet, now_ms).1.contains(
            sent_to(state.connections[state.subscriptions[index].client_id], copy),
        ),
{
    let entry = state.subscriptions[index];
    let base = found(state, packet, config, now_ms);
    let publisher = publisher_of(base, publisher_connection_id);
    let wish = |entry: EntryView| wants(entry, packet.topic_name, publisher);
    let plain = |entry: EntryView| entry.shared_group is None;
    let wanted = wanting(base.subscriptions, packet.topic_name, publisher);
    let chosen = served(base, wanted);
    lasting_message_has_not_expired(packet.properties, now_ms);
    subscription_stays(state, now_ms, index);
    let b = choose|b: int| 0 <= b < base.subscriptions.len() && base.subscriptions[b] == entry;
    asking_is_wanting(base, entry, publisher_connection_id, packet.topic_name);
    assert(wish(base.subscriptions[b]));
    base.subscriptions.lemma_filter_contains(wish, b);
    let w = choose|w: int| 0 <= w < wanted.len() && wanted[w] == entry;
    assert(plain(wanted[w]));
    wanted.lemma_filter_contains(plain, w);
    served_are_wanted(base, wanted);
    let j = choose|j: int| 0 <= j < unshared(wanted).len() && unshared(wanted)[j] == entry;
    assert(chosen.1[j] == entry);
    routed_all_sends(chosen.0, chosen.1, packet, config, now_ms, j, copy);
}

/// Something that is sent is what goes out of a publication for a subscription, to the connection
/// of the subscription's client, small enough for that client, and under an identifier if and only
/// if it is to be acknowledged.
pub open spec fn sent_for(
    state: StateView,
    delivery: DeliveryView,
    packet: PublishView,
    entry: EntryView,
) -> bool {
    &&& within_reach(state, entry.client_id)
    &&& delivery.connection_id == state.connections[entry.client_id]
    &&& delivery.packet matches WriteView::Packet(PacketView::Publish(copy)) && {
        &&& is_copy_for(copy, packet, entry)
        &&& small_enough(copy, state.clients[delivery.connection_id].maximum_packet_size)
        &&& copy.packet_id is None <==> copy.qos == QoS::AtMostOnce
    }
}

/// What is sent for one subscription is one copy at most.
proof fn routed_is_copy(
    state: StateView,
    entry: EntryView,
    packet: PublishView,
    config: BrokerConfig,
    now_ms: u64,
)
    ensures
        ({
            let sent = routed(state, entry, packet, config, now_ms).1;
            &&& sent.len() <= 1
            &&& sent.len() == 1 ==> sent_for(state, sent[0], packet, entry)
        }),
{
    if let Some((connection_id, client, session)) = reachable(state, entry.client_id) {
        let target = target_of(connection_id, client);
        let terms = terms_of(entry, packet, expiry_of(packet.properties, now_ms), config);
        let id = free_id(session);
        copy_exists(packet, terms.maximum_qos, terms.retain, terms.subscription_identifier, None);
        copy_exists(packet, terms.maximum_qos, terms.retain, terms.subscription_identifier, id);
    }
}

/// Everything that is sent for some subscriptions is a copy for one of them.
proof fn routed_all_are_copies(
    state: StateView,
    entries: Seq<EntryView>,
    packet: PublishView,
    config: BrokerConfig,
    now_ms: u64,
)
    ensures
        ({
            let sent = routed_all(state, entries, packet, config, now_ms).1;
            &&& sent.len() <= entries.len()
            &&& forall|i: int|
                0 <= i < sent.len() ==> exists|k: int|
                    0 <= k < entries.len() && sent_for(
                        state,
                        #[trigger] sent[i],
                        packet,
                        #[trigger] entries[k],
                    )
        }),
    decreases entries.len(),
{
    if entries.len() > 0 {
        let front = entries.drop_last();
        let last = entries.len() - 1;
        let before = routed_all(state, front, packet, config, now_ms);
        let step = routed(before.0, entries.last(), packet, config, now_ms);
        let sent = routed_all(state, entries, packet, config, now_ms).1;
        routed_all_are_copies(state, front, packet, config, now_ms);
        routed_all_keeps_others(state, front, packet, config, now_ms);
        routed_is_copy(before.0, entries.last(), packet, config, now_ms);
        assert forall|i: int| 0 <= i < sent.len() implies exists|k: int|
            0 <= k < entries.len() && sent_for(
                state,
                #[trigger] sent[i],
                packet,
                #[trigger] entries[k],
            ) by {
            if i < before.1.len() {
                assert(sent[i] == before.1[i]);
                let k = choose|k: int|
                    0 <= k < front.len() && sent_for(
                        state,
                        before.1[i],
                        packet,
                        #[trigger] front[k],
                    );
                assert(entries[k] == front[k]);
                assert(sent_for(state, sent[i], packet, entries[k]));
            } else {
                assert(sent[i] == step.1[i - before.1.len()]);
                assert(sent_for(state, sent[i], packet, entries[last]));
            }
        }
    }
}

/// Everything that a publication sends is a copy of it for a subscription that asks for it: nobody
/// else is sent anything, nobody is sent anything else, and in particular nothing goes out with a
/// quality of service above the one that it was published with.
pub proof fn only_copies_are_sent(
    state: StateView,
    config: BrokerConfig,
    publisher_connection_id: u64,
    packet: PublishView,
    now_ms: u64,
    index: int,
)
    requires
        valid_topic_name(packet.topic_name),
        forall|k: int|
            0 <= k < state.subscriptions.len() ==> valid_topic_filter(
                (#[trigger] state.subscriptions[k]).match_filter,
            ),
        0 <= index < publication(
            state,
            config,
            publisher_connection_id,
            packet,
            now_ms,
        ).1.len(),
    ensures
        ({
            let delivery = publication(
                state,
                config,
                publisher_connection_id,
                packet,
                now_ms,
            ).1[index];
            exists|k: int|
                0 <= k < state.subscriptions.len() && asks_for(
                    state,
                    #[trigger] state.subscriptions[k],
                    publisher_connection_id,
                    packet.topic_name,
                ) && sent_for(state, delivery, packet, state.subscriptions[k])
        }),
{
    let base = found(state, packet, config, now_ms);
    let sent = publication(state, config, publisher_connection_id, packet, now_ms).1;
    let publisher = publisher_of(base, publisher_connection_id);
    let keep = |entry: EntryView| !session_expired(state, entry.client_id, now_ms);
    let wish = |entry: EntryView| wants(entry, packet.topic_name, publisher);
    let wanted = wanting(base.subscriptions, packet.topic_name, publisher);
    let chosen = served(base, wanted);
    served_are_wanted(base, wanted);
    routed_all_are_copies(chosen.0, chosen.1, packet, config, now_ms);
    let j = choose|j: int|
        0 <= j < chosen.1.len() && sent_for(
            chosen.0,
            sent[index],
            packet,
            #[trigger] chosen.1[j],
        );
    let entry = chosen.1[j];
    assert(wanted.contains(entry));
    let w = choose|w: int| 0 <= w < wanted.len() && wanted[w] == entry;
    filtered_from(base.subscriptions, wish, w);
    let b = choose|b: int| 0 <= b < base.subscriptions.len() && base.subscriptions[b] == entry;
    filtered_from(state.subscriptions, keep, b);
    let k = choose|k: int| 0 <= k < state.subscriptions.len() && state.subscriptions[k] == entry;
    assert(valid_topic_filter(state.subscriptions[k].match_filter));
    asking_is_wanting(base, entry, publisher_connection_id, packet.topic_name);
    assert(asks_for(
        state,
        state.subscriptions[k],
        publisher_connection_id,
        packet.topic_name,
    ));
    assert(sent_for(state, sent[index], packet, state.subscriptions[k]));
}

/// A publication that has expired when it comes is sent to nobody.
pub proof fn expired_publication_is_not_sent(
    state: StateView,
    config: BrokerConfig,
    publisher_connection_id: u64,
    packet: PublishView,
    now_ms: u64,
)
    requires
        expiry_of(packet.properties, now_ms) matches Some(at) && at <= now_ms,
    ensures
        publication(state, config, publisher_connection_id, packet, now_ms).1.len() == 0,
{
}

/// A publication goes out no more often than there are subscriptions that ask for it.
pub proof fn each_subscription_is_served_once(
    state: StateView,
    config: BrokerConfig,
    publisher_connection_id: u64,
    packet: PublishView,
    now_ms: u64,
)
    requires
        valid_topic_name(packet.topic_name),
        forall|k: int|
            0 <= k < state.subscriptions.len() ==> valid_topic_filter(
                (#[trigger] state.subscriptions[k]).match_filter,
            ),
    ensures
        publication(state, config, publisher_connection_id, packet, now_ms).1.len()
            <= state.subscriptions.filter(
            |entry: EntryView|
                asks_for(state, entry, publisher_connection_id, packet.topic_name),
        ).len(),
{
    let base = found(state, packet, config, now_ms);
    let publisher = publisher_of(base, publisher_connection_id);
    let keep = |entry: EntryView| !session_expired(state, entry.client_id, now_ms);
    let wish = |entry: EntryView| wants(entry, packet.topic_name, publisher);
    let ask = |entry: EntryView|
        asks_for(state, entry, publisher_connection_id, packet.topic_name);
    let wanted = wanting(base.subscriptions, packet.topic_name, publisher);
    let chosen = served(base, wanted);
    routed_all_are_copies(chosen.0, chosen.1, packet, config, now_ms);
    served_are_wanted(base, wanted);
    groups_are_no_more(base, wanted);
    assert forall|entry: EntryView| state.subscriptions.contains(entry) && #[trigger] wish(
        entry,
    ) implies ask(entry) by {
        let k = choose|k: int|
            0 <= k < state.subscriptions.len() && state.subscriptions[k] == entry;
        assert(valid_topic_filter(state.subscriptions[k].match_filter));
        asking_is_wanting(base, entry, publisher_connection_id, packet.topic_name);
    }
    filtered_twice_is_no_more(state.subscriptions, keep, wish, ask);
}

/// What passes two tests is no more than what passes a third that the second implies.
proof fn filtered_twice_is_no_more<A>(
    items: Seq<A>,
    first: spec_fn(A) -> bool,
    second: spec_fn(A) -> bool,
    third: spec_fn(A) -> bool,
)
    requires
        forall|item: A| items.contains(item) && #[trigger] second(item) ==> third(item),
    ensures
        items.filter(first).filter(second).len() <= items.filter(third).len(),
    decreases items.len(),
{
    reveal(Seq::filter);
    if items.len() > 0 {
        let front = items.drop_last();
        let last = items.last();
        assert(items[items.len() - 1] == last);
        assert forall|item: A| front.contains(item) && #[trigger] second(item) implies third(
            item,
        ) by {
            let i = choose|i: int| 0 <= i < front.len() && front[i] == item;
            assert(items[i] == item);
        }
        filtered_twice_is_no_more(front, first, second, third);
        if first(last) {
            let kept = front.filter(first);
            assert(kept.push(last).drop_last() =~= kept);
            assert(items.filter(first) =~= kept.push(last));
        }
    }
}

/// There are no more groups than subscriptions that are shared.
proof fn groups_are_no_more(state: StateView, subscriptions: Seq<EntryView>)
    ensures
        unshared(subscriptions).len() + entries_of::<String, Seq<EntryView>>(
            shared_groups(state, subscriptions),
        ).len() <= subscriptions.len(),
{
    shared_groups_sound(state, subscriptions);
    map_of_len::<String, Seq<EntryView>>(
        entries_of::<String, Seq<EntryView>>(shared_groups(state, subscriptions)),
    );
    groups_counted(state, subscriptions);
}

proof fn groups_counted(state: StateView, subscriptions: Seq<EntryView>)
    ensures
        shared_groups(state, subscriptions).dom().finite(),
        unshared(subscriptions).len() + shared_groups(state, subscriptions).dom().len()
            <= subscriptions.len(),
    decreases subscriptions.len(),
{
    reveal(Seq::filter);
    if subscriptions.len() > 0 {
        groups_counted(state, subscriptions.drop_last());
    }
}

/// A publication touches no session of a client that holds no subscription that asks for it, unless
/// that session has expired; and nothing else but what is retained under its own topic, whose turn
/// it is in each group, and what is noted as changed.
pub proof fn others_are_left_alone(
    state: StateView,
    config: BrokerConfig,
    publisher_connection_id: u64,
    packet: PublishView,
    now_ms: u64,
    client_id: Seq<char>,
)
    requires
        valid_topic_name(packet.topic_name),
        forall|k: int|
            0 <= k < state.subscriptions.len() ==> valid_topic_filter(
                (#[trigger] state.subscriptions[k]).match_filter,
            ),
        state.sessions.dom().contains(client_id),
        state.connections.dom().contains(client_id) || (
        state.sessions[client_id].expires_at_ms matches Some(at) ==> at > now_ms),
        forall|k: int|
            0 <= k < state.subscriptions.len() && (#[trigger] state.subscriptions[k]).client_id
                == client_id ==> !asks_for(
                state,
                state.subscriptions[k],
                publisher_connection_id,
                packet.topic_name,
            ),
    ensures
        ({
            let after = publication(
                state,
                config,
                publisher_connection_id,
                packet,
                now_ms,
            ).0;
            &&& after.sessions.dom().contains(client_id)
            &&& after.sessions[client_id] == state.sessions[client_id]
            &&& after.connections == state.connections
            &&& after.clients == state.clients
            &&& after.qos2_inflight == state.qos2_inflight
            &&& forall|topic: Seq<char>|
                topic != packet.topic_name ==> #[trigger] state.retained.dom().contains(topic)
                    == after.retained.dom().contains(topic) && state.retained[topic]
                    == after.retained[topic]
        }),
{
    let base = found(state, packet, config, now_ms);
    let publisher = publisher_of(base, publisher_connection_id);
    let keep = |entry: EntryView| !session_expired(state, entry.client_id, now_ms);
    let wish = |entry: EntryView| wants(entry, packet.topic_name, publisher);
    let wanted = wanting(base.subscriptions, packet.topic_name, publisher);
    let chosen = served(base, wanted);
    served_are_wanted(base, wanted);
    routed_all_keeps_others(chosen.0, chosen.1, packet, config, now_ms);
    assert(base.sessions.dom().contains(client_id));
    assert forall|k: int| 0 <= k < chosen.1.len() implies (#[trigger] chosen.1[k]).client_id
        != client_id by {
        let entry = chosen.1[k];
        assert(wanted.contains(entry));
        let w = choose|w: int| 0 <= w < wanted.len() && wanted[w] == entry;
        filtered_from(base.subscriptions, wish, w);
        let b = choose|b: int|
            0 <= b < base.subscriptions.len() && base.subscriptions[b] == entry;
        filtered_from(state.subscriptions, keep, b);
        let s = choose|s: int|
            0 <= s < state.subscriptions.len() && state.subscriptions[s] == entry;
        assert(valid_topic_filter(state.subscriptions[s].match_filter));
        asking_is_wanting(base, entry, publisher_connection_id, packet.topic_name);
    }
}

/// Something is in flight in a session under its own identifier, and expires when it is said to.
pub open spec fn is_in_flight(
    session: SessionView,
    copy: PublishView,
    expires_at_ms: Option<u64>,
) -> bool {
    copy.packet_id matches Some(id) && {
        &&& copy.qos == QoS::AtLeastOnce ==> session.outbound_qos1.dom().contains(id)
            && session.outbound_qos1[id] == (PendingView { packet: copy, expires_at_ms })
        &&& copy.qos == QoS::ExactlyOnce ==> session.outbound_qos2_publish.dom().contains(id)
            && session.outbound_qos2_publish[id] == (PendingView { packet: copy, expires_at_ms })
    }
}

/// What became of a publication that is to be acknowledged, for a subscription: it was sent and is
/// in flight, or it waits; or the queue is full, or it is too large for the client.
pub open spec fn not_lost(
    state: StateView,
    outcome: (StateView, Seq<DeliveryView>),
    config: BrokerConfig,
    packet: PublishView,
    entry: EntryView,
    now_ms: u64,
) -> bool {
    let session = outcome.0.sessions[entry.client_id];
    let expires_at_ms = expiry_of(packet.properties, now_ms);
    let connected = within_reach(state, entry.client_id);
    &&& outcome.0.sessions.dom().contains(entry.client_id)
    &&& {
        ||| connected && exists|copy: PublishView|
            #![trigger is_copy_for(copy, packet, entry)]
            is_copy_for(copy, packet, entry) && outcome.1.contains(
                sent_to(state.connections[entry.client_id], copy),
            ) && is_in_flight(session, copy, expires_at_ms)
        ||| exists|i: int|
            0 <= i < session.offline_queue.len() && is_copy_for(
                (#[trigger] session.offline_queue[i]).pending.packet,
                packet,
                entry,
            ) && session.offline_queue[i].pending.packet.packet_id is None
                && session.offline_queue[i].pending.expires_at_ms == expires_at_ms
        ||| session.offline_queue.len() >= config.max_offline_queue_len
        ||| session.next_offline_sequence >= 0x7fff_ffff_ffff_ffff
        ||| connected && exists|copy: PublishView|
            #![trigger is_copy_for(copy, packet, entry)]
            is_copy_for(copy, packet, entry) && copy.packet_id is Some && copy.packet_id != Some(
                0u16,
            ) && !small_enough(
                copy,
                state.clients[state.connections[entry.client_id]].maximum_packet_size,
            )
    }
}

/// What was told of in the words of the queue and of what is in flight is not lost.
proof fn told_is_not_lost(
    state: StateView,
    outcome: (StateView, Seq<DeliveryView>),
    config: BrokerConfig,
    packet: PublishView,
    entry: EntryView,
    now_ms: u64,
)
    requires
        told(state, outcome.0, outcome.1, entry, packet, config, now_ms),
        packet.qos != QoS::AtMostOnce,
        entry.options.maximum_qos != QoS::AtMostOnce,
    ensures
        not_lost(state, outcome, config, packet, entry, now_ms),
{
    let session = outcome.0.sessions[entry.client_id];
    let expires_at_ms = expiry_of(packet.properties, now_ms);
    let retain = entry.options.retain_as_published && packet.retain;
    let plain = sent_form(entry, packet, None);
    let identifier = entry.subscription_identifier;
    copy_exists(packet, entry.options.maximum_qos, retain, identifier, None);
    if waits(session, plain, expires_at_ms) {
        let i = choose|i: int|
            0 <= i < session.offline_queue.len() && (#[trigger] session.offline_queue[i]).pending
                == (PendingView { packet: plain, expires_at_ms });
        assert(is_copy_for(session.offline_queue[i].pending.packet, packet, entry));
    } else if !queue_full(session, config) {
        let (connection_id, client, _) = reachable(state, entry.client_id)->0;
        if sent_in_flight(session, outcome.1, connection_id, entry, packet, expires_at_ms) {
            let id = choose|id: u16|
                outcome.1.contains(
                    publish_to(connection_id, #[trigger] sent_form(entry, packet, Some(id))),
                ) && in_flight(session, id, sent_form(entry, packet, Some(id)), expires_at_ms);
            let copy = sent_form(entry, packet, Some(id));
            copy_exists(packet, entry.options.maximum_qos, retain, identifier, Some(id));
            assert(is_copy_for(copy, packet, entry));
            assert(is_in_flight(session, copy, expires_at_ms));
        } else {
            let id = choose|id: u16|
                id != 0 && !fits_size(
                    #[trigger] sent_form(entry, packet, Some(id)),
                    client.maximum_packet_size,
                );
            let copy = sent_form(entry, packet, Some(id));
            copy_exists(packet, entry.options.maximum_qos, retain, identifier, Some(id));
            assert(is_copy_for(copy, packet, entry));
        }
    }
}

/// A publication that is to be acknowledged is not lost for a subscription that asks for it, is not
/// shared, and whose client is connected or has a session that outlasts connections: it is sent and
/// in flight, or it waits; unless the queue is full or it is too large for the client.
pub proof fn acknowledged_publication_is_not_lost(
    state: StateView,
    config: BrokerConfig,
    publisher_connection_id: u64,
    packet: PublishView,
    now_ms: u64,
    index: int,
)
    requires
        0 <= index < state.subscriptions.len(),
        valid_topic_filter(state.subscriptions[index].match_filter),
        valid_topic_name(packet.topic_name),
        state.subscriptions[index].shared_group is None,
        asks_for(
            state,
            state.subscriptions[index],
            publisher_connection_id,
            packet.topic_name,
        ),
        lasting(packet.properties, now_ms),
        packet.qos != QoS::AtMostOnce,
        state.subscriptions[index].options.maximum_qos != QoS::AtMostOnce,
        state.sessions.dom().contains(state.subscriptions[index].client_id),
        state.sessions[state.subscriptions[index].client_id].next_packet_id != 0,
        within_reach(state, state.subscriptions[index].client_id) || {
            let client_id = state.subscriptions[index].client_id;
            &&& !state.connections.dom().contains(client_id)
            &&& state.sessions[client_id].session_expiry_interval > 0
            &&& state.sessions[client_id].expires_at_ms matches Some(at) ==> at > now_ms
        },
    ensures
        not_lost(
            state,
            publication(state, config, publisher_connection_id, packet, now_ms),
            config,
            packet,
            state.subscriptions[index],
            now_ms,
        ),
{
    let entry = state.subscriptions[index];
    let base = found(state, packet, config, now_ms);
    let publisher = publisher_of(base, publisher_connection_id);
    let wish = |entry: EntryView| wants(entry, packet.topic_name, publisher);
    let plain = |entry: EntryView| entry.shared_group is None;
    let wanted = wanting(base.subscriptions, packet.topic_name, publisher);
    let chosen = served(base, wanted);
    let outcome = publication(state, config, publisher_connection_id, packet, now_ms);
    lasting_message_has_not_expired(packet.properties, now_ms);
    subscription_stays(state, now_ms, index);
    let b = choose|b: int| 0 <= b < base.subscriptions.len() && base.subscriptions[b] == entry;
    asking_is_wanting(base, entry, publisher_connection_id, packet.topic_name);
    assert(wish(base.subscriptions[b]));
    base.subscriptions.lemma_filter_contains(wish, b);
    let w = choose|w: int| 0 <= w < wanted.len() && wanted[w] == entry;
    assert(plain(wanted[w]));
    wanted.lemma_filter_contains(plain, w);
    served_are_wanted(base, wanted);
    let j = choose|j: int| 0 <= j < unshared(wanted).len() && unshared(wanted)[j] == entry;
    assert(chosen.1[j] == entry);
    routing_all_tells(chosen.0, chosen.1, packet, config, now_ms, entry.client_id);
    assert(told(chosen.0, outcome.0, outcome.1, chosen.1[j], packet, config, now_ms));
    told_is_not_lost(chosen.0, outcome, config, packet, entry, now_ms);
    assert(not_lost(chosen.0, outcome, config, packet, entry, now_ms));
}

/// Two shared subscriptions are of one group: they share its name and the filter.
pub open spec fn same_group(a: EntryView, b: EntryView) -> bool {
    a.shared_group is Some && a.shared_group == b.shared_group && a.match_filter == b.match_filter
}

/// Groups are told apart by their names and their filters.
pub proof fn groups_are_told_apart(a: EntryView, b: EntryView)
    requires
        a.shared_group matches Some(name) && !name.contains('/'),
        b.shared_group matches Some(name) && !name.contains('/'),
    ensures
        share_key(a) == share_key(b) <==> same_group(a, b),
{
    let first = a.shared_group->0;
    let second = b.shared_group->0;
    if share_key(a) == share_key(b) {
        let key = share_key(a);
        if first.len() < second.len() {
            assert(key[first.len() as int] == '/');
            assert(key[first.len() as int] == second[first.len() as int]);
            assert(second.contains('/'));
        }
        if second.len() < first.len() {
            assert(share_key(b)[second.len() as int] == '/');
            assert(key[second.len() as int] == first[second.len() as int]);
            assert(first.contains('/'));
        }
        assert(first =~= key.subrange(0, first.len() as int));
        assert(second =~= share_key(b).subrange(0, second.len() as int));
        assert(a.match_filter =~= key.subrange(first.len() + 1int, key.len() as int));
        assert(b.match_filter =~= share_key(b).subrange(second.len() + 1int, key.len() as int));
    }
}

/// The names of groups hold no slash.
pub open spec fn groups_named(entries: Seq<EntryView>) -> bool {
    forall|k: int|
        0 <= k < entries.len() && (#[trigger] entries[k]).shared_group is Some
            ==> !(entries[k].shared_group->0).contains('/')
}

/// The subscriptions that are served of some that want a publication are of different groups where
/// they are shared, and each group that has a connected member is served.
pub proof fn one_of_each_group_is_served(state: StateView, wanted: Seq<EntryView>)
    requires
        groups_named(wanted),
    ensures
        ({
            let chosen = served(state, wanted).1;
            &&& forall|i: int, j: int|
                #![trigger chosen[i], chosen[j]]
                0 <= i < j < chosen.len() ==> !same_group(chosen[i], chosen[j])
            &&& forall|k: int|
                0 <= k < wanted.len() && (#[trigger] wanted[k]).shared_group is Some
                    && state.connections.dom().contains(wanted[k].client_id) ==> exists|i: int|
                    0 <= i < chosen.len() && same_group(#[trigger] chosen[i], wanted[k])
                        && state.connections.dom().contains(chosen[i].client_id)
        }),
{
    let map = shared_groups(state, wanted);
    let groups = entries_of::<String, Seq<EntryView>>(map);
    let plain = unshared(wanted);
    let chosen = served(state, wanted).1;
    shared_groups_sound(state, wanted);
    served_are_wanted(state, wanted);
    assert forall|i: int| plain.len() <= i < chosen.len() implies {
        let entry = #[trigger] chosen[i];
        &&& entry.shared_group is Some
        &&& !(entry.shared_group->0).contains('/')
        &&& share_key(entry) == groups[i - plain.len()].0
        &&& state.connections.dom().contains(entry.client_id)
    } by {
        let g = i - plain.len();
        map_of_entry::<String, Seq<EntryView>>(groups, g);
        let key = groups[g].0;
        assert(map.dom().contains(key));
        assert(groups[g].1.contains(chosen[plain.len() + g]));
        groups_hold_connected_members(state, wanted, key);
        assert(group_of(map, key).contains(chosen[i]));
        let k = choose|k: int| 0 <= k < wanted.len() && wanted[k] == chosen[i];
        assert(wanted[k].shared_group is Some);
    }
    assert forall|i: int, j: int|
        #![trigger chosen[i], chosen[j]]
        0 <= i < j < chosen.len() implies !same_group(chosen[i], chosen[j]) by {
        if i < plain.len() {
            assert(chosen[i] == plain[i]);
            filtered_from(wanted, |entry: EntryView| entry.shared_group is None, i);
        } else {
            let g = i - plain.len();
            let h = j - plain.len();
            String::before_irreflexive(groups[g].0);
            assert(String::before(groups[g].0, groups[h].0));
            groups_are_told_apart(chosen[i], chosen[j]);
        }
    }
    assert forall|k: int|
        0 <= k < wanted.len() && (#[trigger] wanted[k]).shared_group is Some
            && state.connections.dom().contains(wanted[k].client_id) implies exists|i: int|
        0 <= i < chosen.len() && same_group(#[trigger] chosen[i], wanted[k])
            && state.connections.dom().contains(chosen[i].client_id) by {
        let key = share_key(wanted[k]);
        assert(wanted.contains(wanted[k]));
        groups_hold_connected_members(state, wanted, key);
        assert(group_of(map, key).contains(wanted[k]));
        assert(map.dom().contains(key));
        key_has_entry(groups, key);
        let g = key_index(groups, key);
        let i = plain.len() + g;
        assert(chosen[i].shared_group is Some);
        groups_are_told_apart(chosen[i], wanted[k]);
        assert(same_group(chosen[i], wanted[k]));
    }
}

/// A publication that needs no acknowledgement is sent to a member of every group of which a
/// connected member asks for it, if it is not too large for the members.
#[verifier::rlimit(60)]
pub proof fn group_is_sent_what_it_asks_for(
    state: StateView,
    config: BrokerConfig,
    publisher_connection_id: u64,
    packet: PublishView,
    now_ms: u64,
    index: int,
)
    requires
        0 <= index < state.subscriptions.len(),
        valid_topic_name(packet.topic_name),
        packet.qos == QoS::AtMostOnce,
        lasting(packet.properties, now_ms),
        groups_named(state.subscriptions),
        forall|client_id: Seq<char>| #[trigger]
            state.connections.dom().contains(client_id) ==> within_reach(state, client_id),
        forall|k: int|
            0 <= k < state.subscriptions.len() ==> valid_topic_filter(
                (#[trigger] state.subscriptions[k]).match_filter,
            ),
        state.subscriptions[index].shared_group is Some,
        asks_for(
            state,
            state.subscriptions[index],
            publisher_connection_id,
            packet.topic_name,
        ),
        state.connections.dom().contains(state.subscriptions[index].client_id),
        forall|k: int, copy: PublishView|
            0 <= k < state.subscriptions.len() && same_group(
                state.subscriptions[k],
                state.subscriptions[index],
            ) && #[trigger] is_copy_for(copy, packet, state.subscriptions[k]) && copy.packet_id
                is None ==> small_enough(
                copy,
                size_limit(state, state.subscriptions[k].client_id),
            ),
    ensures
        exists|k: int, copy: PublishView|
            0 <= k < state.subscriptions.len() && same_group(
                state.subscriptions[k],
                state.subscriptions[index],
            ) && asks_for(
                state,
                state.subscriptions[k],
                publisher_connection_id,
                packet.topic_name,
            ) && #[trigger] is_copy_for(copy, packet, state.subscriptions[k]) && publication(
                state,
                config,
                publisher_connection_id,
                packet,
                now_ms,
            ).1.contains(sent_to(state.connections[state.subscriptions[k].client_id], copy)),
{
    let base = found(state, packet, config, now_ms);
    let publisher = publisher_of(base, publisher_connection_id);
    let keep = |entry: EntryView| !session_expired(state, entry.client_id, now_ms);
    let wish = |entry: EntryView| wants(entry, packet.topic_name, publisher);
    let wanted = wanting(base.subscriptions, packet.topic_name, publisher);
    let chosen = served(base, wanted);
    let entry = state.subscriptions[index];
    lasting_message_has_not_expired(packet.properties, now_ms);
    subscription_stays(state, now_ms, index);
    let b = choose|b: int| 0 <= b < base.subscriptions.len() && base.subscriptions[b] == entry;
    asking_is_wanting(base, entry, publisher_connection_id, packet.topic_name);
    assert(wish(base.subscriptions[b]));
    base.subscriptions.lemma_filter_contains(wish, b);
    let w = choose|w: int| 0 <= w < wanted.len() && wanted[w] == entry;
    assert forall|m: int| 0 <= m < wanted.len() implies exists|k: int|
        0 <= k < state.subscriptions.len() && state.subscriptions[k] == #[trigger] wanted[m]
            && asks_for(
            state,
            state.subscriptions[k],
            publisher_connection_id,
            packet.topic_name,
        ) by {
        filtered_from(base.subscriptions, wish, m);
        let c = choose|c: int|
            0 <= c < base.subscriptions.len() && base.subscriptions[c] == wanted[m];
        filtered_from(state.subscriptions, keep, c);
        let k = choose|k: int|
            0 <= k < state.subscriptions.len() && state.subscriptions[k] == wanted[m];
        assert(valid_topic_filter(state.subscriptions[k].match_filter));
        asking_is_wanting(base, wanted[m], publisher_connection_id, packet.topic_name);
    }
    assert(groups_named(wanted)) by {
        assert forall|m: int|
            0 <= m < wanted.len() && (#[trigger] wanted[m]).shared_group is Some implies !(
        wanted[m].shared_group->0).contains('/') by {
            let k = choose|k: int|
                0 <= k < state.subscriptions.len() && state.subscriptions[k] == wanted[m];
            assert(state.subscriptions[k].shared_group is Some);
        }
    }
    one_of_each_group_is_served(base, wanted);
    served_are_wanted(base, wanted);
    assert(wanted[w].shared_group is Some);
    let i = choose|i: int|
        0 <= i < chosen.1.len() && same_group(#[trigger] chosen.1[i], wanted[w])
            && base.connections.dom().contains(chosen.1[i].client_id);
    assert(wanted.contains(chosen.1[i]));
    let m = choose|m: int| 0 <= m < wanted.len() && wanted[m] == chosen.1[i];
    let k = choose|k: int|
        0 <= k < state.subscriptions.len() && state.subscriptions[k] == wanted[m] && asks_for(
            state,
            state.subscriptions[k],
            publisher_connection_id,
            packet.topic_name,
        );
    let member = state.subscriptions[k];
    let copy = sent_form(member, packet, None);
    copy_exists(
        packet,
        member.options.maximum_qos,
        member.options.retain_as_published && packet.retain,
        member.subscription_identifier,
        None,
    );
    assert(is_copy_for(copy, packet, state.subscriptions[k]));
    assert(state.connections.dom().contains(member.client_id));
    routed_all_sends(chosen.0, chosen.1, packet, config, now_ms, i, copy);
}

/// The expired sessions are gone from a state, with their subscriptions, and nothing else is.
pub proof fn expired_sessions_are_dropped(
    state: StateView,
    now_ms: u64,
    client_id: Seq<char>,
    entry: EntryView,
)
    ensures
        ({
            let after = without_expired(state, now_ms);
            &&& after.sessions.dom().contains(client_id) <==> session_lives(
                state,
                client_id,
                now_ms,
            )
            &&& after.sessions.dom().contains(client_id) ==> after.sessions[client_id]
                == state.sessions[client_id]
            &&& after.subscriptions.contains(entry) <==> state.subscriptions.contains(entry) && (
            state.sessions.dom().contains(entry.client_id) ==> session_lives(
                state,
                entry.client_id,
                now_ms,
            ))
            &&& after == (StateView {
                sessions: after.sessions,
                subscriptions: after.subscriptions,
                client_changes: after.client_changes,
                ..state
            })
        }),
{
    filter_holds(
        state.subscriptions,
        |entry: EntryView| !session_expired(state, entry.client_id, now_ms),
        entry,
    );
}

/// A publication finds no expired session: such sessions are gone afterwards, with their
/// subscriptions, and all others are there.
pub proof fn publication_drops_expired_sessions(
    state: StateView,
    config: BrokerConfig,
    publisher_connection_id: u64,
    packet: PublishView,
    now_ms: u64,
    client_id: Seq<char>,
    entry: EntryView,
)
    ensures
        ({
            let after = publication(
                state,
                config,
                publisher_connection_id,
                packet,
                now_ms,
            ).0;
            &&& after.sessions.dom().contains(client_id) <==> session_lives(
                state,
                client_id,
                now_ms,
            )
            &&& after.subscriptions.contains(entry) <==> state.subscriptions.contains(entry) && (
            state.sessions.dom().contains(entry.client_id) ==> session_lives(
                state,
                entry.client_id,
                now_ms,
            ))
        }),
{
    let base = found(state, packet, config, now_ms);
    let publisher = publisher_of(base, publisher_connection_id);
    let wanted = wanting(base.subscriptions, packet.topic_name, publisher);
    let chosen = served(base, wanted);
    expired_sessions_are_dropped(state, now_ms, client_id, entry);
    routed_all_keeps_others(chosen.0, chosen.1, packet, config, now_ms);
}

} // verus!
