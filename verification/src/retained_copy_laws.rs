//! What is retained of a publication, and what a new subscription is sent of it.
use vstd::prelude::*;
use vstd::utf8::encode_utf8;

use crate::config::BrokerConfig;
use crate::copy_laws::carries;
use crate::copy_laws::copy_exists;
use crate::copy_laws::copy_is_one;
use crate::copy_laws::is_copy;
use crate::copy_laws::shared_quality;
use crate::copy_laws::small_enough;
use crate::delivery::DeliveryView;
use crate::delivery::after_retain;
use crate::delivery::can_store;
use crate::delivery::publishes_to;
use crate::inflight::DeliveryTarget;
use crate::inflight::free_id;
use crate::message::PendingView;
use crate::message::expiry_of;
use crate::mqtt_codec::fits_fast;
use crate::mqtt_codec::fits_size;
use crate::mqtt_codec::outgoing;
use crate::mqtt_codec::plain_publish_bytes;
use crate::mqtt_codec::plain_size_is_length;
use crate::ordered_map::OrderedKey;
use crate::ordered_map::entries_of;
use crate::ordered_map::listed;
use crate::ordered_map::listed_part;
use crate::ordered_map::map_of_len;
use crate::packet::PacketView;
use crate::packet::PublishView;
use crate::packet::QoS;
use crate::protocol::levels;
use crate::protocol::valid_topic_filter;
use crate::protocol::valid_topic_name;
use crate::publication_laws::is_in_flight;
use crate::publication_laws::sent_to;
use crate::retained_laws::offer_form;
use crate::retained_laws::offered;
use crate::retained_laws::offered_in_flight;
use crate::retained_laws::retained_message_reaches_subscriber;
use crate::retained_message::RetainedView;
use crate::retained_store::is_matching_list;
use crate::retained_store::is_matching_topics;
use crate::retained_store::matching_list_exists;
use crate::retained_store::messages_of;
use crate::retained_store::path_before_irreflexive;
use crate::retained_store::payload_total;
use crate::retained_store::payload_total_remove;
use crate::retained_store::takes_in;
use crate::retained_store::unexpired;
use crate::retained_trie::path_before;
use crate::routing::matching_list;
use crate::routing::retained_publication;
use crate::routing::retained_routed;
use crate::routing::retained_routed_all;
use crate::routing::retained_sent;
use crate::routing::target_of;
use crate::service_laws::in_flight;
use crate::service_laws::queue_full;
use crate::service_laws::waits;
use crate::session::SessionView;
use crate::session::StateView;
use crate::state_laws::state_basics;
use crate::state_laws::state_sound;
use crate::subscription::EntryView;
use crate::topic_laws::filters_match_by_level;
use crate::topic_laws::other_filters_are_not_shared;
use crate::topic_laws::shared_text;
use crate::topic_laws::topic_fits;
use crate::topic_laws::topic_shown;
use crate::write::WriteView;

verus! {

/// How many bytes of payload are retained: none by nothing, and by a message as many as it has.
pub proof fn retained_payload_adds_up(
    messages: Map<Seq<char>, RetainedView>,
    topic: Seq<char>,
)
    requires
        listed::<String, RetainedView>(messages),
    ensures
        messages.dom().contains(topic) ==> payload_total(messages) == payload_total(
            messages.remove(topic),
        ) + messages[topic].payload.len(),
        messages.dom() == Set::<Seq<char>>::empty() ==> payload_total(messages) == 0,
{
    if messages.dom().contains(topic) {
        payload_total_remove(messages, topic);
    }
    if messages.dom() == Set::<Seq<char>>::empty() {
        let entries = entries_of::<String, RetainedView>(messages);
        map_of_len::<String, RetainedView>(entries);
        assert(messages.len() == 0);
    }
}

/// There is room for a message: for one more, or in place of the one that its topic has; and for
/// its payload besides those of the other topics.
pub open spec fn has_room(
    retained: Map<Seq<char>, RetainedView>,
    packet: PublishView,
    config: BrokerConfig,
) -> bool {
    &&& retained.dom().contains(packet.topic_name) || retained.dom().len()
        < config.max_retained_messages
    &&& payload_total(retained.remove(packet.topic_name)) + packet.payload.len()
        <= config.max_retained_payload_bytes
}

/// What is kept of a publication says what it said, and expires when it does.
pub open spec fn keeps(message: RetainedView, packet: PublishView, now_ms: u64) -> bool {
    &&& message.topic_name == packet.topic_name
    &&& message.payload == packet.payload
    &&& message.properties == packet.properties
    &&& message.qos == packet.qos
    &&& message.expires_at_ms == expiry_of(packet.properties, now_ms)
}

/// A publication that is not to be retained leaves what is retained alone. One that is clears its
/// topic if it has no payload or has expired, and takes the place of what its topic had if there is
/// room; other topics keep what they have, and without room nothing changes.
pub proof fn publication_is_retained(
    state: StateView,
    packet: PublishView,
    config: BrokerConfig,
    now_ms: u64,
)
    requires
        listed::<String, RetainedView>(state.retained),
        payload_total(state.retained) + packet.payload.len() <= usize::MAX,
    ensures
        ({
            let after = after_retain(state, packet, config, now_ms);
            let topic = packet.topic_name;
            let gone = packet.payload.len() == 0 || (expiry_of(packet.properties, now_ms) matches
                Some(at) && at <= now_ms);
            &&& !packet.retain ==> after == state
            &&& packet.retain && gone ==> after.retained.dom() == state.retained.dom().remove(
                topic,
            )
            &&& packet.retain && !gone && has_room(state.retained, packet, config) ==> {
                &&& after.retained.dom() == state.retained.dom().insert(topic)
                &&& keeps(after.retained[topic], packet, now_ms)
            }
            &&& packet.retain && !gone && !has_room(state.retained, packet, config) ==> after
                == state
            &&& forall|other: Seq<char>|
                other != topic && #[trigger] state.retained.dom().contains(other)
                    ==> after.retained.dom().contains(other) && after.retained[other]
                    == state.retained[other]
            &&& after == (StateView {
                retained: after.retained,
                retained_changes: after.retained_changes,
                ..state
            })
        }),
{
    let topic = packet.topic_name;
    retained_payload_adds_up(state.retained, topic);
    if !state.retained.dom().contains(topic) {
        assert(state.retained.remove(topic) =~= state.retained);
        assert(state.retained.dom().remove(topic) =~= state.retained.dom());
    }
    assert(can_store(state.retained, packet, config) <==> has_room(
        state.retained,
        packet,
        config,
    ));
}

/// A packet is what goes out of a retained message for a subscription: its topic, payload and
/// properties, and behind them the subscription's identifier, where it has one; for the first time,
/// marked as retained, with the lesser quality of service.
pub open spec fn is_retained_copy(
    copy: PublishView,
    message: RetainedView,
    entry: EntryView,
) -> bool {
    &&& carries(
        copy,
        message.topic_name,
        message.payload,
        message.properties,
        entry.subscription_identifier,
    )
    &&& copy.retain
    &&& !copy.dup
    &&& copy.qos == shared_quality(message.qos, entry.options.maximum_qos)
}

/// What goes out for a subscription is such a packet.
proof fn offer_is_copy(entry: EntryView, message: RetainedView, packet_id: Option<u16>)
    ensures
        is_retained_copy(offer_form(entry, message, packet_id), message, entry),
        offer_form(entry, message, packet_id).packet_id == packet_id,
{
    copy_exists(
        retained_publication(message),
        entry.options.maximum_qos,
        true,
        entry.subscription_identifier,
        packet_id,
    );
}

/// A filter is not of the form that asks for a share.
pub open spec fn is_unshared_filter(filter: Seq<char>) -> bool {
    forall|group: Seq<char>, inner: Seq<char>|
        group.len() > 0 && !group.contains('/') && inner.len() > 0 ==> filter
            != #[trigger] shared_text(group, inner)
}

/// A filter takes in the topics that fit it and are not hidden from it.
proof fn taking_in_is_fitting(filter: Seq<char>, topic: Seq<char>)
    requires
        valid_topic_filter(filter),
        valid_topic_name(topic),
    ensures
        takes_in(filter, topic) <==> topic_fits(filter, topic) && topic_shown(filter, topic),
{
    filters_match_by_level(filter, topic);
}

/// What became of a retained message for a new subscription of a connected client: it was sent, and
/// is in flight if it is to be acknowledged; or it waits; or the queue is full, or it is too large
/// for the client.
pub open spec fn passed_on(
    state: StateView,
    outcome: (StateView, Seq<DeliveryView>),
    config: BrokerConfig,
    message: RetainedView,
    entry: EntryView,
) -> bool {
    let connection_id = state.connections[entry.client_id];
    let limit = state.clients[connection_id].maximum_packet_size;
    let session = outcome.0.sessions[entry.client_id];
    if message.qos == QoS::AtMostOnce || entry.options.maximum_qos == QoS::AtMostOnce {
        exists|copy: PublishView|
            #![trigger is_retained_copy(copy, message, entry)]
            is_retained_copy(copy, message, entry) && copy.packet_id is None && (
            outcome.1.contains(sent_to(connection_id, copy)) || !small_enough(copy, limit))
    } else {
        ||| exists|copy: PublishView|
            #![trigger is_retained_copy(copy, message, entry)]
            is_retained_copy(copy, message, entry) && outcome.1.contains(
                sent_to(connection_id, copy),
            ) && is_in_flight(session, copy, message.expires_at_ms)
        ||| exists|i: int|
            0 <= i < session.offline_queue.len() && is_retained_copy(
                (#[trigger] session.offline_queue[i]).pending.packet,
                message,
                entry,
            ) && session.offline_queue[i].pending.packet.packet_id is None
                && session.offline_queue[i].pending.expires_at_ms == message.expires_at_ms
        ||| session.offline_queue.len() >= config.max_offline_queue_len
        ||| session.next_offline_sequence >= 0x7fff_ffff_ffff_ffff
        ||| exists|copy: PublishView|
            #![trigger is_retained_copy(copy, message, entry)]
            is_retained_copy(copy, message, entry) && copy.packet_id is Some && copy.packet_id
                != Some(0u16) && !small_enough(copy, limit)
    }
}

/// A new subscription of a connected client is sent every retained message that has not expired and
/// whose topic fits its filter: with the message's topic, payload and properties, followed only by
/// the subscription's identifier if it has one.
pub proof fn new_subscription_is_sent_retained_message(
    state: StateView,
    entry: EntryView,
    config: BrokerConfig,
    now_ms: u64,
    topic: Seq<char>,
)
    requires
        state_sound(state),
        state.connections.dom().contains(entry.client_id),
        state.retained.dom().contains(topic),
        state.retained[topic].expires_at_ms matches Some(at) ==> at > now_ms,
        valid_topic_filter(entry.match_filter),
        is_unshared_filter(entry.match_filter),
        topic_fits(entry.match_filter, topic),
        topic_shown(entry.match_filter, topic),
    ensures
        state.retained[topic].topic_name == topic,
        passed_on(
            state,
            retained_sent(state, entry, config, now_ms),
            config,
            state.retained[topic],
            entry,
        ),
{
    let message = state.retained[topic];
    let outcome = retained_sent(state, entry, config, now_ms);
    let connection_id = state.connections[entry.client_id];
    let limit = state.clients[connection_id].maximum_packet_size;
    let session = outcome.0.sessions[entry.client_id];
    other_filters_are_not_shared(entry.match_filter);
    taking_in_is_fitting(entry.match_filter, topic);
    retained_message_reaches_subscriber(state, entry, config, now_ms, topic);
    let sent = choose|sent: Seq<PublishView>|
        outcome.1 == publishes_to(connection_id, sent) && #[trigger] offered(
            session,
            sent,
            entry,
            message,
            limit,
            config,
        );
    assert forall|copy: PublishView| #[trigger] sent.contains(copy) implies outcome.1.contains(
        sent_to(connection_id, copy),
    ) by {
        let i = choose|i: int| 0 <= i < sent.len() && sent[i] == copy;
        assert(outcome.1[i] == sent_to(connection_id, copy));
    }
    let plain = offer_form(entry, message, None);
    offer_is_copy(entry, message, None);
    if message.qos == QoS::AtMostOnce || entry.options.maximum_qos == QoS::AtMostOnce {
        assert(is_retained_copy(plain, message, entry));
    } else if waits(session, plain, message.expires_at_ms) {
        let i = choose|i: int|
            0 <= i < session.offline_queue.len() && (#[trigger] session.offline_queue[i]).pending
                == (PendingView { packet: plain, expires_at_ms: message.expires_at_ms });
        assert(is_retained_copy(session.offline_queue[i].pending.packet, message, entry));
    } else if queue_full(session, config) {
    } else if offered_in_flight(session, sent, entry, message) {
        let id = choose|id: u16|
            sent.contains(#[trigger] offer_form(entry, message, Some(id))) && in_flight(
                session,
                id,
                offer_form(entry, message, Some(id)),
                message.expires_at_ms,
            );
        let copy = offer_form(entry, message, Some(id));
        offer_is_copy(entry, message, Some(id));
        assert(is_retained_copy(copy, message, entry));
        assert(is_in_flight(session, copy, message.expires_at_ms));
    } else {
        let id = choose|id: u16|
            id != 0 && !fits_size(#[trigger] offer_form(entry, message, Some(id)), limit);
        offer_is_copy(entry, message, Some(id));
        assert(is_retained_copy(offer_form(entry, message, Some(id)), message, entry));
    }
}

/// Some of a list of messages are sent, each once and in order: at which positions they stand.
pub open spec fn sent_of(
    sent: Seq<PublishView>,
    messages: Seq<RetainedView>,
    entry: EntryView,
    positions: Seq<int>,
) -> bool {
    &&& positions.len() == sent.len()
    &&& forall|i: int|
        0 <= i < positions.len() ==> 0 <= #[trigger] positions[i] < messages.len()
            && is_retained_copy(sent[i], messages[positions[i]], entry)
    &&& forall|i: int, j: int|
        #![trigger positions[i], positions[j]]
        0 <= i < j < positions.len() ==> positions[i] < positions[j]
}

/// What is sent of a list of retained messages is some of them, each once and in order.
proof fn messages_are_sent_once(
    session: SessionView,
    target: DeliveryTarget,
    entry: EntryView,
    messages: Seq<RetainedView>,
    config: BrokerConfig,
    now_ms: u64,
) -> (positions: Seq<int>)
    ensures
        sent_of(
            retained_routed_all(session, target, entry, messages, config, now_ms).1,
            messages,
            entry,
            positions,
        ),
    decreases messages.len(),
{
    if messages.len() == 0 {
        Seq::empty()
    } else {
        let front = messages.drop_last();
        let last = messages.last();
        let before = retained_routed_all(session, target, entry, front, config, now_ms);
        let positions = messages_are_sent_once(session, target, entry, front, config, now_ms);
        offer_is_copy(entry, last, None);
        offer_is_copy(entry, last, free_id(before.0));
        assert forall|i: int| 0 <= i < positions.len() implies messages[#[trigger] positions[i]]
            == front[positions[i]] by {}
        let step = retained_routed(before.0, target, entry, last, config, now_ms);
        if step.1 is Some {
            let more = positions.push(messages.len() - 1);
            assert(is_retained_copy(step.1->0, last, entry));
            assert(sent_of(before.1.push(step.1->0), messages, entry, more));
            more
        } else {
            positions
        }
    }
}

/// A new subscription is sent nothing but retained messages that have not expired and whose topics
/// fit its filter, none of them twice, and all to its client's connection; what has expired is no
/// longer retained.
pub proof fn new_subscription_is_sent_nothing_else(
    state: StateView,
    entry: EntryView,
    config: BrokerConfig,
    now_ms: u64,
)
    requires
        state_basics(state),
        valid_topic_filter(entry.match_filter),
        is_unshared_filter(entry.match_filter),
    ensures
        ({
            let (after, sent) = retained_sent(state, entry, config, now_ms);
            &&& forall|i: int|
                0 <= i < sent.len() ==> {
                    &&& state.connections.dom().contains(entry.client_id)
                    &&& (#[trigger] sent[i]).connection_id == state.connections[entry.client_id]
                    &&& sent[i].packet matches WriteView::Packet(PacketView::Publish(copy)) && {
                        let topic = copy.topic_name;
                        let message = state.retained[topic];
                        &&& state.retained.dom().contains(topic)
                        &&& is_retained_copy(copy, message, entry)
                        &&& message.expires_at_ms matches Some(at) ==> at > now_ms
                        &&& topic_fits(entry.match_filter, topic)
                        &&& topic_shown(entry.match_filter, topic)
                    }
                }
            &&& forall|i: int, j: int|
                #![trigger sent[i], sent[j]]
                0 <= i < j < sent.len() ==> sent[i] != sent[j]
            &&& forall|topic: Seq<char>| #[trigger]
                after.retained.dom().contains(topic) <==> state.retained.dom().contains(topic) && (
                state.retained[topic].expires_at_ms matches Some(at) ==> at > now_ms)
            &&& forall|topic: Seq<char>| #[trigger]
                after.retained.dom().contains(topic) ==> after.retained[topic]
                    == state.retained[topic]
            &&& after.clients == state.clients
            &&& after.connections == state.connections
            &&& after.subscriptions == state.subscriptions
            &&& after.qos2_inflight == state.qos2_inflight
            &&& after.cursors == state.cursors
        }),
{
    let (after, sent) = retained_sent(state, entry, config, now_ms);
    let fresh = unexpired(state.retained, now_ms);
    let list = matching_list(fresh, entry.match_filter);
    other_filters_are_not_shared(entry.match_filter);
    listed_part::<String, RetainedView>(state.retained, fresh);
    matching_list_exists(fresh, entry.match_filter);
    assert(is_matching_list(fresh, entry.match_filter, list));
    let topics = choose|topics: Seq<Seq<char>>| #[trigger]
        is_matching_topics(fresh, entry.match_filter, topics) && list == messages_of(
            fresh,
            topics,
        );
    if state.connections.dom().contains(entry.client_id) {
        let connection_id = state.connections[entry.client_id];
        let client = state.clients[connection_id];
        let session = state.sessions[entry.client_id];
        let target = target_of(connection_id, client);
        let packets = retained_routed_all(session, target, entry, list, config, now_ms).1;
        let positions = messages_are_sent_once(session, target, entry, list, config, now_ms);
        assert forall|i: int| 0 <= i < sent.len() implies {
            &&& state.connections.dom().contains(entry.client_id)
            &&& (#[trigger] sent[i]).connection_id == state.connections[entry.client_id]
            &&& sent[i].packet matches WriteView::Packet(PacketView::Publish(copy)) && {
                let topic = copy.topic_name;
                let message = state.retained[topic];
                &&& topic == topics[positions[i]]
                &&& state.retained.dom().contains(topic)
                &&& is_retained_copy(copy, message, entry)
                &&& message.expires_at_ms matches Some(at) ==> at > now_ms
                &&& topic_fits(entry.match_filter, topic)
                &&& topic_shown(entry.match_filter, topic)
            }
        } by {
            let at = positions[i];
            assert(sent[i] == sent_to(connection_id, packets[i]));
            assert(is_retained_copy(packets[i], list[at], entry));
            let topic = topics[at];
            assert(fresh.dom().contains(topic) && takes_in(entry.match_filter, topic));
            assert(state.retained.dom().contains(topic));
            taking_in_is_fitting(entry.match_filter, topic);
        }
        assert forall|i: int, j: int|
            #![trigger sent[i], sent[j]]
            0 <= i < j < sent.len() implies sent[i] != sent[j] by {
            assert(positions[i] < positions[j]);
            path_before_irreflexive(levels(topics[positions[i]]));
            assert(path_before(levels(topics[positions[i]]), levels(topics[positions[j]])));
        }
    }
}

/// A packet without properties passes the quick size check if and only if its bytes are few enough.
pub proof fn quick_check_counts_bytes(packet: PublishView, limit: u32)
    requires
        packet.properties.len() == 0,
        encode_utf8(packet.topic_name).len() <= 65_535,
        3 + encode_utf8(packet.topic_name).len() + packet.payload.len() <= 268_435_455,
    ensures
        fits_fast(packet, None, limit) <==> plain_publish_bytes(
            0x31,
            packet.topic_name,
            packet.payload,
        ).len() <= limit,
{
    plain_size_is_length(0x31, packet.topic_name, packet.payload);
}

/// A packet with properties passes the quick size check if and only if what goes out is small
/// enough.
pub proof fn quick_check_measures_properties(
    packet: PublishView,
    identifier: Option<u32>,
    limit: u32,
    copy: PublishView,
)
    requires
        packet.properties.len() > 0 || identifier is Some,
        is_copy(copy, packet, QoS::AtMostOnce, false, identifier),
        copy.packet_id is None,
    ensures
        fits_fast(packet, identifier, limit) <==> small_enough(copy, limit),
{
    copy_exists(packet, QoS::AtMostOnce, false, identifier, None);
    copy_is_one(
        copy,
        outgoing(packet, QoS::AtMostOnce, false, None, false, identifier),
        packet,
        QoS::AtMostOnce,
        false,
        identifier,
    );
}

} // verus!
