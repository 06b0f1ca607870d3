//! That retained messages reach new subscriptions.
use vstd::prelude::*;

use crate::config::BrokerConfig;
use crate::delivery::after_retain;
use crate::delivery::can_store;
use crate::delivery::publishes_to;
use crate::inflight::DeliveryTarget;
use crate::inflight::IDENTIFIER_TRIES;
use crate::inflight::free_id;
use crate::inflight::free_id_is_not_zero;
use crate::inflight::inflight;
use crate::message::PendingView;
use crate::message::expired;
use crate::message::expiry_of;
use crate::mqtt_codec::fits_size;
use crate::mqtt_codec::outgoing;
use crate::ordered_map::listed_insert;
use crate::ordered_map::listed_part;
use crate::packet::PublishView;
use crate::packet::QoS;
use crate::packet::lower_qos;
use crate::protocol::match_filter_of;
use crate::protocol::valid_topic_filter;
use crate::retained_message::RetainedView;
use crate::retained_message::retained_view;
use crate::retained_store::is_matching_list;
use crate::retained_store::is_matching_topics;
use crate::retained_store::matching_list_exists;
use crate::retained_store::messages_of;
use crate::retained_store::takes_in;
use crate::retained_store::unexpired;
use crate::routing::matching_list;
use crate::routing::retained_publication;
use crate::routing::retained_routed;
use crate::routing::retained_routed_all;
use crate::routing::retained_sent;
use crate::routing::retained_terms;
use crate::routing::target_of;
use crate::service_laws::delivery_grows;
use crate::service_laws::grown;
use crate::service_laws::grown_twice;
use crate::service_laws::in_flight;
use crate::service_laws::queue_full;
use crate::service_laws::queueing_grows;
use crate::service_laws::waits;
use crate::session::SessionView;
use crate::session::StateView;
use crate::state_laws::state_sound;
use crate::subscription::EntryView;

verus! {

/// The message of a topic that a filter takes in is in the list.
proof fn listed_message(
    messages: Map<Seq<char>, RetainedView>,
    filter: Seq<char>,
    list: Seq<RetainedView>,
    topic: Seq<char>,
)
    requires
        is_matching_list(messages, filter, list),
        messages.dom().contains(topic),
        takes_in(filter, topic),
    ensures
        list.contains(messages[topic]),
{
    let topics = choose|topics: Seq<Seq<char>>| #[trigger]
        is_matching_topics(messages, filter, topics) && list == messages_of(messages, topics);
    assert(topics.contains(topic));
    let i = choose|i: int| 0 <= i < topics.len() && topics[i] == topic;
    assert(list[i] == messages[topic]);
}

/// A retained message that is kept is among those that a subscription is offered which takes in its
/// topic, as long as it has not expired.
pub proof fn retained_message_is_offered(
    state: StateView,
    packet: PublishView,
    config: BrokerConfig,
    now_ms: u64,
    filter: Seq<char>,
    later_ms: u64,
)
    requires
        state_sound(state),
        packet.retain,
        packet.payload.len() > 0,
        !expired(expiry_of(packet.properties, now_ms), now_ms),
        can_store(state.retained, packet, config),
        valid_topic_filter(match_filter_of(filter)),
        takes_in(match_filter_of(filter), packet.topic_name),
        !expired(expiry_of(packet.properties, now_ms), later_ms),
    ensures
        matching_list(
            unexpired(after_retain(state, packet, config, now_ms).retained, later_ms),
            filter,
        ).contains(
            retained_view(
                packet.qos,
                packet.topic_name,
                packet.properties,
                packet.payload,
                expiry_of(packet.properties, now_ms),
            ),
        ),
{
    let topic = packet.topic_name;
    let kept = after_retain(state, packet, config, now_ms).retained;
    let fresh = unexpired(kept, later_ms);
    let list = matching_list(fresh, filter);
    listed_insert::<String, RetainedView>(state.retained, topic, kept[topic]);
    listed_part::<String, RetainedView>(kept, fresh);
    matching_list_exists(fresh, match_filter_of(filter));
    assert(is_matching_list(fresh, match_filter_of(filter), list));
    assert(fresh.dom().contains(topic));
    listed_message(fresh, match_filter_of(filter), list, topic);
}

/// An empty retained message clears its topic: no subscription is offered a message of that topic.
pub proof fn empty_message_clears_topic(
    state: StateView,
    packet: PublishView,
    config: BrokerConfig,
    now_ms: u64,
    filter: Seq<char>,
    later_ms: u64,
    index: int,
)
    requires
        state_sound(state),
        packet.retain,
        packet.payload.len() == 0,
        0 <= index < matching_list(
            unexpired(after_retain(state, packet, config, now_ms).retained, later_ms),
            filter,
        ).len(),
    ensures
        matching_list(
            unexpired(after_retain(state, packet, config, now_ms).retained, later_ms),
            filter,
        )[index].topic_name != packet.topic_name,
{
    let left = after_retain(state, packet, config, now_ms).retained;
    let fresh = unexpired(left, later_ms);
    let list = matching_list(fresh, filter);
    assert(!fresh.dom().contains(packet.topic_name));
    listed_part::<String, RetainedView>(state.retained, fresh);
    matching_list_exists(fresh, match_filter_of(filter));
    assert(is_matching_list(fresh, match_filter_of(filter), list));
    assert(fresh.dom().contains(list[index].topic_name));
}

/// A retained message as it goes out for a subscription, under an identifier where it has one.
pub open spec fn offer_form(
    entry: EntryView,
    message: RetainedView,
    packet_id: Option<u16>,
) -> PublishView {
    outgoing(
        retained_publication(message),
        lower_qos(message.qos, entry.options.maximum_qos),
        true,
        packet_id,
        false,
        entry.subscription_identifier,
    )
}

/// A retained message is sent and in flight under some identifier.
pub open spec fn offered_in_flight(
    session: SessionView,
    sent: Seq<PublishView>,
    entry: EntryView,
    message: RetainedView,
) -> bool {
    exists|id: u16|
        sent.contains(#[trigger] offer_form(entry, message, Some(id))) && in_flight(
            session,
            id,
            offer_form(entry, message, Some(id)),
            message.expires_at_ms,
        )
}

/// What a retained message came to for a new subscription of a connected client: with QoS 0 it is
/// sent, unless it is too large for the client; else it is sent and in flight, or waits, unless it
/// is too large for the client or the queue takes no more.
pub open spec fn offered(
    session: SessionView,
    sent: Seq<PublishView>,
    entry: EntryView,
    message: RetainedView,
    maximum_packet_size: u32,
    config: BrokerConfig,
) -> bool {
    let plain = offer_form(entry, message, None);
    if lower_qos(message.qos, entry.options.maximum_qos) == QoS::AtMostOnce {
        sent.contains(plain) || !fits_size(plain, maximum_packet_size)
    } else {
        ||| offered_in_flight(session, sent, entry, message)
        ||| waits(session, plain, message.expires_at_ms)
        ||| queue_full(session, config)
        ||| exists|id: u16|
            id != 0 && !fits_size(
                #[trigger] offer_form(entry, message, Some(id)),
                maximum_packet_size,
            )
    }
}

/// A retained message comes to something, and takes nothing from the session.
proof fn routing_offers(
    session: SessionView,
    target: DeliveryTarget,
    entry: EntryView,
    message: RetainedView,
    config: BrokerConfig,
    now_ms: u64,
)
    requires
        session.next_packet_id != 0,
        !expired(message.expires_at_ms, now_ms),
    ensures
        ({
            let outcome = retained_routed(session, target, entry, message, config, now_ms);
            let sent = match outcome.1 {
                Some(publish) => seq![publish],
                None => Seq::empty(),
            };
            &&& grown(session, outcome.0)
            &&& offered(outcome.0, sent, entry, message, target.maximum_packet_size, config)
        }),
{
    let outcome = retained_routed(session, target, entry, message, config, now_ms);
    let packet = retained_publication(message);
    let terms = retained_terms(entry, message, config);
    let plain = offer_form(entry, message, None);
    assert(session.offline_queue =~= session.offline_queue.subrange(
        0,
        session.offline_queue.len() as int,
    ));
    delivery_grows(session, target, packet, terms, now_ms);
    queueing_grows(session, plain, message.expires_at_ms, config.max_offline_queue_len);
    free_id_is_not_zero(session, session.next_packet_id, IDENTIFIER_TRIES as nat);
    if let Some(publish) = outcome.1 {
        assert(seq![publish][0] == publish);
        assert(seq![publish].contains(publish));
    }
    if lower_qos(message.qos, entry.options.maximum_qos) != QoS::AtMostOnce {
        if let Some(id) = free_id(session) {
            let publish = offer_form(entry, message, Some(id));
            if inflight(session) < target.receive_maximum && fits_size(
                publish,
                target.maximum_packet_size,
            ) {
                assert(outcome.1 == Some(publish));
                assert(in_flight(outcome.0, id, publish, message.expires_at_ms));
            }
        }
    }
}

/// What a retained message came to stays so while others follow.
proof fn offered_stays(
    before: SessionView,
    after: SessionView,
    sent: Seq<PublishView>,
    more: Seq<PublishView>,
    entry: EntryView,
    message: RetainedView,
    maximum_packet_size: u32,
    config: BrokerConfig,
)
    requires
        offered(before, sent, entry, message, maximum_packet_size, config),
        grown(before, after),
        forall|item: PublishView| #[trigger] sent.contains(item) ==> more.contains(item),
    ensures
        offered(after, more, entry, message, maximum_packet_size, config),
{
    let plain = offer_form(entry, message, None);
    if waits(before, plain, message.expires_at_ms) {
        let i = choose|i: int|
            0 <= i < before.offline_queue.len() && (#[trigger] before.offline_queue[i]).pending
                == (PendingView { packet: plain, expires_at_ms: message.expires_at_ms });
        assert(after.offline_queue[i] == before.offline_queue[i]);
    }
    if offered_in_flight(before, sent, entry, message) {
        let id = choose|id: u16|
            sent.contains(#[trigger] offer_form(entry, message, Some(id))) && in_flight(
                before,
                id,
                offer_form(entry, message, Some(id)),
                message.expires_at_ms,
            );
        assert(in_flight(
            after,
            id,
            offer_form(entry, message, Some(id)),
            message.expires_at_ms,
        ));
    }
}

/// Each of some retained messages comes to something.
proof fn routing_all_offers(
    session: SessionView,
    target: DeliveryTarget,
    entry: EntryView,
    messages: Seq<RetainedView>,
    config: BrokerConfig,
    now_ms: u64,
)
    requires
        session.next_packet_id != 0,
        forall|i: int|
            0 <= i < messages.len() ==> !expired((#[trigger] messages[i]).expires_at_ms, now_ms),
    ensures
        ({
            let outcome = retained_routed_all(
                session,
                target,
                entry,
                messages,
                config,
                now_ms,
            );
            &&& grown(session, outcome.0)
            &&& forall|i: int|
                0 <= i < messages.len() ==> offered(
                    outcome.0,
                    outcome.1,
                    entry,
                    #[trigger] messages[i],
                    target.maximum_packet_size,
                    config,
                )
        }),
    decreases messages.len(),
{
    if messages.len() == 0 {
        assert(session.offline_queue =~= session.offline_queue.subrange(
            0,
            session.offline_queue.len() as int,
        ));
    } else {
        let front = messages.drop_last();
        let last = messages.last();
        assert forall|i: int| 0 <= i < front.len() implies !expired(
            (#[trigger] front[i]).expires_at_ms,
            now_ms,
        ) by {
            assert(front[i] == messages[i]);
        }
        assert(messages[messages.len() - 1] == last);
        routing_all_offers(session, target, entry, front, config, now_ms);
        let before = retained_routed_all(session, target, entry, front, config, now_ms);
        let step = retained_routed(before.0, target, entry, last, config, now_ms);
        let outcome = retained_routed_all(session, target, entry, messages, config, now_ms);
        routing_offers(before.0, target, entry, last, config, now_ms);
        grown_twice(session, before.0, outcome.0);
        let own = match step.1 {
            Some(publish) => seq![publish],
            None => Seq::empty(),
        };
        assert(outcome.1 =~= before.1 + own);
        assert forall|item: PublishView| #[trigger] own.contains(item) implies outcome.1.contains(
            item,
        ) by {
            let k = choose|k: int| 0 <= k < own.len() && own[k] == item;
            assert(outcome.1[before.1.len() + k] == item);
        }
        assert forall|item: PublishView| #[trigger] before.1.contains(item) implies
            outcome.1.contains(item) by {
            let k = choose|k: int| 0 <= k < before.1.len() && before.1[k] == item;
            assert(outcome.1[k] == item);
        }
        assert(outcome.0.offline_queue =~= outcome.0.offline_queue.subrange(
            0,
            outcome.0.offline_queue.len() as int,
        ));
        assert forall|i: int| 0 <= i < messages.len() implies offered(
            outcome.0,
            outcome.1,
            entry,
            #[trigger] messages[i],
            target.maximum_packet_size,
            config,
        ) by {
            if i < front.len() {
                assert(front[i] == messages[i]);
                offered_stays(
                    before.0,
                    outcome.0,
                    before.1,
                    outcome.1,
                    entry,
                    messages[i],
                    target.maximum_packet_size,
                    config,
                );
            } else {
                offered_stays(
                    outcome.0,
                    outcome.0,
                    own,
                    outcome.1,
                    entry,
                    last,
                    target.maximum_packet_size,
                    config,
                );
            }
        }
    }
}

/// A retained message reaches a new subscription of a connected client that takes in its topic: it
/// is sent, or it waits in the client's queue; it is lost only where it has expired, is too large
/// for the client, or the queue takes no more.
pub proof fn retained_message_reaches_subscriber(
    state: StateView,
    entry: EntryView,
    config: BrokerConfig,
    now_ms: u64,
    topic: Seq<char>,
)
    requires
        state_sound(state),
        state.connections.dom().contains(entry.client_id),
        state.retained.dom().contains(topic),
        !expired(state.retained[topic].expires_at_ms, now_ms),
        valid_topic_filter(match_filter_of(entry.match_filter)),
        takes_in(match_filter_of(entry.match_filter), topic),
    ensures
        ({
            let outcome = retained_sent(state, entry, config, now_ms);
            let connection_id = state.connections[entry.client_id];
            exists|sent: Seq<PublishView>|
                outcome.1 == publishes_to(connection_id, sent) && #[trigger] offered(
                    outcome.0.sessions[entry.client_id],
                    sent,
                    entry,
                    state.retained[topic],
                    state.clients[connection_id].maximum_packet_size,
                    config,
                )
        }),
{
    let fresh = unexpired(state.retained, now_ms);
    let list = matching_list(fresh, entry.match_filter);
    listed_part::<String, RetainedView>(state.retained, fresh);
    matching_list_exists(fresh, match_filter_of(entry.match_filter));
    assert(is_matching_list(fresh, match_filter_of(entry.match_filter), list));
    assert(fresh.dom().contains(topic));
    listed_message(fresh, match_filter_of(entry.match_filter), list, topic);
    let i = choose|i: int| 0 <= i < list.len() && list[i] == state.retained[topic];
    assert forall|k: int| 0 <= k < list.len() implies !expired(
        (#[trigger] list[k]).expires_at_ms,
        now_ms,
    ) by {
        assert(fresh.dom().contains(list[k].topic_name));
    }
    let connection_id = state.connections[entry.client_id];
    let client = state.clients[connection_id];
    let session = state.sessions[entry.client_id];
    let target = target_of(connection_id, client);
    routing_all_offers(session, target, entry, list, config, now_ms);
    let outcome = retained_routed_all(session, target, entry, list, config, now_ms);
    let whole = retained_sent(state, entry, config, now_ms);
    assert(whole.0.sessions[entry.client_id] == outcome.0);
    assert(offered(
        outcome.0,
        outcome.1,
        entry,
        state.retained[topic],
        client.maximum_packet_size,
        config,
    ));
}

} // verus!
