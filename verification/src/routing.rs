//! What a publication, a new subscription, a new connection and a timer send to connections.
use vstd::prelude::*;
use vstd::string::StringExecFns;

use crate::config::BrokerConfig;
use crate::delivery::Delivery;
use crate::delivery::DeliveryView;
use crate::delivery::after_offline;
use crate::delivery::deliveries;
use crate::delivery::publish_to;
use crate::delivery::publishes_to;
use crate::delivery::queue_offline_publish;
use crate::delivery::select_shared_subscriptions;
use crate::delivery::served;
use crate::delivery::with_session;
use crate::inflight::DeliveryTarget;
use crate::inflight::DeliveryTerms;
use crate::inflight::delivered;
use crate::inflight::delivery_for_client;
use crate::inflight::flush_queued_for_session;
use crate::inflight::flushed;
use crate::inflight::resend_in_flight;
use crate::inflight::resent_to;
use crate::inflight::without_stale;
use crate::message::expired;
use crate::message::expiry_of;
use crate::message::is_message_expired;
use crate::message::message_expires_at_ms;
use crate::mqtt_codec::fits_fast;
use crate::mqtt_codec::fits_qos0_publish_fast;
use crate::mqtt_codec::outgoing;
use crate::mqtt_codec::pending_publish;
use crate::ordered_map::entries_of;
use crate::packet::AckPacket;
use crate::packet::AckView;
use crate::packet::MqttPacket;
use crate::packet::MqttProperty;
use crate::packet::PacketView;
use crate::packet::PropertyView;
use crate::packet::PublishPacket;
use crate::packet::PublishView;
use crate::packet::QoS;
use crate::packet::effective_qos;
use crate::packet::lower_qos;
use crate::protocol::SUCCESS;
use crate::protocol::filter_matches;
use crate::protocol::match_filter_of;
use crate::protocol::topic_matches;
use crate::protocol::valid_topic_filter;
use crate::retained_message::RetainedMessage;
use crate::retained_message::RetainedView;
use crate::retained_store::is_matching_list;
use crate::retained_store::matching_list_is_unique;
use crate::retained_store::unexpired;
use crate::session::BrokerState;
use crate::session::ClientEntryView;
use crate::session::SessionEntry;
use crate::session::SessionView;
use crate::session::StateView;
use crate::session::marked_if_durable;
use crate::storage::delta::lookup;
use crate::storage::patch_codec::unit_map;
use crate::subscription::EntryView;
use crate::subscription::SubscriptionEntry;
use crate::subscription::filter_step;
use crate::value::Value;
use crate::write::BrokerWrite;
use crate::write::WriteView;

verus! {

/// What a connected client accepts.
pub open spec fn target_of(connection_id: u64, client: ClientEntryView) -> DeliveryTarget {
    DeliveryTarget {
        connection_id,
        receive_maximum: client.receive_maximum,
        maximum_packet_size: client.maximum_packet_size,
    }
}

/// The connection of a client, with what the client is and its session, where all three are there.
pub open spec fn reachable(state: StateView, client_id: Seq<char>) -> Option<
    (u64, ClientEntryView, SessionView),
> {
    match lookup(state.connections, client_id) {
        None => None,
        Some(connection_id) => match lookup(state.clients, connection_id) {
            None => None,
            Some(client) => match lookup(state.sessions, client_id) {
                None => None,
                Some(session) => Some((connection_id, client, session)),
            },
        },
    }
}

/// How a publication is sent for a subscription.
pub open spec fn terms_of(
    subscription: EntryView,
    packet: PublishView,
    expires_at_ms: Option<u64>,
    config: BrokerConfig,
) -> DeliveryTerms {
    DeliveryTerms {
        maximum_qos: subscription.options.maximum_qos,
        retain: subscription.options.retain_as_published && packet.retain,
        expires_at_ms,
        subscription_identifier: subscription.subscription_identifier,
        max_offline_queue_len: config.max_offline_queue_len,
    }
}

/// What becomes of a publication for one subscription: the state afterwards, and what is sent.
pub open spec fn routed(
    state: StateView,
    subscription: EntryView,
    packet: PublishView,
    config: BrokerConfig,
    now_ms: u64,
) -> (StateView, Seq<DeliveryView>) {
    let client_id = subscription.client_id;
    let expires_at_ms = expiry_of(packet.properties, now_ms);
    if !state.connections.dom().contains(client_id) {
        (
            after_offline(state, subscription, packet, config.max_offline_queue_len, now_ms),
            Seq::empty(),
        )
    } else {
        match reachable(state, client_id) {
            None => (state, Seq::empty()),
            Some((connection_id, client, session)) => {
                let outcome = delivered(
                    session,
                    target_of(connection_id, client),
                    packet,
                    terms_of(subscription, packet, expires_at_ms, config),
                    now_ms,
                );
                let next = with_session(state, client_id, outcome.0);
                (
                    if lower_qos(packet.qos, subscription.options.maximum_qos)
                        == QoS::AtMostOnce {
                        next
                    } else {
                        marked_if_durable(next, client_id)
                    },
                    match outcome.1 {
                        Some(publish) => seq![publish_to(connection_id, publish)],
                        None => Seq::empty(),
                    },
                )
            },
        }
    }
}

/// What becomes of a publication for some subscriptions, one after the other.
pub open spec fn routed_all(
    state: StateView,
    subscriptions: Seq<EntryView>,
    packet: PublishView,
    config: BrokerConfig,
    now_ms: u64,
) -> (StateView, Seq<DeliveryView>)
    decreases subscriptions.len(),
{
    if subscriptions.len() == 0 {
        (state, Seq::empty())
    } else {
        let front = routed_all(state, subscriptions.drop_last(), packet, config, now_ms);
        let last = routed(front.0, subscriptions.last(), packet, config, now_ms);
        (last.0, front.1 + last.1)
    }
}

/// The client that publishes over a connection.
pub open spec fn publisher_of(state: StateView, connection_id: u64) -> Option<Seq<char>> {
    match lookup(state.clients, connection_id) {
        Some(client) => Some(client.client_id),
        None => None,
    }
}

/// A subscription wants a publication: its filter matches, and it is not the publisher's own with
/// the wish not to hear itself.
pub open spec fn wants(
    subscription: EntryView,
    topic: Seq<char>,
    publisher: Option<Seq<char>>,
) -> bool {
    &&& filter_matches(subscription.match_filter, topic)
    &&& !(subscription.options.no_local && publisher == Some(subscription.client_id))
}

/// The subscriptions that want a publication.
pub open spec fn wanting(
    subscriptions: Seq<EntryView>,
    topic: Seq<char>,
    publisher: Option<Seq<char>>,
) -> Seq<EntryView> {
    subscriptions.filter(|entry: EntryView| wants(entry, topic, publisher))
}

/// What a publication does: the state afterwards, and what is sent.
pub open spec fn published(
    state: StateView,
    publisher_connection_id: u64,
    packet: PublishView,
    config: BrokerConfig,
    now_ms: u64,
) -> (StateView, Seq<DeliveryView>) {
    if expired(expiry_of(packet.properties, now_ms), now_ms) {
        (state, Seq::empty())
    } else {
        let wanted = wanting(
            state.subscriptions,
            packet.topic_name,
            publisher_of(state, publisher_connection_id),
        );
        let chosen = served(state, wanted);
        routed_all(chosen.0, chosen.1, packet, config, now_ms)
    }
}

/// Sends a publication for one subscription, or queues it.
fn route(
    state: &mut BrokerState,
    subscription: &SubscriptionEntry,
    packet: &PublishPacket,
    config: &BrokerConfig,
    now_ms: u64,
) -> (result: Option<Delivery>)
    requires
        old(state).wf(),
    ensures
        final(state).wf(),
        ({
            let expected = routed(
                old(state).deep_view(),
                subscription.deep_view(),
                packet.deep_view(),
                *config,
                now_ms,
            );
            &&& final(state).deep_view() == expected.0
            &&& expected.1 == (match result {
                Some(delivery) => seq![delivery.deep_view()],
                None => Seq::<DeliveryView>::empty(),
            })
        }),
{
    let ghost before = state.deep_view();
    let ghost client = subscription.client_id@;
    if !state.connection_by_client_id.contains_key(&subscription.client_id) {
        queue_offline_publish(state, subscription, packet, config.max_offline_queue_len, now_ms);
        return None;
    }
    let target: DeliveryTarget = match state.client_of(&subscription.client_id) {
        Some((connection_id, client)) => DeliveryTarget {
            connection_id,
            receive_maximum: client.receive_maximum,
            maximum_packet_size: client.maximum_packet_size,
        },
        None => return None,
    };
    let mut session: SessionEntry = match state.sessions_by_client_id.remove(
        &subscription.client_id,
    ) {
        Some(session) => session,
        None => {
            assert(before.sessions.remove(client) =~= before.sessions);
            return None;
        },
    };
    let terms: DeliveryTerms = DeliveryTerms {
        maximum_qos: subscription.options.maximum_qos,
        retain: subscription.options.retain_as_published && packet.retain,
        expires_at_ms: message_expires_at_ms(packet, now_ms),
        subscription_identifier: subscription.subscription_identifier,
        max_offline_queue_len: config.max_offline_queue_len,
    };
    let sent: Option<PublishPacket> = delivery_for_client(
        &mut session,
        target,
        packet,
        terms,
        now_ms,
    );
    let ghost view = session.deep_view();
    state.sessions_by_client_id.insert(subscription.client_id.dup(), session);
    assert(before.sessions.remove(client).insert(client, view) =~= before.sessions.insert(
        client,
        view,
    ));
    if effective_qos(packet.qos, subscription.options.maximum_qos) != QoS::AtMostOnce {
        state.mark_client_changed_if_durable(subscription.client_id.dup());
    }
    match sent {
        Some(publish) => Some(
            Delivery {
                connection_id: target.connection_id,
                packet: BrokerWrite::packet(MqttPacket::Publish(publish)),
            },
        ),
        None => None,
    }
}

/// Sends a publication to the subscribers that want it, or queues it for them.
pub fn deliveries_for_publish(
    state: &mut BrokerState,
    publisher_connection_id: u64,
    packet: &PublishPacket,
    config: &BrokerConfig,
    now_ms: u64,
) -> (result: Vec<Delivery>)
    requires
        old(state).wf(),
    ensures
        final(state).wf(),
        (final(state).deep_view(), result.deep_view()) == published(
            old(state).deep_view(),
            publisher_connection_id,
            packet.deep_view(),
            *config,
            now_ms,
        ),
{
    let mut result: Vec<Delivery> = Vec::new();
    assert(result.deep_view() =~= Seq::<DeliveryView>::empty());
    let expires_at_ms: Option<u64> = message_expires_at_ms(packet, now_ms);
    if is_message_expired(expires_at_ms, now_ms) {
        return result;
    }
    let ghost start = state.deep_view();
    let publisher: Option<String> = match state.clients_by_connection.get(
        &publisher_connection_id,
    ) {
        Some(client) => Some(client.client_id.dup()),
        None => None,
    };
    let wanted: Vec<SubscriptionEntry> = wanting_subscriptions(
        &state.subscriptions,
        packet.topic_name.as_str(),
        &publisher,
    );
    let chosen: Vec<SubscriptionEntry> = select_shared_subscriptions(state, &wanted);
    let ghost base = state.deep_view();
    let ghost list = chosen.deep_view();
    let mut index: usize = 0;
    while index < chosen.len()
        invariant
            index <= chosen@.len(),
            list == chosen.deep_view(),
            state.wf(),
            (state.deep_view(), result.deep_view()) == routed_all(
                base,
                list.take(index as int),
                packet.deep_view(),
                *config,
                now_ms,
            ),
        decreases chosen@.len() - index,
    {
        let ghost before = result.deep_view();
        proof {
            assert(list.take(index + 1).drop_last() =~= list.take(index as int));
            assert(list.take(index + 1).last() == chosen@[index as int].deep_view());
        }
        if let Some(delivery) = route(state, &chosen[index], packet, config, now_ms) {
            let ghost view = delivery.deep_view();
            result.push(delivery);
            assert(result.deep_view() =~= before + seq![view]);
        } else {
            assert(before + Seq::<DeliveryView>::empty() =~= before);
        }
        index += 1;
    }
    assert(list.take(index as int) =~= list);
    result
}

/// The subscriptions that want a publication.
fn wanting_subscriptions(
    subscriptions: &Vec<SubscriptionEntry>,
    topic: &str,
    publisher: &Option<String>,
) -> (result: Vec<SubscriptionEntry>)
    ensures
        result.deep_view() == wanting(subscriptions.deep_view(), topic@, publisher.deep_view()),
{
    let ghost keep = |entry: EntryView| wants(entry, topic@, publisher.deep_view());
    let ghost list = subscriptions.deep_view();
    let mut result: Vec<SubscriptionEntry> = Vec::new();
    let mut index: usize = 0;
    assert(result.deep_view() =~= list.take(0).filter(keep)) by {
        reveal(Seq::filter);
    }
    while index < subscriptions.len()
        invariant
            index <= subscriptions@.len(),
            list == subscriptions.deep_view(),
            keep == (|entry: EntryView| wants(entry, topic@, publisher.deep_view())),
            result.deep_view() == list.take(index as int).filter(keep),
        decreases subscriptions@.len() - index,
    {
        let subscription: &SubscriptionEntry = &subscriptions[index];
        let ghost before = result.deep_view();
        proof {
            filter_step(list, index as int, keep);
            assert(list[index as int] == subscription.deep_view());
        }
        let own: bool = match publisher {
            Some(client_id) => client_id.same(&subscription.client_id),
            None => false,
        };
        if topic_matches(subscription.match_filter.as_str(), topic) && !(
        subscription.options.no_local && own) {
            result.push(subscription.dup());
            assert(result.deep_view() =~= before.push(subscription.deep_view()));
        }
        index += 1;
    }
    assert(list.take(index as int) =~= list);
    result
}

/// The publication that stands for a retained message.
pub open spec fn retained_publication(message: RetainedView) -> PublishView {
    PublishView {
        dup: false,
        qos: message.qos,
        retain: true,
        topic_name: message.topic_name,
        packet_id: None,
        properties: message.properties,
        payload: message.payload,
    }
}

/// How a retained message is sent for a subscription.
pub open spec fn retained_terms(
    subscription: EntryView,
    message: RetainedView,
    config: BrokerConfig,
) -> DeliveryTerms {
    DeliveryTerms {
        maximum_qos: subscription.options.maximum_qos,
        retain: true,
        expires_at_ms: message.expires_at_ms,
        subscription_identifier: subscription.subscription_identifier,
        max_offline_queue_len: config.max_offline_queue_len,
    }
}

/// What becomes of a retained message for a new subscription. One that goes with QoS 0 and fits by
/// the quick check is sent at once; any other one is a publication like others.
pub open spec fn retained_routed(
    session: SessionView,
    target: DeliveryTarget,
    subscription: EntryView,
    message: RetainedView,
    config: BrokerConfig,
    now_ms: u64,
) -> (SessionView, Option<PublishView>) {
    let packet = retained_publication(message);
    let qos = lower_qos(message.qos, subscription.options.maximum_qos);
    if qos == QoS::AtMostOnce && fits_fast(
        packet,
        subscription.subscription_identifier,
        target.maximum_packet_size,
    ) {
        (
            session,
            Some(
                outgoing(packet, qos, true, None, false, subscription.subscription_identifier),
            ),
        )
    } else {
        delivered(
            session,
            target,
            packet,
            retained_terms(subscription, message, config),
            now_ms,
        )
    }
}

/// What becomes of some retained messages for a new subscription.
pub open spec fn retained_routed_all(
    session: SessionView,
    target: DeliveryTarget,
    subscription: EntryView,
    messages: Seq<RetainedView>,
    config: BrokerConfig,
    now_ms: u64,
) -> (SessionView, Seq<PublishView>)
    decreases messages.len(),
{
    if messages.len() == 0 {
        (session, Seq::empty())
    } else {
        let front = retained_routed_all(
            session,
            target,
            subscription,
            messages.drop_last(),
            config,
            now_ms,
        );
        let last = retained_routed(
            front.0,
            target,
            subscription,
            messages.last(),
            config,
            now_ms,
        );
        (
            last.0,
            match last.1 {
                Some(publish) => front.1.push(publish),
                None => front.1,
            },
        )
    }
}

/// Some message goes to the subscription with QoS 1 or 2.
pub open spec fn some_acknowledged(messages: Seq<RetainedView>, maximum_qos: QoS) -> bool {
    exists|i: int|
        0 <= i < messages.len() && lower_qos((#[trigger] messages[i]).qos, maximum_qos)
            != QoS::AtMostOnce
}

/// The retained messages of the topics that a filter takes in, in order.
pub open spec fn matching_list(
    messages: Map<Seq<char>, RetainedView>,
    filter: Seq<char>,
) -> Seq<RetainedView> {
    if valid_topic_filter(match_filter_of(filter)) {
        choose|list: Seq<RetainedView>|
            is_matching_list(messages, match_filter_of(filter), list)
    } else {
        Seq::empty()
    }
}

/// What a new subscription is sent: the state afterwards, and the retained messages that it
/// matches.
pub open spec fn retained_sent(
    state: StateView,
    subscription: EntryView,
    config: BrokerConfig,
    now_ms: u64,
) -> (StateView, Seq<DeliveryView>) {
    let fresh = StateView { retained: unexpired(state.retained, now_ms), ..state };
    let messages = matching_list(fresh.retained, subscription.match_filter);
    let client_id = subscription.client_id;
    match reachable(fresh, client_id) {
        None => (fresh, Seq::empty()),
        Some((connection_id, client, session)) => {
            let outcome = retained_routed_all(
                session,
                target_of(connection_id, client),
                subscription,
                messages,
                config,
                now_ms,
            );
            let next = with_session(fresh, client_id, outcome.0);
            (
                if some_acknowledged(messages, subscription.options.maximum_qos) {
                    marked_if_durable(next, client_id)
                } else {
                    next
                },
                publishes_to(connection_id, outcome.1),
            )
        },
    }
}

/// The publication that stands for a retained message.
fn publish_packet(message: &RetainedMessage) -> (result: PublishPacket)
    ensures
        result.deep_view() == retained_publication(message.deep_view()),
{
    PublishPacket {
        dup: false,
        qos: message.qos,
        retain: true,
        topic_name: message.topic_name.dup(),
        packet_id: None,
        properties: message.properties.dup(),
        payload: message.payload.dup(),
    }
}

/// Sends a retained message for a new subscription, or keeps it for later.
fn route_retained(
    session: &mut SessionEntry,
    target: DeliveryTarget,
    subscription: &SubscriptionEntry,
    message: &RetainedMessage,
    config: &BrokerConfig,
    now_ms: u64,
) -> (result: Option<PublishPacket>)
    ensures
        (final(session).deep_view(), result.deep_view()) == retained_routed(
            old(session).deep_view(),
            target,
            subscription.deep_view(),
            message.deep_view(),
            *config,
            now_ms,
        ),
{
    let packet: PublishPacket = publish_packet(message);
    let qos: QoS = effective_qos(message.qos, subscription.options.maximum_qos);
    if qos == QoS::AtMostOnce && fits_qos0_publish_fast(
        &packet,
        subscription.subscription_identifier,
        target.maximum_packet_size,
    ) {
        return Some(
            pending_publish(
                &packet,
                qos,
                true,
                None,
                false,
                subscription.subscription_identifier,
            ),
        );
    }
    let terms: DeliveryTerms = DeliveryTerms {
        maximum_qos: subscription.options.maximum_qos,
        retain: true,
        expires_at_ms: message.expires_at_ms,
        subscription_identifier: subscription.subscription_identifier,
        max_offline_queue_len: config.max_offline_queue_len,
    };
    delivery_for_client(session, target, &packet, terms, now_ms)
}

/// Sends the retained messages that a new subscription matches.
pub fn retained_for_subscription(
    state: &mut BrokerState,
    subscription: &SubscriptionEntry,
    config: &BrokerConfig,
    now_ms: u64,
) -> (result: Vec<Delivery>)
    requires
        old(state).wf(),
    ensures
        final(state).wf(),
        (final(state).deep_view(), result.deep_view()) == retained_sent(
            old(state).deep_view(),
            subscription.deep_view(),
            *config,
            now_ms,
        ),
{
    let none: Vec<Delivery> = Vec::new();
    assert(none.deep_view() =~= Seq::<DeliveryView>::empty());
    let messages: Vec<RetainedMessage> = state.retained.matching(
        subscription.match_filter.as_str(),
        now_ms,
    ).into_messages();
    let ghost fresh = state.deep_view();
    let ghost client = subscription.client_id@;
    let ghost list = messages.deep_view();
    proof {
        let filter = match_filter_of(subscription.match_filter@);
        if valid_topic_filter(filter) {
            matching_list_is_unique(
                fresh.retained,
                filter,
                list,
                matching_list(fresh.retained, subscription.match_filter@),
            );
        } else {
            assert(list =~= Seq::<RetainedView>::empty());
        }
        assert(list == matching_list(fresh.retained, subscription.match_filter@));
    }
    let target: DeliveryTarget = match state.client_of(&subscription.client_id) {
        Some((connection_id, client)) => DeliveryTarget {
            connection_id,
            receive_maximum: client.receive_maximum,
            maximum_packet_size: client.maximum_packet_size,
        },
        None => return none,
    };
    let mut session: SessionEntry = match state.sessions_by_client_id.remove(
        &subscription.client_id,
    ) {
        Some(session) => session,
        None => {
            assert(fresh.sessions.remove(client) =~= fresh.sessions);
            return none;
        },
    };
    let ghost first = session.deep_view();
    let mut sent: Vec<PublishPacket> = Vec::new();
    let mut acknowledged: bool = false;
    let mut index: usize = 0;
    assert(sent.deep_view() =~= Seq::<PublishView>::empty());
    while index < messages.len()
        invariant
            index <= messages@.len(),
            list == messages.deep_view(),
            (session.deep_view(), sent.deep_view()) == retained_routed_all(
                first,
                target,
                subscription.deep_view(),
                list.take(index as int),
                *config,
                now_ms,
            ),
            acknowledged == some_acknowledged(
                list.take(index as int),
                subscription.options.maximum_qos,
            ),
        decreases messages@.len() - index,
    {
        let message: &RetainedMessage = &messages[index];
        let ghost before = sent.deep_view();
        let ghost head = list.take(index as int);
        let ghost longer = list.take(index + 1);
        proof {
            assert(longer.drop_last() =~= head);
            assert(longer.last() == message.deep_view());
        }
        if let Some(publish) = route_retained(
            &mut session,
            target,
            subscription,
            message,
            config,
            now_ms,
        ) {
            let ghost view = publish.deep_view();
            sent.push(publish);
            assert(sent.deep_view() =~= before.push(view));
        }
        proof {
            let maximum_qos = subscription.options.maximum_qos;
            if some_acknowledged(head, maximum_qos) {
                let i = choose|i: int|
                    0 <= i < head.len() && lower_qos((#[trigger] head[i]).qos, maximum_qos)
                        != QoS::AtMostOnce;
                assert(longer[i] == head[i]);
            }
            if some_acknowledged(longer, maximum_qos) {
                let i = choose|i: int|
                    0 <= i < longer.len() && lower_qos((#[trigger] longer[i]).qos, maximum_qos)
                        != QoS::AtMostOnce;
                if i < index {
                    assert(head[i] == longer[i]);
                }
            }
            assert(longer[index as int] == message.deep_view());
        }
        if effective_qos(message.qos, subscription.options.maximum_qos) != QoS::AtMostOnce {
            acknowledged = true;
        }
        index += 1;
    }
    assert(list.take(index as int) =~= list);
    let ghost view = session.deep_view();
    state.sessions_by_client_id.insert(subscription.client_id.dup(), session);
    assert(fresh.sessions.remove(client).insert(client, view) =~= fresh.sessions.insert(
        client,
        view,
    ));
    if acknowledged {
        state.mark_client_changed_if_durable(subscription.client_id.dup());
    }
    deliveries(target.connection_id, sent)
}

/// What a client that is back is sent: the publications in flight again, then what waited.
pub open spec fn redelivered(
    state: StateView,
    client_id: Seq<char>,
    now_ms: u64,
) -> (StateView, Seq<DeliveryView>) {
    match reachable(state, client_id) {
        None => (state, Seq::empty()),
        Some((connection_id, client, session)) => {
            let kept = without_stale(session, now_ms);
            let again = resent_to(kept, client.receive_maximum, client.maximum_packet_size);
            let rest = flushed(
                kept,
                client.receive_maximum,
                client.maximum_packet_size,
                now_ms,
                Seq::empty(),
            );
            (
                marked_if_durable(with_session(state, client_id, rest.0), client_id),
                publishes_to(connection_id, again) + publishes_to(connection_id, rest.1),
            )
        },
    }
}

/// Sends a client that is back what is in flight and what waited.
pub fn redeliveries_for_client(state: &mut BrokerState, client_id: &String, now_ms: u64) -> (result:
    Vec<Delivery>)
    requires
        old(state).wf(),
    ensures
        final(state).wf(),
        (final(state).deep_view(), result.deep_view()) == redelivered(
            old(state).deep_view(),
            client_id@,
            now_ms,
        ),
{
    let none: Vec<Delivery> = Vec::new();
    assert(none.deep_view() =~= Seq::<DeliveryView>::empty());
    let ghost before = state.deep_view();
    let target: DeliveryTarget = match state.client_of(client_id) {
        Some((connection_id, client)) => DeliveryTarget {
            connection_id,
            receive_maximum: client.receive_maximum,
            maximum_packet_size: client.maximum_packet_size,
        },
        None => return none,
    };
    let mut session: SessionEntry = match state.sessions_by_client_id.remove(client_id) {
        Some(session) => session,
        None => {
            assert(before.sessions.remove(client_id@) =~= before.sessions);
            return none;
        },
    };
    let again: Vec<PublishPacket> = resend_in_flight(
        &mut session,
        target.receive_maximum,
        target.maximum_packet_size,
        now_ms,
    );
    let rest: Vec<PublishPacket> = flush_queued_for_session(
        &mut session,
        target.receive_maximum,
        target.maximum_packet_size,
        now_ms,
    );
    let ghost view = session.deep_view();
    state.sessions_by_client_id.insert(client_id.dup(), session);
    assert(before.sessions.remove(client_id@).insert(client_id@, view)
        =~= before.sessions.insert(client_id@, view));
    state.mark_client_changed_if_durable(client_id.dup());
    let mut result: Vec<Delivery> = deliveries(target.connection_id, again);
    let ghost first = result.deep_view();
    let mut queued: Vec<Delivery> = deliveries(target.connection_id, rest);
    let ghost second = queued.deep_view();
    result.append(&mut queued);
    assert(result.deep_view() =~= first + second);
    result
}

/// What a client is sent of what waits for it.
pub open spec fn queue_sent(
    state: StateView,
    client_id: Seq<char>,
    now_ms: u64,
) -> (StateView, Seq<DeliveryView>) {
    match reachable(state, client_id) {
        None => (state, Seq::empty()),
        Some((connection_id, client, session)) => {
            let rest = flushed(
                session,
                client.receive_maximum,
                client.maximum_packet_size,
                now_ms,
                Seq::empty(),
            );
            (
                marked_if_durable(with_session(state, client_id, rest.0), client_id),
                publishes_to(connection_id, rest.1),
            )
        },
    }
}

/// Sends a client what waits for it, as far as it accepts it.
pub fn queued_deliveries_for_client(
    state: &mut BrokerState,
    client_id: &String,
    now_ms: u64,
) -> (result: Vec<Delivery>)
    requires
        old(state).wf(),
    ensures
        final(state).wf(),
        (final(state).deep_view(), result.deep_view()) == queue_sent(
            old(state).deep_view(),
            client_id@,
            now_ms,
        ),
{
    let none: Vec<Delivery> = Vec::new();
    assert(none.deep_view() =~= Seq::<DeliveryView>::empty());
    let ghost before = state.deep_view();
    let target: DeliveryTarget = match state.client_of(client_id) {
        Some((connection_id, client)) => DeliveryTarget {
            connection_id,
            receive_maximum: client.receive_maximum,
            maximum_packet_size: client.maximum_packet_size,
        },
        None => return none,
    };
    let mut session: SessionEntry = match state.sessions_by_client_id.remove(client_id) {
        Some(session) => session,
        None => {
            assert(before.sessions.remove(client_id@) =~= before.sessions);
            return none;
        },
    };
    let rest: Vec<PublishPacket> = flush_queued_for_session(
        &mut session,
        target.receive_maximum,
        target.maximum_packet_size,
        now_ms,
    );
    let ghost view = session.deep_view();
    state.sessions_by_client_id.insert(client_id.dup(), session);
    assert(before.sessions.remove(client_id@).insert(client_id@, view)
        =~= before.sessions.insert(client_id@, view));
    state.mark_client_changed_if_durable(client_id.dup());
    deliveries(target.connection_id, rest)
}

/// A release of a publication, to write to a connection.
pub open spec fn release_to(connection_id: u64, id: u16) -> DeliveryView {
    DeliveryView {
        connection_id,
        packet: WriteView::Packet(
            PacketView::PubRel(
                AckView { packet_id: id, reason_code: SUCCESS, properties: Seq::empty() },
            ),
        ),
    }
}

/// Releases of publications, to write to a connection.
pub open spec fn releases_to(connection_id: u64, ids: Seq<(u16, ())>) -> Seq<DeliveryView> {
    Seq::new(ids.len(), |i: int| release_to(connection_id, ids[i].0))
}

/// What a timer sends over a connection: the publications in flight again, then the releases that
/// were not completed; nothing where the connection or its session is gone.
pub open spec fn retransmitted(
    state: StateView,
    connection_id: u64,
    now_ms: u64,
) -> (StateView, Option<Seq<DeliveryView>>) {
    match lookup(state.clients, connection_id) {
        None => (state, None),
        Some(client) => match lookup(state.sessions, client.client_id) {
            None => (state, None),
            Some(session) => {
                let kept = without_stale(session, now_ms);
                (
                    with_session(state, client.client_id, kept),
                    Some(
                        publishes_to(
                            connection_id,
                            resent_to(kept, client.receive_maximum, client.maximum_packet_size),
                        ) + releases_to(
                            connection_id,
                            entries_of::<u16, ()>(unit_map(kept.outbound_qos2_pubrel)),
                        ),
                    ),
                )
            },
        },
    }
}

/// Sends again what a connection has not acknowledged.
pub fn retransmissions_for_connection(
    state: &mut BrokerState,
    connection_id: u64,
    now_ms: u64,
) -> (result: Option<Vec<Delivery>>)
    requires
        old(state).wf(),
    ensures
        final(state).wf(),
        (final(state).deep_view(), result.deep_view()) == retransmitted(
            old(state).deep_view(),
            connection_id,
            now_ms,
        ),
{
    let ghost before = state.deep_view();
    let (client_id, receive_maximum, maximum_packet_size): (String, u16, u32) =
        match state.clients_by_connection.get(&connection_id) {
        Some(client) => (
            client.client_id.dup(),
            client.receive_maximum,
            client.maximum_packet_size,
        ),
        None => return None,
    };
    let mut session: SessionEntry = match state.sessions_by_client_id.remove(&client_id) {
        Some(session) => session,
        None => {
            assert(before.sessions.remove(client_id@) =~= before.sessions);
            return None;
        },
    };
    let again: Vec<PublishPacket> = resend_in_flight(
        &mut session,
        receive_maximum,
        maximum_packet_size,
        now_ms,
    );
    let mut result: Vec<Delivery> = deliveries(connection_id, again);
    let ghost first = result.deep_view();
    let count: usize = session.outbound_qos2_pubrel.len();
    let ghost ids = session.outbound_qos2_pubrel.entries();
    let mut index: usize = 0;
    assert(first + releases_to(connection_id, ids.take(0)) =~= first);
    while index < count
        invariant
            index <= count == ids.len(),
            ids == session.outbound_qos2_pubrel.entries(),
            result.deep_view() == first + releases_to(connection_id, ids.take(index as int)),
        decreases count - index,
    {
        let ghost collected = result.deep_view();
        let id: u16 = *session.outbound_qos2_pubrel.key_at(index);
        let properties: Vec<MqttProperty> = Vec::new();
        assert(properties.deep_view() =~= Seq::<PropertyView>::empty());
        let release: Delivery = Delivery {
            connection_id,
            packet: BrokerWrite::packet(
                MqttPacket::PubRel(AckPacket { packet_id: id, reason_code: SUCCESS, properties }),
            ),
        };
        let ghost view = release.deep_view();
        result.push(release);
        assert(result.deep_view() =~= collected.push(view));
        assert(releases_to(connection_id, ids.take(index + 1)) =~= releases_to(
            connection_id,
            ids.take(index as int),
        ).push(release_to(connection_id, id)));
        index += 1;
    }
    assert(ids.take(index as int) =~= ids);
    let ghost view = session.deep_view();
    proof {
        let set = session.outbound_qos2_pubrel.deep_view();
        assert(set =~= unit_map(set.dom()));
    }
    state.sessions_by_client_id.insert(client_id.dup(), session);
    assert(before.sessions.remove(client_id@).insert(client_id@, view)
        =~= before.sessions.insert(client_id@, view));
    Some(result)
}

} // verus!
