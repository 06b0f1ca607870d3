//! Each operation of the broker keeps the state in order and marks every change.
use vstd::prelude::*;

use crate::auth::AuthConfig;
use crate::auth::subscribe_allowed;
use crate::broker::SubscribeProgress;
use crate::broker::Subscriber;
use crate::broker::acknowledged_qos1;
use crate::broker::attached;
use crate::broker::client_entry;
use crate::broker::completed_qos2;
use crate::broker::connected;
use crate::broker::counted;
use crate::broker::disconnected;
use crate::broker::finished_qos2;
use crate::broker::held_count;
use crate::broker::held_position;
use crate::broker::noted;
use crate::broker::publication;
use crate::broker::received_qos2;
use crate::broker::resumed_session;
use crate::broker::sends_retained;
use crate::broker::session_of;
use crate::broker::started;
use crate::broker::stored_qos2;
use crate::broker::subscribed;
use crate::broker::subscribed_all;
use crate::broker::subscribed_one;
use crate::broker::unsubscribed;
use crate::broker::will_publication;
use crate::broker::will_published;
use crate::broker::with_deadline;
use crate::broker::without_all_held;
use crate::config::BrokerConfig;
use crate::connection::ConnectOptions;
use crate::connection::first_of;
use crate::connection::subscription_identifier_in;
use crate::delivery::after_retain;
use crate::delivery::queued_offline;
use crate::delivery::served;
use crate::delivery::with_session;
use crate::inflight::DeliveryTarget;
use crate::inflight::delivered;
use crate::inflight::flushed;
use crate::inflight::without_stale;
use crate::message::expired;
use crate::message::expiry_of;
use crate::mqtt_codec::outgoing;
use crate::ordered_map::listed_insert;
use crate::ordered_map::listed_part;
use crate::packet::PublishView;
use crate::packet::QoS;
use crate::packet::SubscribeView;
use crate::packet::SubscriptionView;
use crate::packet::WillView;
use crate::packet::lower_qos;
use crate::protocol::match_filter_of;
use crate::protocol::valid_topic_filter;
use crate::protocol::valid_topic_name;
use crate::retained_message::RetainedView;
use crate::retained_store::is_matching_list;
use crate::retained_store::matching_list_exists;
use crate::retained_store::unexpired;
use crate::routing::matching_list;
use crate::routing::publisher_of;
use crate::routing::queue_sent;
use crate::routing::reachable;
use crate::routing::retained_publication;
use crate::routing::retained_routed;
use crate::routing::retained_routed_all;
use crate::routing::retained_sent;
use crate::routing::retained_terms;
use crate::routing::retransmitted;
use crate::routing::routed;
use crate::routing::routed_all;
use crate::routing::some_acknowledged;
use crate::routing::target_of;
use crate::routing::terms_of;
use crate::routing::wanting;
use crate::session::ClientEntryView;
use crate::session::SessionView;
use crate::session::StateView;
use crate::session::connected_client;
use crate::session::is_durable;
use crate::session::marked_changed;
use crate::session::marked_if_durable;
use crate::session::without_client_connection;
use crate::session::without_expired;
use crate::session_laws::acknowledgements_keep_session;
use crate::session_laws::delivery_keeps_session;
use crate::session_laws::dropping_stale_keeps_session;
use crate::session_laws::flushing_keeps_session;
use crate::session_laws::goes_on;
use crate::session_laws::goes_on_twice;
use crate::session_laws::new_session_is_sound;
use crate::session_laws::queueing_keeps_session;
use crate::session_laws::session_sound;
use crate::state_laws::basics_kept;
use crate::state_laws::bystander_followed;
use crate::state_laws::client_followed;
use crate::state_laws::entry_sound;
use crate::state_laws::expiring_keeps_basics;
use crate::state_laws::filtered_entries_sound;
use crate::state_laws::follows_itself;
use crate::state_laws::follows_twice;
use crate::state_laws::going_on_evolves;
use crate::state_laws::kept_subscriptions;
use crate::state_laws::linked;
use crate::state_laws::same_session_put;
use crate::state_laws::session_step;
use crate::state_laws::state_basics;
use crate::state_laws::topic_followed;
use crate::state_laws::unstored_change;
use crate::storage::delta::lookup;
use crate::storage::projection::stored_client;
use crate::storage::projection::subscriptions_by_filter;
use crate::storage::snapshot::MAX_SUBSCRIPTION_IDENTIFIER;
use crate::subscription::EntryView;
use crate::subscription::entry_for;
use crate::subscription::is_held;
use crate::subscription::subscription_position_is_first;

verus! {

/// A client that connects anew over a connection that nobody uses keeps the state.
pub proof fn connecting_keeps_basics(
    state: StateView,
    connection_id: u64,
    client_id: Seq<char>,
    will: Option<WillView>,
    principal: Option<Seq<char>>,
    options: ConnectOptions,
    now_ms: u64,
)
    requires
        state_basics(state),
        !state.clients.dom().contains(connection_id),
        client_id.len() > 0,
    ensures
        basics_kept(
            state,
            connected(
                state,
                connection_id,
                client_id,
                will,
                principal,
                options,
                now_ms,
            ).0,
            now_ms,
        ),
{
    let live = without_expired(state, now_ms);
    expiring_keeps_basics(state, now_ms);
    let begun = attached(
        started(live, client_id, options.clean_start),
        client_id,
        connection_id,
        now_ms,
    );
    let session = resumed_session(
        lookup(begun.sessions, client_id),
        options.session_expiry_interval,
    );
    let entry = client_entry(
        client_id,
        will,
        principal,
        options,
        held_count(begun.subscriptions, client_id) as usize,
    );
    let entered = StateView {
        sessions: begun.sessions.insert(client_id, session),
        clients: begun.clients.insert(connection_id, entry),
        ..begun
    };
    let was_durable = is_durable(live, client_id);
    let after = noted(entered, client_id, options, was_durable);
    entering_keeps_basics(
        live,
        connection_id,
        client_id,
        entry,
        session,
        options,
        now_ms,
    );
    follows_twice(state, live, after, now_ms, now_ms);
    assert(reachable(after, client_id) == Some((connection_id, entry, session)));
    let stale = without_stale(session, now_ms);
    dropping_stale_keeps_session(session, now_ms);
    flushing_keeps_session(
        stale,
        entry.receive_maximum,
        entry.maximum_packet_size,
        now_ms,
        Seq::empty(),
    );
    let rest = flushed(
        stale,
        entry.receive_maximum,
        entry.maximum_packet_size,
        now_ms,
        Seq::empty(),
    ).0;
    goes_on_twice(session, stale, rest);
    session_step(after, client_id, rest, now_ms);
    let last = marked_if_durable(with_session(after, client_id, rest), client_id);
    follows_twice(state, after, last, now_ms, now_ms);
}

/// A client that enters, in place of another connection it may have had, keeps the state.
proof fn entering_keeps_basics(
    live: StateView,
    connection_id: u64,
    client_id: Seq<char>,
    entry: ClientEntryView,
    session: SessionView,
    options: ConnectOptions,
    now_ms: u64,
)
    requires
        state_basics(live),
        !live.clients.dom().contains(connection_id),
        client_id.len() > 0,
        entry.client_id == client_id,
        entry.session_expiry_interval == options.session_expiry_interval,
        entry.persistent_session == (options.session_expiry_interval != 0),
        ({
            let begun = attached(
                started(live, client_id, options.clean_start),
                client_id,
                connection_id,
                now_ms,
            );
            session == resumed_session(
                lookup(begun.sessions, client_id),
                options.session_expiry_interval,
            )
        }),
    ensures
        ({
            let begun = attached(
                started(live, client_id, options.clean_start),
                client_id,
                connection_id,
                now_ms,
            );
            let entered = StateView {
                sessions: begun.sessions.insert(client_id, session),
                clients: begun.clients.insert(connection_id, entry),
                ..begun
            };
            let after = noted(entered, client_id, options, is_durable(live, client_id));
            &&& basics_kept(live, after, now_ms)
            &&& lookup(after.connections, client_id) == Some(connection_id)
            &&& lookup(after.clients, connection_id) == Some(entry)
            &&& lookup(after.sessions, client_id) == Some(session)
            &&& session_sound(session)
        }),
{
    let first = started(live, client_id, options.clean_start);
    let begun = attached(first, client_id, connection_id, now_ms);
    let entered = StateView {
        sessions: begun.sessions.insert(client_id, session),
        clients: begun.clients.insert(connection_id, entry),
        ..begun
    };
    let was_durable = is_durable(live, client_id);
    let after = noted(entered, client_id, options, was_durable);
    let keep = |entry: EntryView| entry.client_id != client_id;
    filtered_entries_sound(live.subscriptions, keep);
    assert(begun.sessions == first.sessions);
    assert(begun.subscriptions == first.subscriptions);
    assert(begun.connections == live.connections.insert(client_id, connection_id));
    assert(begun.client_changes == live.client_changes);
    if live.connections.dom().contains(client_id) {
        let previous = live.connections[client_id];
        assert(live.clients.dom().contains(previous));
        assert(previous != connection_id);
        assert(begun.clients == live.clients.remove(previous));
    } else {
        assert(begun.clients == live.clients);
    }
    match lookup(begun.sessions, client_id) {
        Some(known) => {
            assert(live.sessions.dom().contains(client_id));
            assert(session_sound(known));
        },
        None => {
            new_session_is_sound(options.session_expiry_interval, None);
        },
    }
    assert(linked(after)) by {
        assert forall|c: u64| #[trigger] after.clients.dom().contains(c) implies ({
            let client = after.clients[c];
            &&& lookup(after.connections, client.client_id) == Some(c)
            &&& client.persistent_session == (client.session_expiry_interval != 0)
            &&& after.sessions.dom().contains(client.client_id)
            &&& after.sessions[client.client_id].session_expiry_interval
                == client.session_expiry_interval
            &&& after.sessions[client.client_id].expires_at_ms is None
        }) by {
            if c != connection_id {
                assert(live.clients.dom().contains(c));
                assert(live.clients[c].client_id != client_id);
            }
        }
        assert forall|id: Seq<char>| #[trigger] after.connections.dom().contains(id) implies
            after.clients.dom().contains(after.connections[id])
            && after.clients[after.connections[id]].client_id == id by {
            if id != client_id {
                assert(live.connections.dom().contains(id));
                assert(live.clients.dom().contains(live.connections[id]));
            }
        }
    }
    assert forall|id: Seq<char>| #[trigger] client_followed(live, after, id) by {
        if id != client_id {
            assert(lookup(after.sessions, id) == lookup(live.sessions, id));
            assert(connected_client(after, id) == connected_client(live, id)) by {
                if live.connections.dom().contains(id) {
                    assert(live.clients.dom().contains(live.connections[id]));
                    assert(live.clients[live.connections[id]].client_id == id);
                }
            }
            assert forall|entry: EntryView| entry.client_id == id implies #[trigger] keep(
                entry,
            ) by {}
            kept_subscriptions(live.subscriptions, keep, id);
            assert(is_durable(after, id) == is_durable(live, id));
            assert(stored_client(after, id) == stored_client(live, id));
            bystander_followed(live, after, id);
        } else {
            assert(connected_client(after, id) == Some(entry));
            let durable = options.session_expiry_interval != 0;
            if live.sessions.dom().contains(id) && !options.clean_start {
                going_on_evolves(
                    live.sessions[id],
                    session,
                    live.subscriptions,
                    after.subscriptions,
                    id,
                );
            }
        }
    }
    assert forall|topic: Seq<char>| #[trigger] topic_followed(live, after, topic, now_ms) by {}
    assert forall|id: Seq<char>| #[trigger] after.sessions.dom().contains(id) implies id.len() > 0
        && session_sound(after.sessions[id]) by {
        if id != client_id {
            assert(live.sessions.dom().contains(id));
        }
    }
    assert forall|key: (u64, u16)| #[trigger]
        after.qos2_inflight.dom().contains(key) implies valid_topic_name(
        after.qos2_inflight[key].packet.topic_name,
    ) by {
        assert(live.qos2_inflight.dom().contains(key));
    }
}

/// A client that is gone keeps the state.
pub proof fn disconnecting_keeps_basics(state: StateView, connection_id: u64, now_ms: u64)
    requires
        state_basics(state),
    ensures
        basics_kept(state, disconnected(state, connection_id, now_ms), now_ms),
{
    let after = disconnected(state, connection_id, now_ms);
    follows_itself(state, now_ms);
    if state.clients.dom().contains(connection_id) {
        let client = state.clients[connection_id];
        let client_id = client.client_id;
        assert(lookup(state.connections, client_id) == Some(connection_id));
        let keep = |entry: EntryView| entry.client_id != client_id;
        filtered_entries_sound(state.subscriptions, keep);
        assert(connected_client(state, client_id) == Some(client));
        let left = without_client_connection(state, connection_id, false, now_ms);
        assert(connected_client(left, client_id) is None);
        assert(linked(after)) by {
            assert forall|c: u64| #[trigger] after.clients.dom().contains(c) implies ({
                let other = after.clients[c];
                &&& lookup(after.connections, other.client_id) == Some(c)
                &&& other.persistent_session == (other.session_expiry_interval != 0)
                &&& after.sessions.dom().contains(other.client_id)
                &&& after.sessions[other.client_id].session_expiry_interval
                    == other.session_expiry_interval
                &&& after.sessions[other.client_id].expires_at_ms is None
            }) by {
                assert(state.clients.dom().contains(c));
                assert(state.clients[c].client_id != client_id);
            }
            assert forall|id: Seq<char>| #[trigger] after.connections.dom().contains(id) implies
                after.clients.dom().contains(after.connections[id])
                && after.clients[after.connections[id]].client_id == id by {
                assert(state.connections.dom().contains(id));
            }
        }
        assert forall|id: Seq<char>| #[trigger] client_followed(state, after, id) by {
            if id != client_id {
                assert(connected_client(after, id) == connected_client(state, id)) by {
                    if state.connections.dom().contains(id) {
                        assert(state.clients[state.connections[id]].client_id == id);
                    }
                }
                assert forall|entry: EntryView| entry.client_id == id implies #[trigger] keep(
                    entry,
                ) by {}
                kept_subscriptions(state.subscriptions, keep, id);
                assert(is_durable(after, id) == is_durable(state, id));
                bystander_followed(state, after, id);
            } else {
                assert(connected_client(after, id) is None);
                if client.session_expiry_interval == 0 {
                    assert(stored_client(state, id) is None);
                    assert(stored_client(after, id) is None);
                    bystander_followed(state, after, id);
                } else {
                    going_on_evolves(
                        state.sessions[id],
                        after.sessions[id],
                        state.subscriptions,
                        after.subscriptions,
                        id,
                    );
                    assert(after.client_changes.dom().contains(id));
                }
            }
        }
        assert forall|topic: Seq<char>| #[trigger]
            topic_followed(state, after, topic, now_ms) by {}
        assert forall|id: Seq<char>| #[trigger] after.sessions.dom().contains(id) implies id.len()
            > 0 && session_sound(after.sessions[id]) by {
            assert(state.sessions.dom().contains(id));
        }
        assert forall|key: (u64, u16)| #[trigger]
            after.qos2_inflight.dom().contains(key) implies valid_topic_name(
            after.qos2_inflight[key].packet.topic_name,
        ) by {
            assert(state.qos2_inflight.dom().contains(key));
        }
    }
}

/// What a client is allowed to be silent for does not matter.
pub proof fn deadline_keeps_basics(
    state: StateView,
    connection_id: u64,
    deadline_ms: u64,
    now_ms: u64,
)
    requires
        state_basics(state),
    ensures
        basics_kept(state, with_deadline(state, connection_id, deadline_ms), now_ms),
{
    let after = with_deadline(state, connection_id, deadline_ms);
    assert(after.clients.dom() =~= state.clients.dom());
    client_fields_keep_basics(state, after, now_ms);
}

/// A change of what is neither stored nor linked of a client keeps the state.
proof fn client_fields_keep_basics(state: StateView, after: StateView, now_ms: u64)
    requires
        state_basics(state),
        after.clients.dom() == state.clients.dom(),
        forall|c: u64| #[trigger]
            after.clients.dom().contains(c) ==> after.clients[c].client_id
                == state.clients[c].client_id && after.clients[c].persistent_session
                == state.clients[c].persistent_session && after.clients[c].session_expiry_interval
                == state.clients[c].session_expiry_interval,
        after == (StateView { clients: after.clients, ..state }),
    ensures
        basics_kept(state, after, now_ms),
{
    assert(linked(after)) by {
        assert forall|c: u64| #[trigger] after.clients.dom().contains(c) implies ({
            let client = after.clients[c];
            &&& lookup(after.connections, client.client_id) == Some(c)
            &&& client.persistent_session == (client.session_expiry_interval != 0)
            &&& after.sessions.dom().contains(client.client_id)
            &&& after.sessions[client.client_id].session_expiry_interval
                == client.session_expiry_interval
            &&& after.sessions[client.client_id].expires_at_ms is None
        }) by {
            assert(state.clients.dom().contains(c));
        }
        assert forall|id: Seq<char>| #[trigger] after.connections.dom().contains(id) implies
            after.clients.dom().contains(after.connections[id])
            && after.clients[after.connections[id]].client_id == id by {
            assert(state.connections.dom().contains(id));
            assert(state.clients.dom().contains(state.connections[id]));
        }
    }
    assert forall|id: Seq<char>| #[trigger] is_durable(after, id) == is_durable(state, id) by {
        if state.connections.dom().contains(id) {
            assert(state.clients.dom().contains(state.connections[id]));
            assert(after.clients.dom().contains(state.connections[id]));
        }
    }
    unstored_change(state, after, now_ms);
}

/// Heeding the retain flag of a publication keeps the state.
pub proof fn retaining_keeps_basics(
    state: StateView,
    packet: PublishView,
    config: BrokerConfig,
    now_ms: u64,
)
    requires
        state_basics(state),
        valid_topic_name(packet.topic_name),
    ensures
        basics_kept(state, after_retain(state, packet, config, now_ms), now_ms),
{
    let after = after_retain(state, packet, config, now_ms);
    follows_itself(state, now_ms);
    if after != state {
        let topic = packet.topic_name;
        if after.retained == state.retained.remove(topic) {
            listed_part::<String, RetainedView>(state.retained, after.retained);
        } else {
            listed_insert::<String, RetainedView>(state.retained, topic, after.retained[topic]);
        }
        assert(linked(after)) by {
            assert(state.clients == after.clients);
            assert(state.connections == after.connections);
            assert(state.sessions == after.sessions);
            linked_alike(state, after);
        }
        assert forall|id: Seq<char>| #[trigger] client_followed(state, after, id) by {
            assert(is_durable(after, id) == is_durable(state, id));
            bystander_followed(state, after, id);
        }
        assert forall|other: Seq<char>| #[trigger]
            topic_followed(state, after, other, now_ms) by {}
        assert forall|other: Seq<char>| #[trigger]
            after.retained.dom().contains(other) implies valid_topic_name(other)
            && after.retained[other].topic_name == other by {
            if other != topic {
                assert(state.retained.dom().contains(other));
            }
        }
    }
}

/// Being linked depends on clients, connections and sessions alone.
pub proof fn linked_alike(before: StateView, after: StateView)
    requires
        linked(before),
        after.clients == before.clients,
        after.connections == before.connections,
        after.sessions == before.sessions,
    ensures
        linked(after),
{
    assert forall|c: u64| #[trigger] after.clients.dom().contains(c) implies ({
        let client = after.clients[c];
        &&& lookup(after.connections, client.client_id) == Some(c)
        &&& client.persistent_session == (client.session_expiry_interval != 0)
        &&& after.sessions.dom().contains(client.client_id)
        &&& after.sessions[client.client_id].session_expiry_interval
            == client.session_expiry_interval
        &&& after.sessions[client.client_id].expires_at_ms is None
    }) by {
        assert(before.clients.dom().contains(c));
    }
    assert forall|id: Seq<char>| #[trigger] after.connections.dom().contains(id) implies
        after.clients.dom().contains(after.connections[id])
        && after.clients[after.connections[id]].client_id == id by {
        assert(before.connections.dom().contains(id));
    }
}

/// Sending a publication for one subscription, or queueing it, keeps the state.
pub proof fn routing_keeps_basics(
    state: StateView,
    subscription: EntryView,
    packet: PublishView,
    config: BrokerConfig,
    now_ms: u64,
)
    requires
        state_basics(state),
        valid_topic_name(packet.topic_name),
    ensures
        basics_kept(state, routed(state, subscription, packet, config, now_ms).0, now_ms),
{
    let client_id = subscription.client_id;
    let expires_at_ms = expiry_of(packet.properties, now_ms);
    follows_itself(state, now_ms);
    if !state.connections.dom().contains(client_id) {
        if let Some(session) = queued_offline(
            state,
            subscription,
            packet,
            config.max_offline_queue_len,
            now_ms,
        ) {
            let qos = lower_qos(packet.qos, subscription.options.maximum_qos);
            queueing_keeps_session(
                state.sessions[client_id],
                outgoing(
                    packet,
                    qos,
                    subscription.options.retain_as_published && packet.retain,
                    None,
                    false,
                    subscription.subscription_identifier,
                ),
                expires_at_ms,
                config.max_offline_queue_len,
            );
            session_step(state, client_id, session, now_ms);
        }
    } else if let Some((connection_id, client, session)) = reachable(state, client_id) {
        let target = target_of(connection_id, client);
        let terms = terms_of(subscription, packet, expires_at_ms, config);
        delivery_keeps_session(session, target, packet, terms, now_ms);
        let next = delivered(session, target, packet, terms, now_ms).0;
        if lower_qos(packet.qos, subscription.options.maximum_qos) == QoS::AtMostOnce {
            assert(next == session);
            same_session_put(state, client_id);
        } else {
            session_step(state, client_id, next, now_ms);
        }
    }
}

/// Sending a publication for some subscriptions keeps the state.
pub proof fn routing_all_keeps_basics(
    state: StateView,
    subscriptions: Seq<EntryView>,
    packet: PublishView,
    config: BrokerConfig,
    now_ms: u64,
)
    requires
        state_basics(state),
        valid_topic_name(packet.topic_name),
    ensures
        basics_kept(state, routed_all(state, subscriptions, packet, config, now_ms).0, now_ms),
    decreases subscriptions.len(),
{
    if subscriptions.len() == 0 {
        follows_itself(state, now_ms);
    } else {
        let front = routed_all(state, subscriptions.drop_last(), packet, config, now_ms).0;
        routing_all_keeps_basics(state, subscriptions.drop_last(), packet, config, now_ms);
        routing_keeps_basics(front, subscriptions.last(), packet, config, now_ms);
        let last = routed(front, subscriptions.last(), packet, config, now_ms).0;
        follows_twice(state, front, last, now_ms, now_ms);
    }
}

/// A publication keeps the state.
pub proof fn publishing_keeps_basics(
    state: StateView,
    config: BrokerConfig,
    connection_id: u64,
    packet: PublishView,
    now_ms: u64,
)
    requires
        state_basics(state),
        valid_topic_name(packet.topic_name),
    ensures
        basics_kept(state, publication(state, config, connection_id, packet, now_ms).0, now_ms),
{
    let live = without_expired(state, now_ms);
    expiring_keeps_basics(state, now_ms);
    let told = after_retain(live, packet, config, now_ms);
    retaining_keeps_basics(live, packet, config, now_ms);
    follows_twice(state, live, told, now_ms, now_ms);
    if !expired(expiry_of(packet.properties, now_ms), now_ms) {
        let wanted = wanting(
            told.subscriptions,
            packet.topic_name,
            publisher_of(told, connection_id),
        );
        let chosen = served(told, wanted);
        linked_alike(told, chosen.0);
        assert forall|id: Seq<char>| #[trigger] is_durable(chosen.0, id) == is_durable(
            told,
            id,
        ) by {}
        unstored_change(told, chosen.0, now_ms);
        follows_twice(state, told, chosen.0, now_ms, now_ms);
        routing_all_keeps_basics(chosen.0, chosen.1, packet, config, now_ms);
        follows_twice(
            state,
            chosen.0,
            routed_all(chosen.0, chosen.1, packet, config, now_ms).0,
            now_ms,
            now_ms,
        );
    }
}

/// Publishing a will keeps the state, whatever its topic.
pub proof fn publishing_will_keeps_basics(
    state: StateView,
    config: BrokerConfig,
    connection_id: u64,
    will: WillView,
    now_ms: u64,
)
    requires
        state_basics(state),
    ensures
        basics_kept(state, will_published(state, config, connection_id, will, now_ms).0, now_ms),
{
    follows_itself(state, now_ms);
    if valid_topic_name(will.topic) {
        publishing_keeps_basics(state, config, connection_id, will_publication(will), now_ms);
    }
}

/// Keeping a QoS 2 publication until it is released keeps the state.
pub proof fn storing_qos2_keeps_basics(
    state: StateView,
    config: BrokerConfig,
    connection_id: u64,
    packet_id: u16,
    packet: PublishView,
    now_ms: u64,
)
    requires
        state_basics(state),
        valid_topic_name(packet.topic_name),
    ensures
        basics_kept(
            state,
            stored_qos2(state, config, connection_id, packet_id, packet, now_ms).0,
            now_ms,
        ),
{
    let after = stored_qos2(state, config, connection_id, packet_id, packet, now_ms).0;
    linked_alike(state, after);
    assert forall|id: Seq<char>| #[trigger] is_durable(after, id) == is_durable(state, id) by {}
    assert forall|key: (u64, u16)| #[trigger]
        after.qos2_inflight.dom().contains(key) implies valid_topic_name(
        after.qos2_inflight[key].packet.topic_name,
    ) by {
        if key != (connection_id, packet_id) {
            assert(state.qos2_inflight.dom().contains(key));
        }
    }
    unstored_change(state, after, now_ms);
}

/// Releasing a QoS 2 publication keeps the state.
pub proof fn releasing_qos2_keeps_basics(
    state: StateView,
    config: BrokerConfig,
    connection_id: u64,
    packet_id: u16,
    now_ms: u64,
)
    requires
        state_basics(state),
    ensures
        basics_kept(
            state,
            completed_qos2(state, config, connection_id, packet_id, now_ms).0,
            now_ms,
        ),
{
    let key = (connection_id, packet_id);
    follows_itself(state, now_ms);
    if state.qos2_inflight.dom().contains(key) {
        let pending = state.qos2_inflight[key];
        let released = StateView { qos2_inflight: state.qos2_inflight.remove(key), ..state };
        linked_alike(state, released);
        assert forall|id: Seq<char>| #[trigger] is_durable(released, id) == is_durable(
            state,
            id,
        ) by {}
        assert forall|other: (u64, u16)| #[trigger]
            released.qos2_inflight.dom().contains(other) implies valid_topic_name(
            released.qos2_inflight[other].packet.topic_name,
        ) by {
            assert(state.qos2_inflight.dom().contains(other));
        }
        unstored_change(state, released, now_ms);
        if expired(pending.expires_at_ms, now_ms) {
            expiring_keeps_basics(released, now_ms);
            follows_twice(
                state,
                released,
                without_expired(released, now_ms),
                now_ms,
                now_ms,
            );
        } else {
            publishing_keeps_basics(released, config, connection_id, pending.packet, now_ms);
            follows_twice(
                state,
                released,
                publication(released, config, connection_id, pending.packet, now_ms).0,
                now_ms,
                now_ms,
            );
        }
    }
}

/// An acknowledged session whose queue is sent keeps the state.
proof fn acknowledged_step(
    state: StateView,
    connection_id: u64,
    client_id: Seq<char>,
    session: SessionView,
    now_ms: u64,
)
    requires
        state_basics(state),
        state.clients.dom().contains(connection_id),
        state.clients[connection_id].client_id == client_id,
        session_sound(session),
        goes_on(state.sessions[client_id], session),
    ensures
        basics_kept(
            state,
            queue_sent(with_session(state, client_id, session), client_id, now_ms).0,
            now_ms,
        ),
{
    let client = state.clients[connection_id];
    let next = with_session(state, client_id, session);
    assert(lookup(state.connections, client_id) == Some(connection_id));
    assert(reachable(next, client_id) == Some((connection_id, client, session)));
    flushing_keeps_session(
        session,
        client.receive_maximum,
        client.maximum_packet_size,
        now_ms,
        Seq::empty(),
    );
    let rest = flushed(
        session,
        client.receive_maximum,
        client.maximum_packet_size,
        now_ms,
        Seq::empty(),
    ).0;
    goes_on_twice(state.sessions[client_id], session, rest);
    session_step(state, client_id, rest, now_ms);
    assert(with_session(next, client_id, rest) == with_session(state, client_id, rest)) by {
        assert(next.sessions.insert(client_id, rest) =~= state.sessions.insert(client_id, rest));
    }
}

/// The acknowledgements of a client keep the state.
pub proof fn acknowledging_keeps_basics(
    state: StateView,
    connection_id: u64,
    packet_id: u16,
    now_ms: u64,
)
    requires
        state_basics(state),
    ensures
        basics_kept(state, acknowledged_qos1(state, connection_id, packet_id, now_ms).0, now_ms),
        basics_kept(state, received_qos2(state, connection_id, packet_id, now_ms).0, now_ms),
        basics_kept(state, finished_qos2(state, connection_id, packet_id).0, now_ms),
{
    follows_itself(state, now_ms);
    if let Some((client_id, session)) = session_of(state, connection_id) {
        acknowledgements_keep_session(session, packet_id);
        if session.outbound_qos1.dom().contains(packet_id) {
            acknowledged_step(
                state,
                connection_id,
                client_id,
                SessionView { outbound_qos1: session.outbound_qos1.remove(packet_id), ..session },
                now_ms,
            );
        }
        if session.outbound_qos2_publish.dom().contains(packet_id) {
            acknowledged_step(
                state,
                connection_id,
                client_id,
                SessionView {
                    outbound_qos2_publish: session.outbound_qos2_publish.remove(packet_id),
                    outbound_qos2_pubrel: session.outbound_qos2_pubrel.insert(packet_id),
                    ..session
                },
                now_ms,
            );
        }
        session_step(
            state,
            client_id,
            SessionView {
                outbound_qos2_pubrel: session.outbound_qos2_pubrel.remove(packet_id),
                ..session
            },
            now_ms,
        );
    }
}

/// Sending again what a client has not acknowledged keeps the state, where nothing in flight has
/// expired.
pub proof fn retransmitting_keeps_basics(state: StateView, connection_id: u64, now_ms: u64)
    requires
        state_basics(state),
        session_of(state, connection_id) matches Some(found) ==> without_stale(found.1, now_ms)
            == found.1,
    ensures
        basics_kept(state, retransmitted(state, connection_id, now_ms).0, now_ms),
{
    follows_itself(state, now_ms);
    if let Some((client_id, session)) = session_of(state, connection_id) {
        same_session_put(state, client_id);
    }
}

/// The options and the identifier of a subscription are ones that the protocol allows.
pub open spec fn request_sound(
    subscription: SubscriptionView,
    subscription_identifier: Option<u32>,
) -> bool {
    &&& subscription.options.retain_handling <= 2
    &&& subscription_identifier matches Some(identifier) ==> 0 < identifier
        <= MAX_SUBSCRIPTION_IDENTIFIER
}

/// A subscription in the place of another one of the same client does not matter to others.
proof fn others_after_update(
    subscriptions: Seq<EntryView>,
    index: int,
    entry: EntryView,
    client_id: Seq<char>,
)
    requires
        0 <= index < subscriptions.len(),
        subscriptions[index].client_id != client_id,
        entry.client_id != client_id,
    ensures
        subscriptions_by_filter(subscriptions.update(index, entry), client_id)
            == subscriptions_by_filter(subscriptions, client_id),
    decreases subscriptions.len(),
{
    let after = subscriptions.update(index, entry);
    let front = subscriptions.drop_last();
    if index < front.len() {
        others_after_update(front, index, entry, client_id);
        assert(after.drop_last() =~= front.update(index, entry));
        assert(after.last() == subscriptions.last());
    } else {
        assert(after.drop_last() =~= front);
        assert(after.last() == entry);
        assert(subscriptions.last() == subscriptions[index]);
    }
}

/// Storing a subscription, marked where the session is stored, keeps the state.
proof fn storing_subscription_keeps_basics(
    state: StateView,
    connection_id: u64,
    existing: Option<int>,
    entry: EntryView,
    now_ms: u64,
)
    requires
        state_basics(state),
        state.clients.dom().contains(connection_id),
        entry.client_id == state.clients[connection_id].client_id,
        entry_sound(entry),
        existing matches Some(index) ==> 0 <= index < state.subscriptions.len()
            && state.subscriptions[index].client_id == entry.client_id,
    ensures
        ({
            let stored = StateView {
                subscriptions: match existing {
                    Some(index) => state.subscriptions.update(index, entry),
                    None => state.subscriptions.push(entry),
                },
                ..state
            };
            let noted = if state.clients[connection_id].persistent_session {
                marked_changed(stored, entry.client_id)
            } else {
                stored
            };
            basics_kept(state, noted, now_ms)
        }),
{
    let client = state.clients[connection_id];
    let client_id = client.client_id;
    let stored = StateView {
        subscriptions: match existing {
            Some(index) => state.subscriptions.update(index, entry),
            None => state.subscriptions.push(entry),
        },
        ..state
    };
    let after = if client.persistent_session {
        marked_changed(stored, client_id)
    } else {
        stored
    };
    linked_alike(state, after);
    assert(lookup(state.connections, client_id) == Some(connection_id));
    assert(connected_client(state, client_id) == Some(client));
    assert forall|id: Seq<char>| #[trigger] client_followed(state, after, id) by {
        assert(connected_client(after, id) == connected_client(state, id));
        assert(is_durable(after, id) == is_durable(state, id));
        if id != client_id {
            match existing {
                Some(index) => {
                    others_after_update(state.subscriptions, index, entry, id);
                },
                None => {
                    let list = state.subscriptions.push(entry);
                    assert(list.drop_last() =~= state.subscriptions);
                    assert(list.last() == entry);
                },
            }
            bystander_followed(state, after, id);
        } else {
            let session = state.sessions[id];
            going_on_evolves(session, session, state.subscriptions, after.subscriptions, id);
        }
    }
    assert forall|topic: Seq<char>| #[trigger] topic_followed(state, after, topic, now_ms) by {}
    assert forall|i: int| 0 <= i < after.subscriptions.len() implies entry_sound(
        #[trigger] after.subscriptions[i],
    ) by {
        if after.subscriptions[i] != entry {
            assert(after.subscriptions[i] == state.subscriptions[i]);
        }
    }
}

/// Sending retained messages keeps a session in order, and as it is where all of them go with QoS
/// 0.
proof fn retained_messages_keep_session(
    session: SessionView,
    target: DeliveryTarget,
    subscription: EntryView,
    messages: Seq<RetainedView>,
    config: BrokerConfig,
    now_ms: u64,
)
    requires
        session_sound(session),
        forall|i: int|
            0 <= i < messages.len() ==> valid_topic_name((#[trigger] messages[i]).topic_name),
    ensures
        ({
            let after = retained_routed_all(
                session,
                target,
                subscription,
                messages,
                config,
                now_ms,
            ).0;
            &&& session_sound(after)
            &&& goes_on(session, after)
            &&& !some_acknowledged(messages, subscription.options.maximum_qos) ==> after == session
        }),
    decreases messages.len(),
{
    if messages.len() > 0 {
        let front = messages.drop_last();
        let last = messages.last();
        assert(messages[messages.len() - 1] == last);
        assert forall|i: int| 0 <= i < front.len() implies valid_topic_name(
            (#[trigger] front[i]).topic_name,
        ) by {
            assert(front[i] == messages[i]);
        }
        retained_messages_keep_session(session, target, subscription, front, config, now_ms);
        let middle = retained_routed_all(
            session,
            target,
            subscription,
            front,
            config,
            now_ms,
        ).0;
        let after = retained_routed(
            middle,
            target,
            subscription,
            last,
            config,
            now_ms,
        ).0;
        delivery_keeps_session(
            middle,
            target,
            retained_publication(last),
            retained_terms(subscription, last, config),
            now_ms,
        );
        assert(goes_on(middle, after));
        goes_on_twice(session, middle, after);
        if !some_acknowledged(messages, subscription.options.maximum_qos) {
            assert(!some_acknowledged(front, subscription.options.maximum_qos)) by {
                if some_acknowledged(front, subscription.options.maximum_qos) {
                    let i = choose|i: int|
                        0 <= i < front.len() && lower_qos(
                            (#[trigger] front[i]).qos,
                            subscription.options.maximum_qos,
                        ) != QoS::AtMostOnce;
                    assert(messages[i] == front[i]);
                }
            }
            assert(lower_qos(last.qos, subscription.options.maximum_qos) == QoS::AtMostOnce);
        }
    }
}

/// Sending the retained messages for a subscription keeps the state.
pub proof fn sending_retained_keeps_basics(
    state: StateView,
    subscription: EntryView,
    config: BrokerConfig,
    now_ms: u64,
)
    requires
        state_basics(state),
    ensures
        basics_kept(state, retained_sent(state, subscription, config, now_ms).0, now_ms),
        retained_sent(state, subscription, config, now_ms).0.clients == state.clients,
{
    let fresh = StateView { retained: unexpired(state.retained, now_ms), ..state };
    listed_part::<String, RetainedView>(state.retained, fresh.retained);
    linked_alike(state, fresh);
    assert forall|topic: Seq<char>| #[trigger] fresh.retained.dom().contains(topic) implies
        valid_topic_name(topic) && fresh.retained[topic].topic_name == topic by {
        assert(state.retained.dom().contains(topic));
    }
    assert forall|id: Seq<char>| #[trigger] client_followed(state, fresh, id) by {
        assert(is_durable(fresh, id) == is_durable(state, id));
        bystander_followed(state, fresh, id);
    }
    assert forall|topic: Seq<char>| #[trigger] topic_followed(state, fresh, topic, now_ms) by {}
    assert(basics_kept(state, fresh, now_ms));
    let client_id = subscription.client_id;
    if let Some((connection_id, client, session)) = reachable(fresh, client_id) {
        let filter = match_filter_of(subscription.match_filter);
        let messages = matching_list(fresh.retained, subscription.match_filter);
        if valid_topic_filter(filter) {
            matching_list_exists(fresh.retained, filter);
            assert(is_matching_list(fresh.retained, filter, messages));
        }
        assert forall|i: int| 0 <= i < messages.len() implies valid_topic_name(
            (#[trigger] messages[i]).topic_name,
        ) by {
            assert(fresh.retained.dom().contains(messages[i].topic_name));
        }
        let target = target_of(connection_id, client);
        retained_messages_keep_session(session, target, subscription, messages, config, now_ms);
        let next = retained_routed_all(
            session,
            target,
            subscription,
            messages,
            config,
            now_ms,
        ).0;
        if some_acknowledged(messages, subscription.options.maximum_qos) {
            session_step(fresh, client_id, next, now_ms);
            follows_twice(
                state,
                fresh,
                marked_if_durable(with_session(fresh, client_id, next), client_id),
                now_ms,
                now_ms,
            );
        } else {
            same_session_put(fresh, client_id);
        }
    }
}

/// Working off one requested subscription keeps the state.
proof fn subscribing_one_keeps_basics(
    progress: SubscribeProgress,
    connection_id: u64,
    subscriber: Subscriber,
    subscription: SubscriptionView,
)
    requires
        state_basics(progress.state),
        lookup(progress.state.clients, connection_id) == Some(subscriber.client),
        request_sound(subscription, subscriber.subscription_identifier),
    ensures
        basics_kept(
            progress.state,
            subscribed_one(progress, subscriber, subscription).state,
            subscriber.now_ms,
        ),
        subscribed_one(progress, subscriber, subscription).state.clients == progress.state.clients,
{
    let client = subscriber.client;
    let state = progress.state;
    let filter = subscription.topic_filter;
    let known = client.subscription_count as nat + progress.inserted;
    let existing = held_position(state.subscriptions, client.client_id, filter, known);
    follows_itself(state, subscriber.now_ms);
    if valid_topic_filter(filter) && subscribe_allowed(
        subscriber.rules,
        client.principal,
        filter,
    ) && !(existing is None && known >= subscriber.config.max_subscriptions_per_client) {
        let entry = entry_for(
            client.client_id,
            subscription,
            subscriber.subscription_identifier,
        );
        subscription_position_is_first(state.subscriptions, client.client_id, filter);
        assert(entry_sound(entry));
        storing_subscription_keeps_basics(
            state,
            connection_id,
            existing,
            entry,
            subscriber.now_ms,
        );
        let stored = StateView {
            subscriptions: match existing {
                Some(index) => state.subscriptions.update(index, entry),
                None => state.subscriptions.push(entry),
            },
            ..state
        };
        let noted = if client.persistent_session {
            marked_changed(stored, client.client_id)
        } else {
            stored
        };
        if sends_retained(subscription.options.retain_handling, existing is None) {
            sending_retained_keeps_basics(noted, entry, subscriber.config, subscriber.now_ms);
            follows_twice(
                state,
                noted,
                retained_sent(noted, entry, subscriber.config, subscriber.now_ms).0,
                subscriber.now_ms,
                subscriber.now_ms,
            );
        }
    }
}

/// Working off some requested subscriptions keeps the state.
proof fn subscribing_all_keeps_basics(
    state: StateView,
    connection_id: u64,
    subscriber: Subscriber,
    subscriptions: Seq<SubscriptionView>,
)
    requires
        state_basics(state),
        lookup(state.clients, connection_id) == Some(subscriber.client),
        forall|i: int|
            0 <= i < subscriptions.len() ==> request_sound(
                #[trigger] subscriptions[i],
                subscriber.subscription_identifier,
            ),
    ensures
        basics_kept(
            state,
            subscribed_all(state, subscriber, subscriptions).state,
            subscriber.now_ms,
        ),
        subscribed_all(state, subscriber, subscriptions).state.clients == state.clients,
    decreases subscriptions.len(),
{
    if subscriptions.len() == 0 {
        follows_itself(state, subscriber.now_ms);
    } else {
        let front = subscriptions.drop_last();
        assert forall|i: int| 0 <= i < front.len() implies request_sound(
            #[trigger] front[i],
            subscriber.subscription_identifier,
        ) by {
            assert(front[i] == subscriptions[i]);
        }
        assert(subscriptions[subscriptions.len() - 1] == subscriptions.last());
        subscribing_all_keeps_basics(state, connection_id, subscriber, front);
        let progress = subscribed_all(state, subscriber, front);
        subscribing_one_keeps_basics(progress, connection_id, subscriber, subscriptions.last());
        follows_twice(
            state,
            progress.state,
            subscribed_one(progress, subscriber, subscriptions.last()).state,
            subscriber.now_ms,
            subscriber.now_ms,
        );
    }
}

/// A SUBSCRIBE packet keeps the state.
pub proof fn subscribing_keeps_basics(
    state: StateView,
    rules: AuthConfig,
    config: BrokerConfig,
    connection_id: u64,
    packet: SubscribeView,
    now_ms: u64,
)
    requires
        state_basics(state),
        forall|i: int|
            0 <= i < packet.subscriptions.len() ==> request_sound(
                #[trigger] packet.subscriptions[i],
                first_of(packet.properties, subscription_identifier_in()),
            ),
    ensures
        basics_kept(
            state,
            subscribed(state, rules, config, connection_id, packet, now_ms).0,
            now_ms,
        ),
{
    follows_itself(state, now_ms);
    if let Some(client) = lookup(state.clients, connection_id) {
        let subscriber = Subscriber {
            client,
            rules,
            config,
            subscription_identifier: first_of(packet.properties, subscription_identifier_in()),
            now_ms,
        };
        subscribing_all_keeps_basics(state, connection_id, subscriber, packet.subscriptions);
        let progress = subscribed_all(state, subscriber, packet.subscriptions);
        counting_keeps_basics(
            progress.state,
            connection_id,
            client.subscription_count as nat + progress.inserted,
            now_ms,
        );
        follows_twice(
            state,
            progress.state,
            counted(
                progress.state,
                connection_id,
                client.subscription_count as nat + progress.inserted,
            ),
            now_ms,
            now_ms,
        );
    }
}

/// How many subscriptions a client is said to hold does not matter.
proof fn counting_keeps_basics(state: StateView, connection_id: u64, count: nat, now_ms: u64)
    requires
        state_basics(state),
    ensures
        basics_kept(state, counted(state, connection_id, count), now_ms),
{
    let after = counted(state, connection_id, count);
    assert(after.clients.dom() =~= state.clients.dom());
    client_fields_keep_basics(state, after, now_ms);
}

/// A list from which nothing is dropped is the same.
proof fn nothing_dropped<A>(items: Seq<A>, keep: spec_fn(A) -> bool)
    ensures
        items.filter(keep).len() <= items.len(),
        items.filter(keep).len() == items.len() ==> items.filter(keep) == items,
    decreases items.len(),
{
    reveal(Seq::filter);
    if items.len() > 0 {
        let front = items.drop_last();
        nothing_dropped(front, keep);
        if keep(items.last()) {
            assert(items.filter(keep) =~= front.filter(keep).push(items.last()));
            if front.filter(keep) == front {
                assert(front.push(items.last()) =~= items);
            }
        }
    } else {
        assert(items.filter(keep) =~= items);
    }
}

/// Dropping the subscriptions of a client under some filters leaves those of others.
proof fn dropping_held(
    subscriptions: Seq<EntryView>,
    client_id: Seq<char>,
    filters: Seq<Seq<char>>,
    other: Seq<char>,
)
    requires
        forall|i: int|
            0 <= i < subscriptions.len() ==> entry_sound(#[trigger] subscriptions[i]),
    ensures
        ({
            let left = without_all_held(subscriptions, client_id, filters);
            &&& left.len() <= subscriptions.len()
            &&& left.len() == subscriptions.len() ==> left == subscriptions
            &&& forall|i: int| 0 <= i < left.len() ==> entry_sound(#[trigger] left[i])
            &&& other != client_id ==> subscriptions_by_filter(left, other)
                == subscriptions_by_filter(subscriptions, other)
        }),
    decreases filters.len(),
{
    if filters.len() > 0 {
        dropping_held(subscriptions, client_id, filters.drop_last(), other);
        let before = without_all_held(subscriptions, client_id, filters.drop_last());
        let keep = |entry: EntryView| !is_held(entry, client_id, filters.last());
        nothing_dropped(before, keep);
        filtered_entries_sound(before, keep);
        if other != client_id {
            assert forall|entry: EntryView| entry.client_id == other implies #[trigger] keep(
                entry,
            ) by {}
            kept_subscriptions(before, keep, other);
        }
    }
}

/// An UNSUBSCRIBE packet keeps the state.
pub proof fn unsubscribing_keeps_basics(
    state: StateView,
    connection_id: u64,
    filters: Seq<Seq<char>>,
    now_ms: u64,
)
    requires
        state_basics(state),
    ensures
        basics_kept(state, unsubscribed(state, connection_id, filters), now_ms),
{
    follows_itself(state, now_ms);
    if let Some(client) = lookup(state.clients, connection_id) {
        let client_id = client.client_id;
        let left = without_all_held(state.subscriptions, client_id, filters);
        let removed = state.subscriptions.len() - left.len();
        dropping_held(state.subscriptions, client_id, filters, client_id);
        if removed > 0 {
            let base = StateView { subscriptions: left, ..state };
            let marked = if client.persistent_session {
                marked_changed(base, client_id)
            } else {
                base
            };
            linked_alike(state, marked);
            assert(lookup(state.connections, client_id) == Some(connection_id));
            assert(connected_client(state, client_id) == Some(client));
            assert forall|id: Seq<char>| #[trigger] client_followed(state, marked, id) by {
                assert(connected_client(marked, id) == connected_client(state, id));
                assert(is_durable(marked, id) == is_durable(state, id));
                if id != client_id {
                    dropping_held(state.subscriptions, client_id, filters, id);
                    bystander_followed(state, marked, id);
                } else {
                    let session = state.sessions[id];
                    going_on_evolves(
                        session,
                        session,
                        state.subscriptions,
                        marked.subscriptions,
                        id,
                    );
                }
            }
            assert forall|topic: Seq<char>| #[trigger]
                topic_followed(state, marked, topic, now_ms) by {}
            let count = if client.subscription_count >= removed {
                (client.subscription_count - removed) as nat
            } else {
                0
            };
            counting_keeps_basics(marked, connection_id, count, now_ms);
            follows_twice(
                state,
                marked,
                counted(marked, connection_id, count),
                now_ms,
                now_ms,
            );
            assert(counted(marked, connection_id, count) == unsubscribed(
                state,
                connection_id,
                filters,
            ));
        }
    }
}

} // verus!
