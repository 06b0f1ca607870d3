//! Every operation keeps the broker's state in order, and marks every change that has to be stored.
use vstd::prelude::*;

use crate::auth::AuthConfig;
use crate::broker::acknowledged_qos1;
use crate::broker::completed_qos2;
use crate::broker::connected;
use crate::broker::disconnected;
use crate::broker::finished_qos2;
use crate::broker::publication;
use crate::broker::received_qos2;
use crate::broker::session_of;
use crate::broker::stored_qos2;
use crate::broker::subscribed;
use crate::broker::unsubscribed;
use crate::broker::will_publication;
use crate::broker::will_published;
use crate::broker::with_deadline;
use crate::config::BrokerConfig;
use crate::connection::ConnectOptions;
use crate::connection::first_of;
use crate::connection::subscription_identifier_in;
use crate::count_laws::connecting_keeps_counts;
use crate::count_laws::counts_unmoved;
use crate::count_laws::disconnecting_keeps_counts;
use crate::count_laws::expiring_keeps_counts;
use crate::count_laws::publishing_keeps_counts;
use crate::count_laws::routing_moves_nothing;
use crate::count_laws::subscribing_keeps_counts;
use crate::count_laws::unsubscribing_keeps_counts;
use crate::delivery::after_retain;
use crate::inflight::without_stale;
use crate::message::expired;
use crate::operation_laws::acknowledging_keeps_basics;
use crate::operation_laws::connecting_keeps_basics;
use crate::operation_laws::deadline_keeps_basics;
use crate::operation_laws::disconnecting_keeps_basics;
use crate::operation_laws::linked_alike;
use crate::operation_laws::publishing_keeps_basics;
use crate::operation_laws::publishing_will_keeps_basics;
use crate::operation_laws::releasing_qos2_keeps_basics;
use crate::operation_laws::request_sound;
use crate::operation_laws::retaining_keeps_basics;
use crate::operation_laws::retransmitting_keeps_basics;
use crate::operation_laws::routing_all_keeps_basics;
use crate::operation_laws::routing_keeps_basics;
use crate::operation_laws::sending_retained_keeps_basics;
use crate::operation_laws::storing_qos2_keeps_basics;
use crate::operation_laws::subscribing_keeps_basics;
use crate::operation_laws::unsubscribing_keeps_basics;
use crate::packet::PublishView;
use crate::packet::SubscribeView;
use crate::packet::WillView;
use crate::protocol::valid_topic_name;
use crate::routing::retained_sent;
use crate::routing::retransmitted;
use crate::routing::routed;
use crate::routing::routed_all;
use crate::session::StateView;
use crate::session::without_expired;
use crate::state_laws::expiring_keeps_basics;
use crate::state_laws::kept;
use crate::state_laws::state_sound;
use crate::subscription::EntryView;

verus! {

/// Dropping the sessions that have expired keeps the state.
pub proof fn expiring_keeps_state(state: StateView, now_ms: u64)
    requires
        state_sound(state),
    ensures
        kept(state, without_expired(state, now_ms), now_ms),
        without_expired(state, now_ms).clients == state.clients,
        without_expired(state, now_ms).connections == state.connections,
{
    expiring_keeps_basics(state, now_ms);
    expiring_keeps_counts(state, now_ms);
}

/// A client that connects anew over a connection that nobody uses keeps the state.
pub proof fn connecting_keeps_state(
    state: StateView,
    connection_id: u64,
    client_id: Seq<char>,
    will: Option<WillView>,
    principal: Option<Seq<char>>,
    options: ConnectOptions,
    now_ms: u64,
)
    requires
        state_sound(state),
        state.subscriptions.len() <= usize::MAX,
        !state.clients.dom().contains(connection_id),
        client_id.len() > 0,
    ensures
        kept(
            state,
            connected(
                state,
                connection_id,
                client_id,
                will,
                principal,
                options,
                now_ms,
            ).0,
            now_ms,
        ),
{
    connecting_keeps_basics(state, connection_id, client_id, will, principal, options, now_ms);
    connecting_keeps_counts(
        state,
        connection_id,
        client_id,
        will,
        principal,
        options,
        now_ms,
    );
}

/// A client that is gone keeps the state.
pub proof fn disconnecting_keeps_state(state: StateView, connection_id: u64, now_ms: u64)
    requires
        state_sound(state),
    ensures
        kept(state, disconnected(state, connection_id, now_ms), now_ms),
{
    disconnecting_keeps_basics(state, connection_id, now_ms);
    disconnecting_keeps_counts(state, connection_id, now_ms);
}

/// What a client is allowed to be silent for does not matter.
pub proof fn deadline_keeps_state(
    state: StateView,
    connection_id: u64,
    deadline_ms: u64,
    now_ms: u64,
)
    requires
        state_sound(state),
    ensures
        kept(state, with_deadline(state, connection_id, deadline_ms), now_ms),
{
    deadline_keeps_basics(state, connection_id, deadline_ms, now_ms);
    counts_unmoved(state, with_deadline(state, connection_id, deadline_ms));
}

/// Heeding the retain flag of a publication keeps the state.
pub proof fn retaining_keeps_state(
    state: StateView,
    packet: PublishView,
    config: BrokerConfig,
    now_ms: u64,
)
    requires
        state_sound(state),
        valid_topic_name(packet.topic_name),
    ensures
        kept(state, after_retain(state, packet, config, now_ms), now_ms),
{
    retaining_keeps_basics(state, packet, config, now_ms);
    counts_unmoved(state, after_retain(state, packet, config, now_ms));
}

/// Sending a publication for one subscription, or queueing it, keeps the state.
pub proof fn routing_keeps_state(
    state: StateView,
    subscription: EntryView,
    packet: PublishView,
    config: BrokerConfig,
    now_ms: u64,
)
    requires
        state_sound(state),
        valid_topic_name(packet.topic_name),
    ensures
        kept(state, routed(state, subscription, packet, config, now_ms).0, now_ms),
{
    routing_keeps_basics(state, subscription, packet, config, now_ms);
    counts_unmoved(state, routed(state, subscription, packet, config, now_ms).0);
}

/// Sending a publication for some subscriptions keeps the state.
pub proof fn routing_all_keeps_state(
    state: StateView,
    subscriptions: Seq<EntryView>,
    packet: PublishView,
    config: BrokerConfig,
    now_ms: u64,
)
    requires
        state_sound(state),
        valid_topic_name(packet.topic_name),
    ensures
        kept(state, routed_all(state, subscriptions, packet, config, now_ms).0, now_ms),
    decreases subscriptions.len(),
{
    routing_all_keeps_basics(state, subscriptions, packet, config, now_ms);
    routing_moves_nothing(state, subscriptions, packet, config, now_ms);
    counts_unmoved(state, routed_all(state, subscriptions, packet, config, now_ms).0);
}

/// A publication keeps the state.
pub proof fn publishing_keeps_state(
    state: StateView,
    config: BrokerConfig,
    connection_id: u64,
    packet: PublishView,
    now_ms: u64,
)
    requires
        state_sound(state),
        valid_topic_name(packet.topic_name),
    ensures
        kept(state, publication(state, config, connection_id, packet, now_ms).0, now_ms),
{
    publishing_keeps_basics(state, config, connection_id, packet, now_ms);
    publishing_keeps_counts(state, config, connection_id, packet, now_ms);
}

/// Publishing a will keeps the state, whatever its topic.
pub proof fn publishing_will_keeps_state(
    state: StateView,
    config: BrokerConfig,
    connection_id: u64,
    will: WillView,
    now_ms: u64,
)
    requires
        state_sound(state),
    ensures
        kept(state, will_published(state, config, connection_id, will, now_ms).0, now_ms),
{
    publishing_will_keeps_basics(state, config, connection_id, will, now_ms);
    publishing_keeps_counts(state, config, connection_id, will_publication(will), now_ms);
}

/// Keeping a QoS 2 publication until it is released keeps the state.
pub proof fn storing_qos2_keeps_state(
    state: StateView,
    config: BrokerConfig,
    connection_id: u64,
    packet_id: u16,
    packet: PublishView,
    now_ms: u64,
)
    requires
        state_sound(state),
        valid_topic_name(packet.topic_name),
    ensures
        kept(
            state,
            stored_qos2(state, config, connection_id, packet_id, packet, now_ms).0,
            now_ms,
        ),
{
    storing_qos2_keeps_basics(state, config, connection_id, packet_id, packet, now_ms);
    counts_unmoved(
        state,
        stored_qos2(state, config, connection_id, packet_id, packet, now_ms).0,
    );
}

/// Releasing a QoS 2 publication keeps the state.
pub proof fn releasing_qos2_keeps_state(
    state: StateView,
    config: BrokerConfig,
    connection_id: u64,
    packet_id: u16,
    now_ms: u64,
)
    requires
        state_sound(state),
    ensures
        kept(
            state,
            completed_qos2(state, config, connection_id, packet_id, now_ms).0,
            now_ms,
        ),
{
    releasing_qos2_keeps_basics(state, config, connection_id, packet_id, now_ms);
    let key = (connection_id, packet_id);
    if state.qos2_inflight.dom().contains(key) {
        let pending = state.qos2_inflight[key];
        let released = StateView { qos2_inflight: state.qos2_inflight.remove(key), ..state };
        counts_unmoved(state, released);
        assert(state_sound(released)) by {
            linked_alike(state, released);
            assert forall|other: (u64, u16)| #[trigger]
                released.qos2_inflight.dom().contains(other) implies valid_topic_name(
                released.qos2_inflight[other].packet.topic_name,
            ) by {
                assert(state.qos2_inflight.dom().contains(other));
            }
        }
        if expired(pending.expires_at_ms, now_ms) {
            expiring_keeps_counts(released, now_ms);
        } else {
            publishing_keeps_counts(released, config, connection_id, pending.packet, now_ms);
        }
    }
}

/// The acknowledgements of a client keep the state.
pub proof fn acknowledging_keeps_state(
    state: StateView,
    connection_id: u64,
    packet_id: u16,
    now_ms: u64,
)
    requires
        state_sound(state),
    ensures
        kept(state, acknowledged_qos1(state, connection_id, packet_id, now_ms).0, now_ms),
        kept(state, received_qos2(state, connection_id, packet_id, now_ms).0, now_ms),
        kept(state, finished_qos2(state, connection_id, packet_id).0, now_ms),
{
    acknowledging_keeps_basics(state, connection_id, packet_id, now_ms);
    counts_unmoved(state, acknowledged_qos1(state, connection_id, packet_id, now_ms).0);
    counts_unmoved(state, received_qos2(state, connection_id, packet_id, now_ms).0);
    counts_unmoved(state, finished_qos2(state, connection_id, packet_id).0);
}

/// Sending again what a client has not acknowledged keeps the state, where nothing in flight has
/// expired.
pub proof fn retransmitting_keeps_state(state: StateView, connection_id: u64, now_ms: u64)
    requires
        state_sound(state),
        session_of(state, connection_id) matches Some(found) ==> without_stale(found.1, now_ms)
            == found.1,
    ensures
        kept(state, retransmitted(state, connection_id, now_ms).0, now_ms),
{
    retransmitting_keeps_basics(state, connection_id, now_ms);
    counts_unmoved(state, retransmitted(state, connection_id, now_ms).0);
}

/// Sending the retained messages for a subscription keeps the state.
pub proof fn sending_retained_keeps_state(
    state: StateView,
    subscription: EntryView,
    config: BrokerConfig,
    now_ms: u64,
)
    requires
        state_sound(state),
    ensures
        kept(state, retained_sent(state, subscription, config, now_ms).0, now_ms),
        retained_sent(state, subscription, config, now_ms).0.clients == state.clients,
{
    sending_retained_keeps_basics(state, subscription, config, now_ms);
    counts_unmoved(state, retained_sent(state, subscription, config, now_ms).0);
}

/// A SUBSCRIBE packet keeps the state.
pub proof fn subscribing_keeps_state(
    state: StateView,
    rules: AuthConfig,
    config: BrokerConfig,
    connection_id: u64,
    packet: SubscribeView,
    now_ms: u64,
)
    requires
        state_sound(state),
        forall|i: int|
            0 <= i < packet.subscriptions.len() ==> request_sound(
                #[trigger] packet.subscriptions[i],
                first_of(packet.properties, subscription_identifier_in()),
            ),
    ensures
        kept(state, subscribed(state, rules, config, connection_id, packet, now_ms).0, now_ms),
{
    subscribing_keeps_basics(state, rules, config, connection_id, packet, now_ms);
    subscribing_keeps_counts(state, rules, config, connection_id, packet, now_ms);
}

/// An UNSUBSCRIBE packet keeps the state.
pub proof fn unsubscribing_keeps_state(
    state: StateView,
    connection_id: u64,
    filters: Seq<Seq<char>>,
    now_ms: u64,
)
    requires
        state_sound(state),
    ensures
        kept(state, unsubscribed(state, connection_id, filters), now_ms),
{
    unsubscribing_keeps_basics(state, connection_id, filters, now_ms);
    unsubscribing_keeps_counts(state, connection_id, filters);
}

} // verus!
