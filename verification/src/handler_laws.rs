//! What holds of every packet that a connection sends.
use vstd::prelude::*;

use crate::auth::authenticated;
use crate::auth::publish_allowed;
use crate::broker::BrokerView;
use crate::broker::connecting;
use crate::broker::disconnected;
use crate::broker::generated_name;
use crate::broker::will_published;
use crate::broker::with_deadline;
use crate::connection::CloseReason;
use crate::connection::alias_resolved;
use crate::connection::connect_defect;
use crate::connection::first_of;
use crate::connection::options_of;
use crate::connection::subscription_identifier_in;
use crate::connection::topic_alias_in;
use crate::handler::EffectView;
use crate::handler::HandlerView;
use crate::handler::StepView;
use crate::handler::closing;
use crate::handler::connect_handled;
use crate::handler::handled;
use crate::handler::moment_after;
use crate::handler::packet_handled;
use crate::handler::principal_of;
use crate::handler::refreshed;
use crate::handler::sending;
use crate::handler::step_taken;
use crate::handler::unwatched;
use crate::keeping_laws::acknowledging_keeps_state;
use crate::keeping_laws::connecting_keeps_state;
use crate::keeping_laws::deadline_keeps_state;
use crate::keeping_laws::disconnecting_keeps_state;
use crate::keeping_laws::publishing_keeps_state;
use crate::keeping_laws::publishing_will_keeps_state;
use crate::keeping_laws::releasing_qos2_keeps_state;
use crate::keeping_laws::storing_qos2_keeps_state;
use crate::keeping_laws::subscribing_keeps_state;
use crate::keeping_laws::unsubscribing_keeps_state;
use crate::operation_laws::request_sound;
use crate::packet::ConnAckView;
use crate::packet::ConnectView;
use crate::packet::DisconnectView;
use crate::packet::PacketView;
use crate::packet::PublishView;
use crate::protocol::BAD_AUTHENTICATION_METHOD;
use crate::protocol::BAD_USER_NAME_OR_PASSWORD;
use crate::protocol::PROTOCOL_ERROR;
use crate::protocol::SERVER_UNAVAILABLE;
use crate::protocol::valid_topic_name;
use crate::reason::reason_properties_of;
use crate::state_laws::follows_itself;
use crate::state_laws::follows_twice;
use crate::state_laws::kept;
use crate::state_laws::state_sound;
use crate::storage::delta::lookup;

verus! {

/// The effect hands out nothing to other connections.
pub open spec fn sends_to_nobody_else(effect: EffectView) -> bool {
    !(effect is Deliver) && !(effect is DeliverHere) && !(effect is CloseConnection)
}

/// A client that has not been let in can do nothing but ask to be: any other packet leaves the
/// broker as it is, and the connection is told so and closed.
pub proof fn stranger_is_turned_away(
    handler: HandlerView,
    broker: BrokerView,
    connection_id: u64,
    packet: PacketView,
    now_ms: u64,
    later_ms: u64,
)
    requires
        !handler.connected,
        handler.keep_alive_interval_ms is None,
        !(packet is Connect),
    ensures
        ({
            let outcome = handled(handler, broker, connection_id, packet, now_ms);
            let reason_code = if packet is Auth {
                BAD_AUTHENTICATION_METHOD
            } else {
                PROTOCOL_ERROR
            };
            let end = step_taken(
                outcome.handler,
                outcome.broker,
                connection_id,
                outcome.step,
                later_ms,
            );
            &&& outcome.broker == broker
            &&& outcome.effects.last() == sending(
                PacketView::Disconnect(
                    DisconnectView { reason_code, properties: reason_properties_of(reason_code) },
                ),
            )
            &&& end.broker == broker
            &&& end.effects.last() == EffectView::Close
            &&& forall|i: int|
                0 <= i < outcome.effects.len() ==> sends_to_nobody_else(
                    #[trigger] outcome.effects[i],
                )
            &&& forall|i: int|
                0 <= i < end.effects.len() ==> sends_to_nobody_else(#[trigger] end.effects[i])
        }),
{
}

/// A client that is not let in leaves no trace: the handler and the broker are as they were, the
/// answer says why, without a session, and the connection is closed.
pub proof fn refused_connect_leaves_no_trace(
    handler: HandlerView,
    broker: BrokerView,
    connection_id: u64,
    packet: ConnectView,
    now_ms: u64,
)
    requires
        !handler.connected,
        connect_defect(packet) is Some || broker.shutting_down || authenticated(
            broker.rules,
            packet.username,
            packet.password,
        ) is None,
    ensures
        ({
            let outcome = handled(
                handler,
                broker,
                connection_id,
                PacketView::Connect(packet),
                now_ms,
            );
            let reason_code = if connect_defect(packet) is Some {
                connect_defect(packet)->0
            } else if broker.shutting_down {
                SERVER_UNAVAILABLE
            } else {
                BAD_USER_NAME_OR_PASSWORD
            };
            &&& outcome.handler == handler
            &&& outcome.broker == broker
            &&& outcome.step is Done
            &&& outcome.effects.len() >= 2
            &&& outcome.effects[outcome.effects.len() - 2] == sending(
                PacketView::ConnAck(
                    ConnAckView {
                        session_present: false,
                        reason_code,
                        properties: reason_properties_of(reason_code),
                    },
                ),
            )
            &&& outcome.effects.last() == EffectView::Close
        }),
{
}

/// A client that takes its leave has its will withheld: nothing is published.
pub proof fn leaving_withholds_will(
    handler: HandlerView,
    broker: BrokerView,
    connection_id: u64,
    packet: DisconnectView,
    now_ms: u64,
)
    requires
        handler.connected,
    ensures
        ({
            let outcome = handled(
                handler,
                broker,
                connection_id,
                PacketView::Disconnect(packet),
                now_ms,
            );
            &&& !outcome.handler.connected
            &&& !outcome.broker.state.clients.dom().contains(connection_id)
            &&& outcome.broker.state.retained == broker.state.retained
            &&& outcome.effects.last() == EffectView::Close
            &&& outcome.step is Done
            &&& forall|i: int|
                0 <= i < outcome.effects.len() ==> sends_to_nobody_else(
                    #[trigger] outcome.effects[i],
                )
        }),
{
    let told = refreshed(handler, broker, connection_id, now_ms);
    let calm = unwatched(handler, told, connection_id);
    assert(calm.state.retained == broker.state.retained);
}

/// A client that may not publish to a topic publishes nothing there: the broker is as it was but
/// for how long the client may be silent, and what was in flight stays as it was.
pub proof fn unauthorized_publication_is_withheld(
    handler: HandlerView,
    broker: BrokerView,
    connection_id: u64,
    packet: PublishView,
    now_ms: u64,
)
    requires
        handler.connected,
        first_of(packet.properties, topic_alias_in()) is None,
        !publish_allowed(
            broker.rules,
            principal_of(broker.state, connection_id),
            packet.topic_name,
        ),
    ensures
        ({
            let outcome = handled(
                handler,
                broker,
                connection_id,
                PacketView::Publish(packet),
                now_ms,
            );
            &&& outcome.broker == refreshed(handler, broker, connection_id, now_ms)
            &&& outcome.broker.state.retained == broker.state.retained
            &&& outcome.broker.state.sessions == broker.state.sessions
            &&& outcome.broker.state.qos2_inflight == broker.state.qos2_inflight
            &&& !(outcome.step is Publish)
            &&& forall|i: int|
                0 <= i < outcome.effects.len() ==> sends_to_nobody_else(
                    #[trigger] outcome.effects[i],
                )
        }),
{
    let told = refreshed(handler, broker, connection_id, now_ms);
    assert(principal_of(told.state, connection_id) == principal_of(broker.state, connection_id));
}

/// A request that the broker may get: what a packet names is what the protocol allows, a connection
/// whose client has not been let in is not in use, and the subscriptions can be counted.
pub open spec fn request_acceptable(
    handler: HandlerView,
    broker: BrokerView,
    connection_id: u64,
    packet: PacketView,
) -> bool {
    &&& !handler.connected ==> !broker.state.clients.dom().contains(connection_id)
    &&& packet is Connect ==> broker.state.subscriptions.len() <= usize::MAX
    &&& packet matches PacketView::Subscribe(subscribe) ==> forall|i: int|
        0 <= i < subscribe.subscriptions.len() ==> request_sound(
            #[trigger] subscribe.subscriptions[i],
            first_of(subscribe.properties, subscription_identifier_in()),
        )
}

/// Every packet keeps the broker's state in order, and every change that has to be stored is
/// marked; a publication that is left to do has a topic that may be published to.
pub proof fn handling_keeps_state(
    handler: HandlerView,
    broker: BrokerView,
    connection_id: u64,
    packet: PacketView,
    now_ms: u64,
)
    requires
        state_sound(broker.state),
        request_acceptable(handler, broker, connection_id, packet),
    ensures
        kept(
            broker.state,
            handled(handler, broker, connection_id, packet, now_ms).broker.state,
            now_ms,
        ),
        handled(handler, broker, connection_id, packet, now_ms).step matches StepView::Publish(
            publish,
        ) ==> valid_topic_name(publish.topic_name),
{
    let told = if handler.connected {
        refreshed(handler, broker, connection_id, now_ms)
    } else {
        broker
    };
    follows_itself(broker.state, now_ms);
    if let Some(interval_ms) = handler.keep_alive_interval_ms {
        deadline_keeps_state(
            broker.state,
            connection_id,
            moment_after(now_ms, interval_ms),
            now_ms,
        );
    }
    assert(kept(broker.state, told.state, now_ms));
    packet_keeps_state(handler, told, connection_id, packet, now_ms);
    follows_twice(
        broker.state,
        told.state,
        packet_handled(handler, told, connection_id, packet, now_ms).broker.state,
        now_ms,
        now_ms,
    );
}

proof fn packet_keeps_state(
    handler: HandlerView,
    broker: BrokerView,
    connection_id: u64,
    packet: PacketView,
    now_ms: u64,
)
    requires
        state_sound(broker.state),
        request_acceptable(handler, broker, connection_id, packet),
    ensures
        kept(
            broker.state,
            packet_handled(handler, broker, connection_id, packet, now_ms).broker.state,
            now_ms,
        ),
        packet_handled(
            handler,
            broker,
            connection_id,
            packet,
            now_ms,
        ).step matches StepView::Publish(publish) ==> valid_topic_name(publish.topic_name),
{
    let state = broker.state;
    follows_itself(state, now_ms);
    match packet {
        PacketView::Connect(connect) => {
            connect_keeps_state(handler, broker, connection_id, connect, now_ms);
        },
        PacketView::Disconnect(_) => {
            unwatching_keeps_state(handler, broker, connection_id, now_ms);
            let calm = unwatched(handler, broker, connection_id);
            disconnecting_keeps_state(calm.state, connection_id, now_ms);
            follows_twice(
                state,
                calm.state,
                disconnected(calm.state, connection_id, now_ms),
                now_ms,
                now_ms,
            );
        },
        PacketView::Subscribe(subscribe) => {
            subscribing_keeps_state(
                state,
                broker.rules,
                broker.config,
                connection_id,
                subscribe,
                now_ms,
            );
        },
        PacketView::Unsubscribe(unsubscribe) => {
            unsubscribing_keeps_state(state, connection_id, unsubscribe.topic_filters, now_ms);
        },
        PacketView::Publish(publish) => {
            if let Some(resolved) = alias_resolved(
                handler.aliases,
                handler.alias_limit,
                publish,
            ) {
                let named = PublishView { topic_name: resolved.1, ..publish };
                if valid_topic_name(named.topic_name) {
                    publishing_keeps_state(state, broker.config, connection_id, named, now_ms);
                    if named.packet_id is Some {
                        storing_qos2_keeps_state(
                            state,
                            broker.config,
                            connection_id,
                            named.packet_id->0,
                            named,
                            now_ms,
                        );
                    }
                }
            }
        },
        PacketView::PubRel(ack) => {
            releasing_qos2_keeps_state(
                state,
                broker.config,
                connection_id,
                ack.packet_id,
                now_ms,
            );
        },
        PacketView::PubAck(ack) => {
            acknowledging_keeps_state(state, connection_id, ack.packet_id, now_ms);
        },
        PacketView::PubRec(ack) => {
            acknowledging_keeps_state(state, connection_id, ack.packet_id, now_ms);
        },
        PacketView::PubComp(ack) => {
            acknowledging_keeps_state(state, connection_id, ack.packet_id, now_ms);
        },
        _ => {},
    }
}

proof fn unwatching_keeps_state(
    handler: HandlerView,
    broker: BrokerView,
    connection_id: u64,
    now_ms: u64,
)
    requires
        state_sound(broker.state),
    ensures
        kept(broker.state, unwatched(handler, broker, connection_id).state, now_ms),
{
    follows_itself(broker.state, now_ms);
    deadline_keeps_state(broker.state, connection_id, 0, now_ms);
}

proof fn connect_keeps_state(
    handler: HandlerView,
    broker: BrokerView,
    connection_id: u64,
    packet: ConnectView,
    now_ms: u64,
)
    requires
        state_sound(broker.state),
        !handler.connected ==> !broker.state.clients.dom().contains(connection_id),
        broker.state.subscriptions.len() <= usize::MAX,
    ensures
        kept(
            broker.state,
            connect_handled(handler, broker, connection_id, packet, now_ms).broker.state,
            now_ms,
        ),
        !(connect_handled(handler, broker, connection_id, packet, now_ms).step is Publish),
{
    let state = broker.state;
    follows_itself(state, now_ms);
    if !handler.connected && connect_defect(packet) is None && !broker.shutting_down {
        if let Some(principal) = authenticated(broker.rules, packet.username, packet.password) {
            let options = options_of(packet.clean_start, packet.properties);
            let client_id = if packet.client_id.len() == 0 {
                generated_name(broker.next_generated_client_id)
            } else {
                packet.client_id
            };
            assert(client_id.len() > 0) by {
                reveal_strlit("pulse-");
            }
            connecting_keeps_state(
                state,
                connection_id,
                client_id,
                packet.will,
                principal,
                options,
                now_ms,
            );
            let joined = connecting(
                broker,
                connection_id,
                packet.client_id,
                packet.will,
                principal,
                options,
                now_ms,
            ).0;
            unwatching_keeps_state(handler, joined, connection_id, now_ms);
            let calm = unwatched(handler, joined, connection_id);
            follows_twice(state, joined.state, calm.state, now_ms, now_ms);
            let deadline_ms = moment_after(now_ms, (packet.keep_alive * 1_500) as u64);
            deadline_keeps_state(calm.state, connection_id, deadline_ms, now_ms);
            follows_twice(
                state,
                calm.state,
                with_deadline(calm.state, connection_id, deadline_ms),
                now_ms,
                now_ms,
            );
        }
    }
}

/// What is left to do after a packet keeps the broker's state in order, and every change that has
/// to be stored is marked.
pub proof fn proceeding_keeps_state(
    handler: HandlerView,
    broker: BrokerView,
    connection_id: u64,
    step: StepView,
    now_ms: u64,
)
    requires
        state_sound(broker.state),
        step matches StepView::Publish(publish) ==> valid_topic_name(publish.topic_name),
    ensures
        kept(
            broker.state,
            step_taken(handler, broker, connection_id, step, now_ms).broker.state,
            now_ms,
        ),
{
    let state = broker.state;
    follows_itself(state, now_ms);
    match step {
        StepView::Done => {},
        StepView::Publish(publish) => {
            publishing_keeps_state(state, broker.config, connection_id, publish, now_ms);
        },
        StepView::Leave { publish_will } => {
            unwatching_keeps_state(handler, broker, connection_id, now_ms);
            let calm = unwatched(handler, broker, connection_id);
            if handler.connected && calm.state.clients.dom().contains(connection_id) {
                let client = calm.state.clients[connection_id];
                disconnecting_keeps_state(calm.state, connection_id, now_ms);
                let left = disconnected(calm.state, connection_id, now_ms);
                follows_twice(state, calm.state, left, now_ms, now_ms);
                if let Some(will) = client.will {
                    publishing_will_keeps_state(
                        left,
                        broker.config,
                        connection_id,
                        will,
                        now_ms,
                    );
                    follows_twice(
                        state,
                        left,
                        will_published(left, broker.config, connection_id, will, now_ms).0,
                        now_ms,
                        now_ms,
                    );
                }
            }
        },
    }
}

/// A connection that closes keeps the broker's state in order, and every change that has to be
/// stored is marked.
pub proof fn closing_keeps_state(
    broker: BrokerView,
    connection_id: Option<u64>,
    reason: CloseReason,
    now_ms: u64,
)
    requires
        state_sound(broker.state),
    ensures
        kept(broker.state, closing(broker, connection_id, reason, now_ms).0.state, now_ms),
{
    let state = broker.state;
    follows_itself(state, now_ms);
    if let Some(id) = connection_id {
        if let Some(client) = lookup(state.clients, id) {
            disconnecting_keeps_state(state, id, now_ms);
            let left = disconnected(state, id, now_ms);
            if let Some(will) = client.will {
                publishing_will_keeps_state(left, broker.config, id, will, now_ms);
                follows_twice(
                    state,
                    left,
                    will_published(left, broker.config, id, will, now_ms).0,
                    now_ms,
                    now_ms,
                );
            }
        }
    }
}

} // verus!
