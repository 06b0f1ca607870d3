//! What becomes of a client's session and will when its connection ends.
use vstd::prelude::*;

use crate::broker::BrokerView;
use crate::broker::disconnected;
use crate::broker::publication;
use crate::broker::will_publication;
use crate::broker::will_published;
use crate::config::BrokerConfig;
use crate::connection::CloseReason;
use crate::connection::close_reason_name;
use crate::delivery::DeliveryView;
use crate::handler::EffectView;
use crate::handler::HandlerView;
use crate::handler::StepView;
use crate::handler::closing;
use crate::handler::handled;
use crate::handler::refreshed;
use crate::handler::step_taken;
use crate::handler::unwatched;
use crate::packet::DisconnectView;
use crate::packet::PacketView;
use crate::packet::PublishView;
use crate::packet::WillView;
use crate::protocol::valid_topic_name;
use crate::session::ClientEntryView;
use crate::session::SessionView;
use crate::session::StateView;
use crate::state_laws::filtered_from;
use crate::subscription::EntryView;

verus! {

/// A packet says what a will says, and comes from nobody.
pub open spec fn speaks_for(packet: PublishView, will: WillView) -> bool {
    &&& packet.topic_name == will.topic
    &&& packet.payload == will.payload
    &&& packet.qos == will.qos
    &&& packet.retain == will.retain
    &&& packet.properties == will.properties
    &&& packet.packet_id is None
    &&& !packet.dup
}

/// A client's connection has ended: the client is no longer connected, what it had begun to publish
/// is dropped, and its session goes with it if it was to last for no time, or stays for as long as
/// it was to last; the sessions of others, and what is retained, stay.
pub open spec fn connection_ended(
    before: StateView,
    after: StateView,
    connection_id: u64,
    now_ms: u64,
) -> bool {
    let client = before.clients[connection_id];
    let client_id = client.client_id;
    &&& after.clients == before.clients.remove(connection_id)
    &&& after.connections == before.connections.remove(client_id)
    &&& forall|key: (u64, u16)| #[trigger]
        after.qos2_inflight.dom().contains(key) <==> before.qos2_inflight.dom().contains(key)
            && key.0 != connection_id
    &&& forall|key: (u64, u16)| #[trigger]
        after.qos2_inflight.dom().contains(key) ==> after.qos2_inflight[key]
            == before.qos2_inflight[key]
    &&& after.retained == before.retained
    &&& after.cursors == before.cursors
    &&& forall|other: Seq<char>|
        other != client_id ==> (#[trigger] after.sessions.dom().contains(other)
            <==> before.sessions.dom().contains(other))
    &&& forall|other: Seq<char>|
        other != client_id && #[trigger] after.sessions.dom().contains(other)
            ==> after.sessions[other] == before.sessions[other]
    &&& client.session_expiry_interval == 0 ==> {
        &&& !after.sessions.dom().contains(client_id)
        &&& forall|entry: EntryView| #[trigger]
            after.subscriptions.contains(entry) <==> before.subscriptions.contains(entry)
                && entry.client_id != client_id
    }
    &&& client.session_expiry_interval != 0 ==> {
        let session = after.sessions[client_id];
        &&& after.subscriptions == before.subscriptions
        &&& after.sessions.dom().contains(client_id)
        &&& session.session_expiry_interval == client.session_expiry_interval
        &&& session.expires_at_ms == (if client.session_expiry_interval == u32::MAX {
            None
        } else if now_ms + client.session_expiry_interval * 1000 > u64::MAX {
            Some(u64::MAX)
        } else {
            Some((now_ms + client.session_expiry_interval * 1000) as u64)
        })
        &&& before.sessions.dom().contains(client_id) ==> session == (SessionView {
            expires_at_ms: session.expires_at_ms,
            session_expiry_interval: session.session_expiry_interval,
            ..before.sessions[client_id]
        })
        &&& !before.sessions.dom().contains(client_id) ==> {
            &&& session.outbound_qos1.dom() == Set::<u16>::empty()
            &&& session.outbound_qos2_publish.dom() == Set::<u16>::empty()
            &&& session.outbound_qos2_pubrel == Set::<u16>::empty()
            &&& session.offline_queue.len() == 0
            &&& session.next_packet_id == 1
            &&& session.next_offline_sequence == 0
        }
    }
}

/// Where a connection ends, the client is gone and its session stays for as long as it was to last.
pub proof fn connection_ends(state: StateView, connection_id: u64, now_ms: u64)
    ensures
        !state.clients.dom().contains(connection_id) ==> disconnected(
            state,
            connection_id,
            now_ms,
        ) == state,
        state.clients.dom().contains(connection_id) ==> connection_ended(
            state,
            disconnected(state, connection_id, now_ms),
            connection_id,
            now_ms,
        ),
{
    if state.clients.dom().contains(connection_id) {
        let after = disconnected(state, connection_id, now_ms);
        let client_id = state.clients[connection_id].client_id;
        let keep = |entry: EntryView| entry.client_id != client_id;
        if state.clients[connection_id].session_expiry_interval == 0 {
            assert forall|entry: EntryView| #[trigger] after.subscriptions.contains(entry)
                <==> state.subscriptions.contains(entry) && entry.client_id != client_id by {
                if after.subscriptions.contains(entry) {
                    let i = choose|i: int|
                        0 <= i < after.subscriptions.len() && after.subscriptions[i] == entry;
                    filtered_from(state.subscriptions, keep, i);
                }
                if state.subscriptions.contains(entry) && entry.client_id != client_id {
                    let i = choose|i: int|
                        0 <= i < state.subscriptions.len() && state.subscriptions[i] == entry;
                    state.subscriptions.lemma_filter_contains(keep, i);
                }
            }
        }
    }
}

/// A will is published as any packet that says what it says: with its topic, payload, quality of
/// service, retain flag and properties.
pub proof fn will_is_a_publication(
    state: StateView,
    config: BrokerConfig,
    connection_id: u64,
    will: WillView,
    packet: PublishView,
    now_ms: u64,
)
    requires
        speaks_for(packet, will),
    ensures
        will_published(state, config, connection_id, will, now_ms) == (
        if valid_topic_name(will.topic) {
            publication(state, config, connection_id, packet, now_ms)
        } else {
            (state, Seq::<DeliveryView>::empty())
        }),
{
    assert(packet == will_publication(will));
}

/// Where a connection breaks and was not closed from here, the will of its client is published: the
/// state is then that of publishing a packet that says what the will says, from the state in which
/// the client's connection has ended, and what that publication sends is among the effects.
pub proof fn broken_connection_publishes_will(
    broker: BrokerView,
    connection_id: u64,
    reason: CloseReason,
    now_ms: u64,
    packet: PublishView,
)
    requires
        broker.state.clients.dom().contains(connection_id),
        broker.state.clients[connection_id].will matches Some(will) && valid_topic_name(will.topic)
            && speaks_for(packet, will),
        reason != CloseReason::HandlerClosed,
        reason != CloseReason::LocalClosed,
        reason != CloseReason::ServerShutdown,
    ensures
        ({
            let ended = disconnected(broker.state, connection_id, now_ms);
            let outcome = publication(ended, broker.config, connection_id, packet, now_ms);
            let (after, effects) = closing(broker, Some(connection_id), reason, now_ms);
            &&& connection_ended(broker.state, ended, connection_id, now_ms)
            &&& after == (BrokerView { state: outcome.0, ..broker })
            &&& effects.contains(EffectView::Deliver(outcome.1))
        }),
{
    let will = broker.state.clients[connection_id].will->0;
    let ended = disconnected(broker.state, connection_id, now_ms);
    connection_ends(broker.state, connection_id, now_ms);
    will_is_a_publication(ended, broker.config, connection_id, will, packet, now_ms);
    let effects = closing(broker, Some(connection_id), reason, now_ms).1;
    let outcome = publication(ended, broker.config, connection_id, packet, now_ms);
    assert(effects.last() == EffectView::Deliver(outcome.1));
    assert(effects[effects.len() - 1] == EffectView::Deliver(outcome.1));
}

/// Where a connection was closed from here, or its client has no will, nothing is published: the
/// connection has ended, and nothing is sent.
pub proof fn closed_connection_publishes_nothing(
    broker: BrokerView,
    connection_id: u64,
    reason: CloseReason,
    now_ms: u64,
)
    requires
        broker.state.clients.dom().contains(connection_id),
        broker.state.clients[connection_id].will is None || reason == CloseReason::HandlerClosed
            || reason == CloseReason::LocalClosed || reason == CloseReason::ServerShutdown,
    ensures
        ({
            let (after, effects) = closing(broker, Some(connection_id), reason, now_ms);
            &&& connection_ended(broker.state, after.state, connection_id, now_ms)
            &&& after == (BrokerView { state: after.state, ..broker })
            &&& forall|i: int| 0 <= i < effects.len() ==> !((#[trigger] effects[i]) is Deliver)
        }),
{
    connection_ends(broker.state, connection_id, now_ms);
}

/// Where a connection without a client ends, nothing changes and nothing is sent.
pub proof fn unknown_connection_changes_nothing(
    broker: BrokerView,
    connection_id: Option<u64>,
    reason: CloseReason,
    now_ms: u64,
)
    requires
        connection_id matches Some(id) ==> !broker.state.clients.dom().contains(id),
    ensures
        ({
            let (after, effects) = closing(broker, connection_id, reason, now_ms);
            &&& after == broker
            &&& forall|i: int|
                0 <= i < effects.len() ==> (#[trigger] effects[i]) is PacketParseError
        }),
{
}

/// A connection that ends is counted once, under the name of its reason; bytes that are no packet
/// are counted too.
pub proof fn closing_is_counted(
    broker: BrokerView,
    connection_id: Option<u64>,
    reason: CloseReason,
    now_ms: u64,
)
    ensures
        ({
            let effects = closing(broker, connection_id, reason, now_ms).1;
            let name = close_reason_name(reason);
            &&& reason == CloseReason::DecodeError || reason == CloseReason::FrameTooLarge
                <==> effects.contains(EffectView::PacketParseError(name))
            &&& (connection_id matches Some(id) && broker.state.clients.dom().contains(id))
                <==> effects.contains(EffectView::ConnectionClosed(name))
        }),
{
    let effects = closing(broker, connection_id, reason, now_ms).1;
    let name = close_reason_name(reason);
    if reason == CloseReason::DecodeError || reason == CloseReason::FrameTooLarge {
        assert(effects[0] == EffectView::PacketParseError(name));
    }
    if connection_id matches Some(id) && broker.state.clients.dom().contains(id) {
        let at = if reason == CloseReason::DecodeError || reason == CloseReason::FrameTooLarge {
            1int
        } else {
            0
        };
        assert(effects[at] == EffectView::ConnectionClosed(name));
    }
}

/// No two reasons for closing a connection have one name.
pub proof fn closing_names_differ(first: CloseReason, second: CloseReason)
    ensures
        close_reason_name(first) == close_reason_name(second) <==> first == second,
{
    reveal_strlit("handler_closed");
    reveal_strlit("local_closed");
    reveal_strlit("peer_closed");
    reveal_strlit("channel_closed");
    reveal_strlit("server_shutdown");
    reveal_strlit("idle_timeout");
    reveal_strlit("io_error");
    reveal_strlit("decode_error");
    reveal_strlit("encode_error");
    reveal_strlit("frame_too_large");
    reveal_strlit("handler_error");
    if close_reason_name(first) == close_reason_name(second) {
        assert(close_reason_name(first).len() == close_reason_name(second).len());
        assert(close_reason_name(first)[0] == close_reason_name(second)[0]);
        assert(close_reason_name(first)[8] == close_reason_name(second)[8]);
    }
}

/// Where the broker lets a client go that broke the rules, and its will is to be published, the
/// state is that of publishing what the will says, from the state in which the client's connection
/// has ended; what that sends is among the effects, and the connection is closed last.
pub proof fn dismissed_client_has_its_will_published(
    handler: HandlerView,
    broker: BrokerView,
    connection_id: u64,
    now_ms: u64,
    packet: PublishView,
)
    requires
        handler.connected,
        broker.state.clients.dom().contains(connection_id),
        broker.state.clients[connection_id].will matches Some(will) && valid_topic_name(will.topic)
            && speaks_for(packet, will),
    ensures
        ({
            let outcome = step_taken(
                handler,
                broker,
                connection_id,
                StepView::Leave { publish_will: true },
                now_ms,
            );
            let calm = unwatched(handler, broker, connection_id).state;
            let ended = disconnected(calm, connection_id, now_ms);
            let spread = publication(ended, broker.config, connection_id, packet, now_ms);
            &&& connection_ended(calm, ended, connection_id, now_ms)
            &&& outcome.broker == (BrokerView { state: spread.0, ..broker })
            &&& outcome.effects.contains(EffectView::Deliver(spread.1))
            &&& outcome.effects.last() == EffectView::Close
            &&& !outcome.handler.connected
            &&& outcome.handler.keep_alive_interval_ms is None
        }),
{
    let calm = unwatched(handler, broker, connection_id).state;
    let ended = disconnected(calm, connection_id, now_ms);
    let will = broker.state.clients[connection_id].will->0;
    connection_ends(calm, connection_id, now_ms);
    will_is_a_publication(ended, broker.config, connection_id, will, packet, now_ms);
    let outcome = step_taken(
        handler,
        broker,
        connection_id,
        StepView::Leave { publish_will: true },
        now_ms,
    );
    let spread = publication(ended, broker.config, connection_id, packet, now_ms);
    assert(outcome.effects[2] == EffectView::Deliver(spread.1));
}

/// Where its will is not to be published, or it has none, nothing is published.
pub proof fn dismissed_client_without_will_is_silent(
    handler: HandlerView,
    broker: BrokerView,
    connection_id: u64,
    publish_will: bool,
    now_ms: u64,
)
    requires
        handler.connected,
        broker.state.clients.dom().contains(connection_id),
        !publish_will || broker.state.clients[connection_id].will is None,
    ensures
        ({
            let outcome = step_taken(
                handler,
                broker,
                connection_id,
                StepView::Leave { publish_will },
                now_ms,
            );
            let calm = unwatched(handler, broker, connection_id).state;
            &&& connection_ended(calm, outcome.broker.state, connection_id, now_ms)
            &&& forall|i: int|
                0 <= i < outcome.effects.len() ==> !((#[trigger] outcome.effects[i]) is Deliver)
            &&& outcome.effects.last() == EffectView::Close
            &&& !outcome.handler.connected
        }),
{
    connection_ends(unwatched(handler, broker, connection_id).state, connection_id, now_ms);
}

/// Before a connection ends, its client is no longer watched for silence; nothing else changes.
pub proof fn departing_client_is_not_watched(
    handler: HandlerView,
    broker: BrokerView,
    connection_id: u64,
)
    requires
        broker.state.clients.dom().contains(connection_id),
    ensures
        ({
            let calm = unwatched(handler, broker, connection_id);
            let before = broker.state.clients[connection_id];
            let after = calm.state.clients[connection_id];
            &&& calm.state.clients.dom() == broker.state.clients.dom()
            &&& calm == (BrokerView {
                state: StateView { clients: calm.state.clients, ..broker.state },
                ..broker
            })
            &&& after == (ClientEntryView {
                keep_alive_deadline_ms: after.keep_alive_deadline_ms,
                ..before
            })
            &&& handler.keep_alive_interval_ms is Some ==> after.keep_alive_deadline_ms == 0
            &&& handler.keep_alive_interval_ms is None ==> after == before
            &&& forall|other: u64| #[trigger]
                broker.state.clients.dom().contains(other) && other != connection_id
                    ==> calm.state.clients[other] == broker.state.clients[other]
        }),
{
    let calm = unwatched(handler, broker, connection_id);
    assert(calm.state.clients.dom() =~= broker.state.clients.dom());
}

/// A client that takes its leave is gone, its will is not published, and its connection is closed.
pub proof fn leave_taking_publishes_nothing(
    handler: HandlerView,
    broker: BrokerView,
    connection_id: u64,
    packet: DisconnectView,
    now_ms: u64,
)
    requires
        handler.connected,
        broker.state.clients.dom().contains(connection_id),
    ensures
        ({
            let outcome = handled(
                handler,
                broker,
                connection_id,
                PacketView::Disconnect(packet),
                now_ms,
            );
            let effects = outcome.effects;
            let calm = unwatched(
                handler,
                refreshed(handler, broker, connection_id, now_ms),
                connection_id,
            ).state;
            &&& connection_ended(calm, outcome.broker.state, connection_id, now_ms)
            &&& outcome.broker == (BrokerView { state: outcome.broker.state, ..broker })
            &&& !outcome.handler.connected
            &&& outcome.step is Done
            &&& effects.last() == EffectView::Close
            &&& forall|i: int|
                0 <= i < effects.len() ==> !((#[trigger] effects[i]) is Deliver)
                    && !(effects[i] is WriteAndFlush)
        }),
{
    let calm = unwatched(
        handler,
        refreshed(handler, broker, connection_id, now_ms),
        connection_id,
    ).state;
    connection_ends(calm, connection_id, now_ms);
}

/// One that is let go before it was let in, or that is not known, leaves nothing behind but its
/// connection, which is closed. One that is known is counted as dismissed, and its connection is
/// forgotten.
pub proof fn dismissal_closes_the_connection(
    handler: HandlerView,
    broker: BrokerView,
    connection_id: u64,
    publish_will: bool,
    now_ms: u64,
)
    ensures
        ({
            let outcome = step_taken(
                handler,
                broker,
                connection_id,
                StepView::Leave { publish_will },
                now_ms,
            );
            let effects = outcome.effects;
            let known = broker.state.clients.dom().contains(connection_id);
            &&& outcome.step is Done
            &&& outcome.handler.keep_alive_interval_ms is None
            &&& effects[0] == EffectView::StopRetransmit
            &&& effects.last() == EffectView::Close
            &&& !outcome.handler.connected
            &&& effects.contains(EffectView::ForgetConnection) <==> handler.connected
            &&& effects.contains(EffectView::ConnectionClosed("broker_disconnect"@))
                <==> handler.connected && known
            &&& !handler.connected || !known ==> {
                &&& outcome.broker == unwatched(handler, broker, connection_id)
                &&& forall|i: int| 0 <= i < effects.len() ==> !((#[trigger] effects[i]) is Deliver)
            }
            &&& handler.connected && known ==> outcome.handler.client_id == Some(
                broker.state.clients[connection_id].client_id,
            )
        }),
{
    let outcome = step_taken(
        handler,
        broker,
        connection_id,
        StepView::Leave { publish_will },
        now_ms,
    );
    let effects = outcome.effects;
    if handler.connected {
        assert(effects[effects.len() - 2] == EffectView::ForgetConnection);
        if broker.state.clients.dom().contains(connection_id) {
            assert(effects[1] == EffectView::ConnectionClosed("broker_disconnect"@));
        }
    }
}

/// A client that takes its leave is counted as having done so.
pub proof fn leave_taking_is_counted(
    handler: HandlerView,
    broker: BrokerView,
    connection_id: u64,
    packet: DisconnectView,
    now_ms: u64,
)
    requires
        handler.connected,
    ensures
        ({
            let effects = handled(
                handler,
                broker,
                connection_id,
                PacketView::Disconnect(packet),
                now_ms,
            ).effects;
            &&& effects[0] == EffectView::StopRetransmit
            &&& effects.contains(EffectView::ForgetConnection)
            &&& effects.contains(EffectView::ConnectionClosed("client_disconnect"@))
                <==> broker.state.clients.dom().contains(connection_id)
        }),
{
    let effects = handled(
        handler,
        broker,
        connection_id,
        PacketView::Disconnect(packet),
        now_ms,
    ).effects;
    assert(effects[effects.len() - 2] == EffectView::ForgetConnection);
    if broker.state.clients.dom().contains(connection_id) {
        assert(effects[1] == EffectView::ConnectionClosed("client_disconnect"@));
    }
}

} // verus!
