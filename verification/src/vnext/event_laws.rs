//! What each event of the log does to what is recovered from it.
use vstd::prelude::*;

use crate::vnext::broker_core::hash_of;
use crate::vnext::broker_core::upsert_event;
use crate::vnext::durable_log::EventView;
use crate::vnext::durable_log::InflightDirection;
use crate::vnext::durable_log::event_bytes;
use crate::vnext::durable_state::DurableView;
use crate::vnext::durable_state::RecoveredSession;
use crate::vnext::durable_state::all_happened;
use crate::vnext::durable_state::happened;
use crate::vnext::routing::RouteView;
use crate::vnext::session_table::ActorView;
use crate::vnext::session_table::connected_actor;
use crate::vnext::session_table::recovered_actor;

verus! {

/// One map is another but for a key.
pub open spec fn same_but<A, B>(before: Map<A, B>, after: Map<A, B>, key: A) -> bool {
    forall|other: A|
        other != key ==> (#[trigger] after.dom().contains(other) <==> before.dom().contains(other))
            && (before.dom().contains(other) ==> after[other] == before[other])
}

/// A session that is logged is known as it was logged, until it is logged again.
pub proof fn logged_session_is_known(
    state: DurableView,
    client_id: Seq<char>,
    session_expiry_interval: u32,
    expires_at_ms: Option<u64>,
    next_packet_id: u16,
)
    ensures
        ({
            let after = happened(
                state,
                EventView::SessionUpsert {
                    client_id,
                    session_expiry_interval,
                    expires_at_ms,
                    next_packet_id,
                },
            );
            let session = after.sessions[client_id];
            &&& after.sessions.dom().contains(client_id)
            &&& session.session_expiry_interval == session_expiry_interval
            &&& session.expires_at_ms == expires_at_ms
            &&& session.next_packet_id == next_packet_id
            &&& same_but(state.sessions, after.sessions, client_id)
            &&& after == (DurableView { sessions: after.sessions, ..state })
        }),
{
}

/// A subscription that is logged is known as it was logged, until it is logged as gone.
pub proof fn logged_subscription_is_known(
    state: DurableView,
    route: RouteView,
)
    ensures
        ({
            let key = (route.client_id, route.filter);
            let put = happened(state, upsert_event(route));
            let gone = happened(
                state,
                EventView::SubscriptionDelete {
                    client_id: route.client_id,
                    filter: route.filter,
                },
            );
            &&& put.subscriptions.dom().contains(key)
            &&& put.subscriptions[key] == route
            &&& same_but(state.subscriptions, put.subscriptions, key)
            &&& put == (DurableView { subscriptions: put.subscriptions, ..state })
            &&& !gone.subscriptions.dom().contains(key)
            &&& same_but(state.subscriptions, gone.subscriptions, key)
            &&& gone == (DurableView { subscriptions: gone.subscriptions, ..state })
        }),
{
}

/// A retained message that is logged is known as it was logged, until it is logged as gone.
pub proof fn logged_message_is_known(
    state: DurableView,
    topic_name: Seq<char>,
    qos: u8,
    payload_len: u32,
    expires_at_ms: Option<u64>,
)
    ensures
        ({
            let put = happened(
                state,
                EventView::RetainUpsert { topic_name, qos, payload_len, expires_at_ms },
            );
            let gone = happened(state, EventView::RetainDelete { topic_name });
            &&& put.retained.dom().contains(topic_name)
            &&& put.retained[topic_name].qos == qos
            &&& put.retained[topic_name].payload_len == payload_len
            &&& put.retained[topic_name].expires_at_ms == expires_at_ms
            &&& same_but(state.retained, put.retained, topic_name)
            &&& put == (DurableView { retained: put.retained, ..state })
            &&& !gone.retained.dom().contains(topic_name)
            &&& same_but(state.retained, gone.retained, topic_name)
            &&& gone == (DurableView { retained: gone.retained, ..state })
        }),
{
}

/// What is logged as waiting waits until it is logged as acknowledged.
pub proof fn logged_queue_is_known(
    state: DurableView,
    client_id: Seq<char>,
    sequence: u64,
    packet_id: Option<u16>,
    payload_len: u32,
    expires_at_ms: Option<u64>,
)
    ensures
        ({
            let put = happened(
                state,
                EventView::OfflineEnqueue {
                    client_id,
                    sequence,
                    packet_id,
                    payload_len,
                    expires_at_ms,
                },
            );
            let gone = happened(state, EventView::OfflineAck { client_id, sequence });
            &&& forall|key: (Seq<char>, u64)| #[trigger]
                put.offline.contains(key) <==> state.offline.contains(key) || key == (
                    client_id,
                    sequence,
                )
            &&& put == (DurableView { offline: put.offline, ..state })
            &&& forall|key: (Seq<char>, u64)| #[trigger]
                gone.offline.contains(key) <==> state.offline.contains(key) && key != (
                    client_id,
                    sequence,
                )
            &&& gone == (DurableView { offline: gone.offline, ..state })
        }),
{
}

/// What is logged as in flight, in one direction, is so until it is logged as acknowledged in that
/// direction.
pub proof fn logged_flight_is_known(
    state: DurableView,
    client_id: Seq<char>,
    packet_id: u16,
    qos: u8,
    direction: InflightDirection,
    expires_at_ms: Option<u64>,
)
    ensures
        ({
            let key = ((client_id, packet_id), direction);
            let put = happened(
                state,
                EventView::InflightUpsert { client_id, packet_id, qos, direction, expires_at_ms },
            );
            let gone = happened(
                state,
                EventView::InflightAck { client_id, packet_id, direction },
            );
            &&& put.inflight.dom().contains(key)
            &&& put.inflight[key].qos == qos
            &&& put.inflight[key].expires_at_ms == expires_at_ms
            &&& same_but(state.inflight, put.inflight, key)
            &&& put == (DurableView { inflight: put.inflight, ..state })
            &&& !gone.inflight.dom().contains(key)
            &&& same_but(state.inflight, gone.inflight, key)
            &&& gone == (DurableView { inflight: gone.inflight, ..state })
        }),
{
}

/// Events happen one after the other.
pub proof fn events_happen_in_order(state: DurableView, events: Seq<EventView>, last: EventView)
    ensures
        all_happened(state, Seq::empty()) == state,
        all_happened(state, events.push(last)) == happened(all_happened(state, events), last),
{
    assert(events.push(last).drop_last() =~= events);
}

/// An event is logged under the number of its kind, behind that of its version.
pub proof fn kinds_are_numbered(event: EventView)
    ensures
        event_bytes(event).len() >= 2,
        event_bytes(event)[0] == 1,
        event_bytes(event)[1] == match event {
            EventView::SessionUpsert { .. } => 1u8,
            EventView::SubscriptionUpsert { .. } => 2,
            EventView::SubscriptionDelete { .. } => 3,
            EventView::RetainUpsert { .. } => 4,
            EventView::RetainDelete { .. } => 5,
            EventView::OfflineEnqueue { .. } => 6,
            EventView::OfflineAck { .. } => 7,
            EventView::InflightUpsert { .. } => 8,
            EventView::InflightAck { .. } => 9,
        },
{
}

/// The hash of some bytes starts from its basis; each byte is mixed in and spread by the prime.
pub proof fn bytes_are_mixed_in(bytes: Seq<u8>, last: u8)
    ensures
        hash_of(Seq::empty()) == 0xcbf2_9ce4_8422_2325,
        hash_of(bytes.push(last)) == vstd::wrapping::u64_specs::wrapping_mul(
            hash_of(bytes) ^ (last as u64),
            0x0000_0100_0000_01b3,
        ),
{
    assert(bytes.push(last).drop_last() =~= bytes);
}

/// A session that is recovered is not connected, and lasts as long and counts on from where the log
/// says. One that connects is, on its shard and for as long as it says; what it had it keeps, and a
/// new one starts with nothing.
pub proof fn sessions_connect(
    client_id: Seq<char>,
    logged: RecoveredSession,
    known: Option<ActorView>,
    shard_id: usize,
    session_expiry_interval: u32,
)
    ensures
        ({
            let recovered = recovered_actor(client_id, logged);
            let after = connected_actor(known, client_id, shard_id, session_expiry_interval);
            &&& recovered.client_id == client_id
            &&& !recovered.connected
            &&& recovered.session_expiry_interval == logged.session_expiry_interval
            &&& recovered.expires_at_ms == logged.expires_at_ms
            &&& recovered.next_packet_id == logged.next_packet_id
            &&& recovered.outbound_queue_len == 0
            &&& recovered.inflight_len == 0
            &&& recovered.shard_id == 0
            &&& after.connected
            &&& after.shard_id == shard_id
            &&& after.session_expiry_interval == session_expiry_interval
            &&& after.expires_at_ms is None
            &&& known matches Some(session) ==> {
                &&& after.client_id == session.client_id
                &&& after.next_packet_id == session.next_packet_id
                &&& after.outbound_queue_len == session.outbound_queue_len
                &&& after.inflight_len == session.inflight_len
            }
            &&& known is None ==> {
                &&& after.client_id == client_id
                &&& after.next_packet_id == 1
                &&& after.outbound_queue_len == 0
                &&& after.inflight_len == 0
            }
        }),
{
}

} // verus!
