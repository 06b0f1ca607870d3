//! What acknowledgements take out of a session, and what is kept until it is released.
use vstd::prelude::*;

use crate::broker::acknowledged_qos1;
use crate::broker::completed_qos2;
use crate::broker::finished_qos2;
use crate::broker::publication;
use crate::broker::received_qos2;
use crate::broker::stored_qos2;
use crate::broker::waiting_count;
use crate::config::BrokerConfig;
use crate::copy_laws::first_free;
use crate::copy_laws::first_free_identifier_is_found;
use crate::copy_laws::put_in_flight;
use crate::copy_laws::small_enough;
use crate::copy_laws::taken;
use crate::delivery::DeliveryView;
use crate::entrance_laws::session_lives;
use crate::inflight::advanced;
use crate::inflight::flushed;
use crate::inflight::free_id;
use crate::inflight::with_outbound;
use crate::message::PendingView;
use crate::message::expiry_of;
use crate::ordered_map::OrderedKey;
use crate::ordered_map::ascending;
use crate::ordered_map::entries_of;
use crate::ordered_map::listed;
use crate::ordered_map::map_of;
use crate::ordered_map::map_of_entry;
use crate::ordered_map::map_of_remove;
use crate::packet::PublishView;
use crate::packet::QoS;
use crate::publication_laws::sent_to;
use crate::publication_laws::within_reach;
use crate::routing::queue_sent;
use crate::session::SessionView;
use crate::session::StateView;

verus! {

/// The publications of a connection that wait to be released, by their keys.
pub open spec fn waiting_of(state: StateView, connection_id: u64) -> Set<(u64, u16)> {
    state.qos2_inflight.dom().filter(|key: (u64, u16)| key.0 == connection_id)
}

proof fn waiting_counted(entries: Seq<((u64, u16), PendingView)>, connection_id: u64)
    requires
        ascending::<(u64, u16), PendingView>(entries),
    ensures
        map_of(entries).dom().filter(|key: (u64, u16)| key.0 == connection_id).finite(),
        waiting_count(entries, connection_id) == map_of(entries).dom().filter(
            |key: (u64, u16)| key.0 == connection_id,
        ).len(),
    decreases entries.len(),
{
    let own = |key: (u64, u16)| key.0 == connection_id;
    if entries.len() == 0 {
        assert(map_of(entries).dom().filter(own) =~= Set::empty());
    } else {
        let last = entries.len() - 1;
        let front = entries.drop_last();
        let key = entries[last].0;
        assert(front =~= entries.remove(last));
        map_of_remove::<(u64, u16), PendingView>(entries, last);
        map_of_entry::<(u64, u16), PendingView>(entries, last);
        assert forall|i: int, j: int|
            #![trigger front[i], front[j]]
            0 <= i < j < front.len() implies <(u64, u16) as OrderedKey>::before(
            front[i].0,
            front[j].0,
        ) by {
            assert(front[i] == entries[i] && front[j] == entries[j]);
        }
        waiting_counted(front, connection_id);
        let before = map_of(front).dom().filter(own);
        let after = map_of(entries).dom().filter(own);
        assert(!map_of(front).dom().contains(key));
        if key.0 == connection_id {
            assert(after =~= before.insert(key));
        } else {
            assert(after =~= before);
        }
    }
}

/// A QoS 2 publication is kept until it is released, once; while as many of its connection wait as
/// the broker takes, it is refused. Nothing else changes.
pub proof fn publication_waits_to_be_released(
    state: StateView,
    config: BrokerConfig,
    connection_id: u64,
    packet_id: u16,
    packet: PublishView,
    now_ms: u64,
)
    requires
        listed::<(u64, u16), PendingView>(state.qos2_inflight),
    ensures
        ({
            let key = (connection_id, packet_id);
            let (after, code) = stored_qos2(
                state,
                config,
                connection_id,
                packet_id,
                packet,
                now_ms,
            );
            let full = waiting_of(state, connection_id).len() >= config.server_receive_maximum;
            &&& state.qos2_inflight.dom().contains(key) ==> after == state && code == 0
            &&& !state.qos2_inflight.dom().contains(key) && full ==> after == state && code
                == 0x93
            &&& !state.qos2_inflight.dom().contains(key) && !full ==> {
                &&& code == 0
                &&& after == (StateView { qos2_inflight: after.qos2_inflight, ..state })
                &&& after.qos2_inflight == state.qos2_inflight.insert(
                    key,
                    after.qos2_inflight[key],
                )
                &&& after.qos2_inflight[key].packet == packet
                &&& after.qos2_inflight[key].expires_at_ms == expiry_of(
                    packet.properties,
                    now_ms,
                )
            }
        }),
{
    let entries = entries_of::<(u64, u16), PendingView>(state.qos2_inflight);
    waiting_counted(entries, connection_id);
    assert(map_of(entries).dom().filter(|key: (u64, u16)| key.0 == connection_id) =~= waiting_of(
        state,
        connection_id,
    ));
}

/// What is released is what was kept: it is published as it came, unless it has expired meanwhile,
/// and it is kept no longer; what was not kept cannot be released.
pub proof fn released_is_what_was_kept(
    state: StateView,
    config: BrokerConfig,
    connection_id: u64,
    packet_id: u16,
    now_ms: u64,
)
    ensures
        ({
            let key = (connection_id, packet_id);
            let (after, sent) = completed_qos2(
                state,
                config,
                connection_id,
                packet_id,
                now_ms,
            );
            let kept = state.qos2_inflight[key];
            let rest = StateView { qos2_inflight: state.qos2_inflight.remove(key), ..state };
            let late = kept.expires_at_ms matches Some(at) && at <= now_ms;
            let spread = publication(rest, config, connection_id, kept.packet, now_ms);
            &&& !state.qos2_inflight.dom().contains(key) ==> after == state && sent is None
            &&& state.qos2_inflight.dom().contains(key) && late ==> sent == Some(
                Seq::<DeliveryView>::empty(),
            ) && after == (StateView {
                sessions: after.sessions,
                subscriptions: after.subscriptions,
                client_changes: after.client_changes,
                ..rest
            }) && forall|client_id: Seq<char>| #[trigger]
                after.sessions.dom().contains(client_id) <==> session_lives(rest, client_id, now_ms)
            &&& state.qos2_inflight.dom().contains(key) && !late ==> after == spread.0 && sent
                == Some(spread.1)
        }),
{
}

/// The session of a connection's client.
pub open spec fn has_session(state: StateView, connection_id: u64) -> bool {
    state.clients.dom().contains(connection_id) && state.sessions.dom().contains(
        state.clients[connection_id].client_id,
    )
}

/// The state with another session for a connection's client.
pub open spec fn session_replaced(
    state: StateView,
    connection_id: u64,
    session: SessionView,
) -> StateView {
    StateView {
        sessions: state.sessions.insert(state.clients[connection_id].client_id, session),
        ..state
    }
}

/// An acknowledgement takes out of flight just what it acknowledges, and then what waits goes out;
/// one for what is not in flight is refused and changes nothing.
pub proof fn acknowledgement_takes_its_own(
    state: StateView,
    connection_id: u64,
    packet_id: u16,
    now_ms: u64,
)
    ensures
        ({
            let (after, sent) = acknowledged_qos1(state, connection_id, packet_id, now_ms);
            let client_id = state.clients[connection_id].client_id;
            let session = state.sessions[client_id];
            if has_session(state, connection_id) && session.outbound_qos1.dom().contains(
                packet_id,
            ) {
                let less = session_replaced(
                    state,
                    connection_id,
                    SessionView {
                        outbound_qos1: session.outbound_qos1.remove(packet_id),
                        ..session
                    },
                );
                let next = queue_sent(less, client_id, now_ms);
                after == next.0 && sent == Some(next.1)
            } else {
                after == state && sent is None
            }
        }),
{
}

/// A receipt takes out of flight just what it confirms, which then waits to be completed, and then
/// what waits goes out; one for what is not in flight is refused and changes nothing.
pub proof fn receipt_takes_its_own(
    state: StateView,
    connection_id: u64,
    packet_id: u16,
    now_ms: u64,
)
    ensures
        ({
            let (after, sent) = received_qos2(state, connection_id, packet_id, now_ms);
            let client_id = state.clients[connection_id].client_id;
            let session = state.sessions[client_id];
            if has_session(state, connection_id) && session.outbound_qos2_publish.dom().contains(
                packet_id,
            ) {
                let less = session_replaced(
                    state,
                    connection_id,
                    SessionView {
                        outbound_qos2_publish: session.outbound_qos2_publish.remove(packet_id),
                        outbound_qos2_pubrel: session.outbound_qos2_pubrel.insert(packet_id),
                        ..session
                    },
                );
                let next = queue_sent(less, client_id, now_ms);
                after == next.0 && sent == Some(next.1)
            } else {
                after == state && sent is None
            }
        }),
{
}

/// A completion ends just what it completes; one for what does not wait to be completed is refused
/// and changes nothing.
pub proof fn completion_ends_its_own(state: StateView, connection_id: u64, packet_id: u16)
    ensures
        ({
            let (after, done) = finished_qos2(state, connection_id, packet_id);
            let client_id = state.clients[connection_id].client_id;
            let session = state.sessions[client_id];
            &&& done <==> has_session(state, connection_id)
                && session.outbound_qos2_pubrel.contains(packet_id)
            &&& !done ==> after == state
            &&& done ==> {
                let less = session_replaced(
                    state,
                    connection_id,
                    SessionView {
                        outbound_qos2_pubrel: session.outbound_qos2_pubrel.remove(packet_id),
                        ..session
                    },
                );
                after == (StateView { client_changes: after.client_changes, ..less })
            }
        }),
{
}

/// What waits for a client goes out to its connection, and to no other; only that client's session
/// changes.
pub proof fn queue_goes_to_its_client(
    state: StateView,
    client_id: Seq<char>,
    now_ms: u64,
)
    ensures
        ({
            let (after, sent) = queue_sent(state, client_id, now_ms);
            &&& within_reach(state, client_id) ==> {
                let connection_id = state.connections[client_id];
                let client = state.clients[connection_id];
                let drawn = flushed(
                    state.sessions[client_id],
                    client.receive_maximum,
                    client.maximum_packet_size,
                    now_ms,
                    Seq::empty(),
                );
                &&& sent.len() == drawn.1.len()
                &&& forall|i: int|
                    0 <= i < sent.len() ==> #[trigger] sent[i] == sent_to(
                        connection_id,
                        drawn.1[i],
                    )
                &&& after == (StateView {
                    sessions: state.sessions.insert(client_id, drawn.0),
                    client_changes: after.client_changes,
                    ..state
                })
            }
            &&& !within_reach(state, client_id) ==> after == state && sent.len() == 0
        }),
{
}

/// Where a client takes no more, or nothing waits for it, nothing is sent. Else what waits longest
/// is taken from the queue: it is dropped if it has expired; it is sent as it was kept, under the
/// first free identifier if it is to be acknowledged, in which case it is then in flight; or it is
/// dropped if it is too large for the client. The rest follows. Where no identifier is free it
/// stays.
pub proof fn queue_is_drawn_one_by_one(
    session: SessionView,
    receive_maximum: u16,
    limit: u32,
    now_ms: u64,
    sent: Seq<PublishView>,
)
    requires
        session.next_packet_id != 0,
    ensures
        ({
            let outcome = flushed(session, receive_maximum, limit, now_ms, sent);
            let first = session.offline_queue[0].pending;
            let rest = SessionView {
                offline_queue: session.offline_queue.subrange(
                    1,
                    session.offline_queue.len() as int,
                ),
                ..session
            };
            let held = session.outbound_qos1.dom().len()
                + session.outbound_qos2_publish.dom().len();
            if session.offline_queue.len() == 0 || held >= receive_maximum {
                outcome == (session, sent)
            } else if first.expires_at_ms matches Some(at) && at <= now_ms {
                outcome == flushed(rest, receive_maximum, limit, now_ms, sent)
            } else if first.packet.qos == QoS::AtMostOnce {
                let copy = PublishView { packet_id: None, ..first.packet };
                &&& small_enough(copy, limit) ==> outcome == flushed(
                    rest,
                    receive_maximum,
                    limit,
                    now_ms,
                    sent.push(copy),
                )
                &&& !small_enough(copy, limit) ==> outcome == flushed(
                    rest,
                    receive_maximum,
                    limit,
                    now_ms,
                    sent,
                )
            } else if forall|id: u16| id != 0 ==> #[trigger] taken(session, id) {
                outcome == (session, sent)
            } else {
                exists|id: u16, next: SessionView|
                    #![trigger first_free(session, id), flushed(
                        next,
                        receive_maximum,
                        limit,
                        now_ms,
                        sent,
                    )]
                    #![trigger first_free(session, id), flushed(
                        next,
                        receive_maximum,
                        limit,
                        now_ms,
                        sent.push(PublishView { packet_id: Some(id), ..first.packet }),
                    )]
                    first_free(session, id) && {
                        let copy = PublishView { packet_id: Some(id), ..first.packet };
                        if small_enough(copy, limit) {
                            &&& put_in_flight(rest, next, copy, first.expires_at_ms, id)
                            &&& outcome == flushed(
                                next,
                                receive_maximum,
                                limit,
                                now_ms,
                                sent.push(copy),
                            )
                        } else {
                            &&& next == (SessionView {
                                next_packet_id: next.next_packet_id,
                                ..rest
                            })
                            &&& next.next_packet_id == if id == 65_535 {
                                1
                            } else {
                                id + 1
                            }
                            &&& outcome == flushed(next, receive_maximum, limit, now_ms, sent)
                        }
                    }
            }
        }),
{
    let outcome = flushed(session, receive_maximum, limit, now_ms, sent);
    let first = session.offline_queue[0].pending;
    let rest = SessionView { offline_queue: session.offline_queue.drop_first(), ..session };
    assert(session.offline_queue.drop_first() =~= session.offline_queue.subrange(
        1,
        session.offline_queue.len() as int,
    ));
    first_free_identifier_is_found(session);
    if let Some(id) = free_id(session) {
        let copy = PublishView { packet_id: Some(id), ..first.packet };
        let next = advanced(rest, id);
        assert(first_free(session, id));
        if small_enough(copy, limit) {
            let kept = with_outbound(next, id, copy, first.expires_at_ms);
            assert(put_in_flight(rest, kept, copy, first.expires_at_ms, id));
            let _ = flushed(kept, receive_maximum, limit, now_ms, sent.push(copy));
        } else {
            let _ = flushed(next, receive_maximum, limit, now_ms, sent);
        }
    }
}

} // verus!
