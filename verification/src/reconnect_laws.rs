//! What a client that comes back finds.
use vstd::prelude::*;

use crate::broker::BrokerView;
use crate::broker::connected;
use crate::broker::connecting;
use crate::broker::disconnected;
use crate::broker::resumed_session;
use crate::connection::ConnectOptions;
use crate::delivery::DeliveryView;
use crate::delivery::publish_to;
use crate::inflight::IDENTIFIER_TRIES;
use crate::inflight::advanced;
use crate::inflight::flushed;
use crate::inflight::free_id;
use crate::inflight::free_id_is_not_zero;
use crate::inflight::in_flight_entries;
use crate::inflight::inflight;
use crate::inflight::resent;
use crate::inflight::resent_to;
use crate::inflight::with_outbound;
use crate::inflight::without_stale;
use crate::message::PendingView;
use crate::message::expired;
use crate::mqtt_codec::fits_size;
use crate::ordered_map::entries_of;
use crate::ordered_map::key_has_entry;
use crate::ordered_map::key_index;
use crate::ordered_map::listed;
use crate::ordered_map::listed_empty;
use crate::ordered_map::listed_insert;
use crate::ordered_map::map_of_len;
use crate::packet::PublishView;
use crate::packet::QoS;
use crate::packet::WillView;
use crate::session::SessionView;
use crate::session::StateView;
use crate::session::new_session;
use crate::session::session_deadline;
use crate::session::session_expired;
use crate::session::without_expired;
use crate::session_laws::session_sound;
use crate::state_laws::filtered_from;
use crate::state_laws::state_sound;
use crate::storage::delta::lookup;
use crate::storage::snapshot::QueuedSnapshotView;
use crate::subscription::EntryView;

verus! {

/// A map by packet identifiers can be listed: there are only so many.
pub proof fn identifiers_listed<W>(map: Map<u16, W>, bound: nat)
    requires
        bound <= 65_536,
        forall|id: u16| #[trigger] map.dom().contains(id) ==> id < bound,
    ensures
        listed::<u16, W>(map),
    decreases bound,
{
    if bound == 0 {
        assert(map =~= Map::<u16, W>::empty());
        listed_empty::<u16, W>();
    } else {
        let last = (bound - 1) as u16;
        let front = map.remove(last);
        assert forall|id: u16| #[trigger] front.dom().contains(id) implies id < bound - 1 by {
            assert(map.dom().contains(id));
        }
        identifiers_listed(front, (bound - 1) as nat);
        if map.dom().contains(last) {
            listed_insert::<u16, W>(front, last, map[last]);
            assert(front.insert(last, map[last]) =~= map);
        } else {
            assert(front =~= map);
        }
    }
}

/// A publication that goes out again under its identifier.
pub open spec fn again_form(id: u16, packet: PublishView) -> PublishView {
    PublishView { dup: true, packet_id: Some(id), ..packet }
}

/// Each of some publications that fits is among those that are sent again.
proof fn resent_holds(
    entries: Seq<(u16, PendingView)>,
    maximum_packet_size: u32,
    index: int,
)
    requires
        0 <= index < entries.len(),
        fits_size(again_form(entries[index].0, entries[index].1.packet), maximum_packet_size),
    ensures
        resent(entries, maximum_packet_size).contains(
            again_form(entries[index].0, entries[index].1.packet),
        ),
    decreases entries.len(),
{
    let front = entries.drop_last();
    let before = resent(front, maximum_packet_size);
    let all = resent(entries, maximum_packet_size);
    let publish = again_form(entries[index].0, entries[index].1.packet);
    if index < front.len() {
        assert(front[index] == entries[index]);
        resent_holds(front, maximum_packet_size, index);
        let i = choose|i: int| 0 <= i < before.len() && before[i] == publish;
        assert(all[i] == publish);
    } else {
        assert(all[before.len() as int] == publish);
    }
}

/// The publications that a session has in flight are sent again, those that fit, where the client
/// accepts as many.
proof fn in_flight_resent(
    session: SessionView,
    receive_maximum: u16,
    maximum_packet_size: u32,
    id: u16,
    pending: PendingView,
)
    requires
        inflight(session) <= receive_maximum,
        lookup(session.outbound_qos1, id) == Some(pending) || lookup(
            session.outbound_qos2_publish,
            id,
        ) == Some(pending),
        fits_size(again_form(id, pending.packet), maximum_packet_size),
    ensures
        resent_to(session, receive_maximum, maximum_packet_size).contains(
            again_form(id, pending.packet),
        ),
{
    let qos1 = entries_of::<u16, PendingView>(session.outbound_qos1);
    let qos2 = entries_of::<u16, PendingView>(session.outbound_qos2_publish);
    let entries = in_flight_entries(session);
    identifiers_listed(session.outbound_qos1, 65_536);
    identifiers_listed(session.outbound_qos2_publish, 65_536);
    map_of_len::<u16, PendingView>(qos1);
    map_of_len::<u16, PendingView>(qos2);
    assert(entries.take(entries.len() as int) =~= entries);
    let index = if lookup(session.outbound_qos1, id) == Some(pending) {
        key_has_entry(qos1, id);
        key_index(qos1, id)
    } else {
        key_has_entry(qos2, id);
        qos1.len() + key_index(qos2, id)
    };
    assert(entries[index] == (id, pending));
    resent_holds(entries, maximum_packet_size, index);
}

/// A publication that a client has not acknowledged is sent again when the client comes back to its
/// session, marked as sent before and under the same identifier, unless it has expired or is too
/// large for the client; as long as the client accepts as many at a time.
pub proof fn unacknowledged_is_sent_again(
    state: StateView,
    connection_id: u64,
    client_id: Seq<char>,
    will: Option<WillView>,
    principal: Option<Seq<char>>,
    options: ConnectOptions,
    now_ms: u64,
    id: u16,
    pending: PendingView,
)
    requires
        !options.clean_start,
        !state.connections.dom().contains(client_id),
        state.sessions.dom().contains(client_id),
        !session_expired(state, client_id, now_ms),
        lookup(state.sessions[client_id].outbound_qos1, id) == Some(pending) || lookup(
            state.sessions[client_id].outbound_qos2_publish,
            id,
        ) == Some(pending),
        !expired(pending.expires_at_ms, now_ms),
        inflight(without_stale(state.sessions[client_id], now_ms)) <= options.receive_maximum,
        fits_size(again_form(id, pending.packet), options.maximum_packet_size),
    ensures
        connected(
            state,
            connection_id,
            client_id,
            will,
            principal,
            options,
            now_ms,
        ).1.contains(publish_to(connection_id, again_form(id, pending.packet))),
{
    let outcome = connected(
        state,
        connection_id,
        client_id,
        will,
        principal,
        options,
        now_ms,
    );
    let session = resumed_session(
        Some(state.sessions[client_id]),
        options.session_expiry_interval,
    );
    let kept = without_stale(session, now_ms);
    in_flight_resent(
        kept,
        options.receive_maximum,
        options.maximum_packet_size,
        id,
        pending,
    );
    let again = resent_to(kept, options.receive_maximum, options.maximum_packet_size);
    let i = choose|i: int| 0 <= i < again.len() && again[i] == again_form(id, pending.packet);
    assert(outcome.1[i] == publish_to(connection_id, again[i]));
}

/// A packet identifier that a publication can go out under: none with QoS 0, else one that is not
/// zero.
pub open spec fn fitting_id(packet: PublishView, id: Option<u16>) -> bool {
    &&& (packet.qos == QoS::AtMostOnce) == (id is None)
    &&& id != Some(0u16)
}

/// Publications come from the first of a queue, in the queue's order: each that has not expired,
/// under a packet identifier, but for those that are too large.
pub open spec fn drawn(
    queue: Seq<QueuedSnapshotView>,
    taken: int,
    from: Seq<int>,
    sent: Seq<PublishView>,
    maximum_packet_size: u32,
    now_ms: u64,
) -> bool {
    &&& 0 <= taken <= queue.len()
    &&& from.len() == sent.len()
    &&& forall|i: int, j: int|
        #![trigger from[i], from[j]]
        0 <= i < j < from.len() ==> from[i] < from[j]
    &&& forall|i: int|
        0 <= i < from.len() ==> {
            let pending = queue[#[trigger] from[i]].pending;
            &&& 0 <= from[i] < taken
            &&& !expired(pending.expires_at_ms, now_ms)
            &&& fitting_id(pending.packet, sent[i].packet_id)
            &&& sent[i] == (PublishView { packet_id: sent[i].packet_id, ..pending.packet })
        }
    &&& forall|j: int|
        0 <= j < taken && !expired((#[trigger] queue[j]).pending.expires_at_ms, now_ms)
            && !from.contains(j) ==> exists|id: Option<u16>|
            #[trigger] fitting_id(queue[j].pending.packet, id) && !fits_size(
                (PublishView { packet_id: id, ..queue[j].pending.packet }),
                maximum_packet_size,
            )
}

/// What leaves a queue leaves from its front, in order.
proof fn flushed_in_order(
    session: SessionView,
    receive_maximum: u16,
    maximum_packet_size: u32,
    now_ms: u64,
    sent: Seq<PublishView>,
) -> (result: (int, Seq<int>))
    requires
        session.next_packet_id != 0,
    ensures
        ({
            let outcome = flushed(session, receive_maximum, maximum_packet_size, now_ms, sent);
            let (taken, from) = result;
            &&& sent.is_prefix_of(outcome.1)
            &&& 0 <= taken <= session.offline_queue.len()
            &&& outcome.0.offline_queue == session.offline_queue.skip(taken)
            &&& drawn(
                session.offline_queue,
                taken,
                from,
                outcome.1.skip(sent.len() as int),
                maximum_packet_size,
                now_ms,
            )
        }),
    decreases session.offline_queue.len(),
{
    let queue = session.offline_queue;
    let outcome = flushed(session, receive_maximum, maximum_packet_size, now_ms, sent);
    assert(sent =~= sent.subrange(0, sent.len() as int));
    assert(sent.skip(sent.len() as int) =~= Seq::<PublishView>::empty());
    assert(queue.skip(0) =~= queue);
    if inflight(session) >= receive_maximum || queue.len() == 0 {
        return (0, Seq::empty());
    }
    let pending = queue[0].pending;
    let rest = SessionView { offline_queue: queue.drop_first(), ..session };
    let expires = expired(pending.expires_at_ms, now_ms);
    let plain = pending.packet.qos == QoS::AtMostOnce;
    free_id_is_not_zero(session, session.next_packet_id, IDENTIFIER_TRIES as nat);
    if !expires && !plain && free_id(session) is None {
        return (0, Seq::empty());
    }
    let id: Option<u16> = if plain {
        None
    } else {
        free_id(session)
    };
    let publish = PublishView { packet_id: id, ..pending.packet };
    let goes = !expires && fits_size(publish, maximum_packet_size);
    let next = if expires || plain {
        rest
    } else if goes {
        with_outbound(advanced(rest, id->0), id->0, publish, pending.expires_at_ms)
    } else {
        advanced(rest, id->0)
    };
    let head = if goes {
        sent.push(publish)
    } else {
        sent
    };
    let (taken, from) = flushed_in_order(
        next,
        receive_maximum,
        maximum_packet_size,
        now_ms,
        head,
    );
    assert(outcome == flushed(next, receive_maximum, maximum_packet_size, now_ms, head));
    let later = outcome.1.skip(head.len() as int);
    let all = outcome.1.skip(sent.len() as int);
    let moved = Seq::new(from.len(), |i: int| from[i] + 1);
    let result = (
        taken + 1,
        if goes {
            seq![0int] + moved
        } else {
            moved
        },
    );
    assert(sent =~= outcome.1.subrange(0, sent.len() as int)) by {
        assert(head =~= outcome.1.subrange(0, head.len() as int));
    }
    assert(queue.drop_first().skip(taken) =~= queue.skip(taken + 1));
    if goes {
        assert(outcome.1[sent.len() as int] == publish) by {
            assert(head[sent.len() as int] == outcome.1.subrange(0, head.len() as int)[
                sent.len() as int
            ]);
        }
        assert(all =~= seq![publish] + later);
    } else {
        assert(all =~= later);
    }
    let shift: int = if goes {
        1
    } else {
        0
    };
    assert forall|i: int| 0 <= i < result.1.len() implies {
        let item = queue[#[trigger] result.1[i]].pending;
        &&& 0 <= result.1[i] < taken + 1
        &&& !expired(item.expires_at_ms, now_ms)
        &&& fitting_id(item.packet, all[i].packet_id)
        &&& all[i] == (PublishView { packet_id: all[i].packet_id, ..item.packet })
    } by {
        if i >= shift {
            assert(result.1[i] == from[i - shift] + 1);
            assert(queue.drop_first()[from[i - shift]] == queue[result.1[i]]);
        }
    }
    assert forall|j: int|
        0 <= j < taken + 1 && !expired((#[trigger] queue[j]).pending.expires_at_ms, now_ms)
            && !result.1.contains(j) implies exists|id: Option<u16>|
        #[trigger] fitting_id(queue[j].pending.packet, id) && !fits_size(
            (PublishView { packet_id: id, ..queue[j].pending.packet }),
            maximum_packet_size,
        ) by {
        if j == 0 {
            if goes {
                assert(result.1[0] == 0);
            }
            assert(fitting_id(queue[0].pending.packet, id));
            assert(publish == (PublishView { packet_id: id, ..queue[0].pending.packet }));
        } else {
            assert(queue.drop_first()[j - 1] == queue[j]);
            if from.contains(j - 1) {
                let i = choose|i: int| 0 <= i < from.len() && from[i] == j - 1;
                assert(result.1[i + shift] == j);
            }
        }
    }
    result
}

/// What waits in a session's queue goes out in order: from the front, each publication once, until
/// the client has as many in flight as it accepts. Only what has expired or is too large is left
/// out.
pub proof fn queue_goes_out_in_order(
    session: SessionView,
    receive_maximum: u16,
    maximum_packet_size: u32,
    now_ms: u64,
)
    requires
        session_sound(session),
    ensures
        ({
            let outcome = flushed(
                session,
                receive_maximum,
                maximum_packet_size,
                now_ms,
                Seq::empty(),
            );
            exists|taken: int, from: Seq<int>| #[trigger]
                drawn(
                    session.offline_queue,
                    taken,
                    from,
                    outcome.1,
                    maximum_packet_size,
                    now_ms,
                ) && outcome.0.offline_queue == session.offline_queue.skip(taken)
        }),
{
    let outcome = flushed(session, receive_maximum, maximum_packet_size, now_ms, Seq::empty());
    let (taken, from) = flushed_in_order(
        session,
        receive_maximum,
        maximum_packet_size,
        now_ms,
        Seq::empty(),
    );
    assert(outcome.1.skip(0) =~= outcome.1);
}

/// A new session has nothing to send.
proof fn new_session_is_silent(
    session_expiry_interval: u32,
    receive_maximum: u16,
    maximum_packet_size: u32,
    now_ms: u64,
)
    ensures
        ({
            let kept = without_stale(new_session(session_expiry_interval, None), now_ms);
            &&& resent_to(kept, receive_maximum, maximum_packet_size) == Seq::<PublishView>::empty()
            &&& flushed(
                kept,
                receive_maximum,
                maximum_packet_size,
                now_ms,
                Seq::empty(),
            ).1 == Seq::<PublishView>::empty()
        }),
{
    let kept = without_stale(new_session(session_expiry_interval, None), now_ms);
    assert(kept.outbound_qos1 =~= Map::<u16, PendingView>::empty());
    assert(kept.outbound_qos2_publish =~= Map::<u16, PendingView>::empty());
    listed_empty::<u16, PendingView>();
    let none = entries_of::<u16, PendingView>(Map::empty());
    map_of_len::<u16, PendingView>(none);
    assert(in_flight_entries(kept) =~= Seq::<(u16, PendingView)>::empty());
    assert(in_flight_entries(kept).take(0) =~= Seq::<(u16, PendingView)>::empty());
}

/// A client that starts anew finds no session: what was sent to it before is not sent again, what
/// waited is gone, and it holds no subscription.
pub proof fn clean_start_forgets(
    broker: BrokerView,
    connection_id: u64,
    requested: Seq<char>,
    will: Option<WillView>,
    principal: Option<Seq<char>>,
    options: ConnectOptions,
    now_ms: u64,
)
    requires
        options.clean_start,
    ensures
        ({
            let outcome = connecting(
                broker,
                connection_id,
                requested,
                will,
                principal,
                options,
                now_ms,
            );
            &&& !outcome.1.session_present
            &&& outcome.1.redeliveries == Seq::<DeliveryView>::empty()
            &&& forall|i: int|
                0 <= i < outcome.0.state.subscriptions.len() ==> (
                #[trigger] outcome.0.state.subscriptions[i]).client_id != outcome.1.client_id
        }),
{
    let outcome = connecting(
        broker,
        connection_id,
        requested,
        will,
        principal,
        options,
        now_ms,
    );
    let client_id = outcome.1.client_id;
    let live = without_expired(broker.state, now_ms);
    let others = |entry: EntryView| entry.client_id != client_id;
    new_session_is_silent(
        options.session_expiry_interval,
        options.receive_maximum,
        options.maximum_packet_size,
        now_ms,
    );
    assert(outcome.1.redeliveries =~= Seq::<DeliveryView>::empty());
    assert(outcome.0.state.subscriptions == live.subscriptions.filter(others));
    assert forall|i: int| 0 <= i < outcome.0.state.subscriptions.len() implies (
    #[trigger] outcome.0.state.subscriptions[i]).client_id != client_id by {
        filtered_from(live.subscriptions, others, i);
    }
}

/// The session of a client that comes back to it before it expires is as the client left it: it is
/// told that the session is there, its publications in flight and its queue are those that it left,
/// and it holds its subscriptions.
pub proof fn session_outlasts_connection(
    broker: BrokerView,
    connection_id: u64,
    left_at_ms: u64,
    next_connection_id: u64,
    will: Option<WillView>,
    principal: Option<Seq<char>>,
    options: ConnectOptions,
    now_ms: u64,
)
    requires
        state_sound(broker.state),
        broker.state.clients.dom().contains(connection_id),
        broker.state.clients[connection_id].session_expiry_interval != 0,
        !expired(
            session_deadline(
                broker.state.clients[connection_id].session_expiry_interval,
                left_at_ms,
            ),
            now_ms,
        ),
        !options.clean_start,
    ensures
        ({
            let client_id = broker.state.clients[connection_id].client_id;
            let left = disconnected(broker.state, connection_id, left_at_ms);
            let before = broker.state.sessions[client_id];
            let waiting = without_expired(left, now_ms).sessions[client_id];
            let outcome = connecting(
                BrokerView { state: left, ..broker },
                next_connection_id,
                client_id,
                will,
                principal,
                options,
                now_ms,
            );
            &&& outcome.1.session_present
            &&& waiting.outbound_qos1 == before.outbound_qos1
            &&& waiting.outbound_qos2_publish == before.outbound_qos2_publish
            &&& waiting.outbound_qos2_pubrel == before.outbound_qos2_pubrel
            &&& waiting.offline_queue == before.offline_queue
            &&& waiting.next_packet_id == before.next_packet_id
            &&& forall|entry: EntryView|
                entry.client_id == client_id && broker.state.subscriptions.contains(entry)
                    ==> #[trigger] outcome.0.state.subscriptions.contains(entry)
        }),
{
    let client_id = broker.state.clients[connection_id].client_id;
    let left = disconnected(broker.state, connection_id, left_at_ms);
    let live = without_expired(left, now_ms);
    let outcome = connecting(
        BrokerView { state: left, ..broker },
        next_connection_id,
        client_id,
        will,
        principal,
        options,
        now_ms,
    );
    assert(left.subscriptions == broker.state.subscriptions);
    assert(!session_expired(left, client_id, now_ms));
    assert(outcome.0.state.subscriptions == live.subscriptions);
    let lasting = |entry: EntryView| !session_expired(left, entry.client_id, now_ms);
    assert forall|entry: EntryView|
        entry.client_id == client_id && broker.state.subscriptions.contains(
            entry,
        ) implies #[trigger] outcome.0.state.subscriptions.contains(entry) by {
        let i = choose|i: int|
            0 <= i < left.subscriptions.len() && left.subscriptions[i] == entry;
        left.subscriptions.lemma_filter_contains(lasting, i);
    }
}

/// A client that comes back after its session has expired finds none: nothing is sent to it again,
/// and it holds no subscription.
pub proof fn expired_session_is_forgotten(
    broker: BrokerView,
    connection_id: u64,
    left_at_ms: u64,
    next_connection_id: u64,
    will: Option<WillView>,
    principal: Option<Seq<char>>,
    options: ConnectOptions,
    now_ms: u64,
)
    requires
        state_sound(broker.state),
        broker.state.clients.dom().contains(connection_id),
        broker.state.clients[connection_id].session_expiry_interval != 0,
        expired(
            session_deadline(
                broker.state.clients[connection_id].session_expiry_interval,
                left_at_ms,
            ),
            now_ms,
        ),
    ensures
        ({
            let client_id = broker.state.clients[connection_id].client_id;
            let left = disconnected(broker.state, connection_id, left_at_ms);
            let outcome = connecting(
                BrokerView { state: left, ..broker },
                next_connection_id,
                client_id,
                will,
                principal,
                options,
                now_ms,
            );
            &&& !outcome.1.session_present
            &&& outcome.1.redeliveries == Seq::<DeliveryView>::empty()
            &&& forall|i: int|
                0 <= i < outcome.0.state.subscriptions.len() ==> (
                #[trigger] outcome.0.state.subscriptions[i]).client_id != client_id
        }),
{
    let client_id = broker.state.clients[connection_id].client_id;
    let left = disconnected(broker.state, connection_id, left_at_ms);
    let live = without_expired(left, now_ms);
    let outcome = connecting(
        BrokerView { state: left, ..broker },
        next_connection_id,
        client_id,
        will,
        principal,
        options,
        now_ms,
    );
    assert(session_expired(left, client_id, now_ms));
    if options.clean_start {
        clean_start_forgets(
            BrokerView { state: left, ..broker },
            next_connection_id,
            client_id,
            will,
            principal,
            options,
            now_ms,
        );
    } else {
        new_session_is_silent(
            options.session_expiry_interval,
            options.receive_maximum,
            options.maximum_packet_size,
            now_ms,
        );
        assert(outcome.1.redeliveries =~= Seq::<DeliveryView>::empty());
        let lasting = |entry: EntryView| !session_expired(left, entry.client_id, now_ms);
        assert(outcome.0.state.subscriptions == live.subscriptions);
        assert forall|i: int| 0 <= i < outcome.0.state.subscriptions.len() implies (
        #[trigger] outcome.0.state.subscriptions[i]).client_id != client_id by {
            filtered_from(left.subscriptions, lasting, i);
        }
    }
}

/// A client that does not start anew is told that its session is there if and only if there is one
/// that has not expired; a client that is still connected over another connection finds its
/// session.
pub proof fn session_is_found(
    broker: BrokerView,
    connection_id: u64,
    requested: Seq<char>,
    will: Option<WillView>,
    principal: Option<Seq<char>>,
    options: ConnectOptions,
    now_ms: u64,
)
    requires
        state_sound(broker.state),
    ensures
        ({
            let outcome = connecting(
                broker,
                connection_id,
                requested,
                will,
                principal,
                options,
                now_ms,
            ).1;
            let known = lookup(broker.state.sessions, outcome.client_id);
            &&& outcome.session_present <==> !options.clean_start && (known matches Some(session)
                && !expired(session.expires_at_ms, now_ms))
            &&& broker.state.connections.dom().contains(outcome.client_id)
                && !options.clean_start ==> outcome.session_present
        }),
{
    let outcome = connecting(
        broker,
        connection_id,
        requested,
        will,
        principal,
        options,
        now_ms,
    ).1;
    if broker.state.connections.dom().contains(outcome.client_id) {
        let current = broker.state.connections[outcome.client_id];
        assert(broker.state.clients.dom().contains(current));
    }
}

} // verus!
