//! That publications reach those who asked for them.
use vstd::prelude::*;

use crate::config::BrokerConfig;
use crate::delivery::DeliveryView;
use crate::delivery::group_of;
use crate::delivery::publish_to;
use crate::delivery::served;
use crate::delivery::share_key;
use crate::delivery::shared_groups;
use crate::delivery::unshared;
use crate::delivery_laws::joined_group_holds;
use crate::delivery_laws::member_in_turn;
use crate::delivery_laws::members_take_turns;
use crate::delivery_laws::served_are_wanted;
use crate::delivery_laws::shared_groups_sound;
use crate::delivery_laws::turn_of;
use crate::inflight::DeliveryTarget;
use crate::inflight::DeliveryTerms;
use crate::inflight::IDENTIFIER_TRIES;
use crate::inflight::delivered;
use crate::inflight::free_id;
use crate::inflight::free_id_is_free;
use crate::inflight::free_id_is_not_zero;
use crate::inflight::inflight;
use crate::inflight::queued;
use crate::message::PendingView;
use crate::message::expired;
use crate::message::expiry_of;
use crate::mqtt_codec::fits_size;
use crate::mqtt_codec::outgoing;
use crate::packet::PublishView;
use crate::packet::QoS;
use crate::packet::lower_qos;
use crate::routing::published;
use crate::routing::publisher_of;
use crate::routing::reachable;
use crate::routing::routed;
use crate::routing::routed_all;
use crate::routing::target_of;
use crate::routing::terms_of;
use crate::routing::wanting;
use crate::routing::wants;
use crate::session::SessionView;
use crate::session::StateView;
use crate::state_laws::state_sound;
use crate::storage::delta::lookup;
use crate::storage::snapshot::MAX_SEQUENCE;
use crate::subscription::EntryView;

verus! {

/// A session has lost nothing: what was in flight still is, and what waited still waits, in order.
pub open spec fn grown(before: SessionView, after: SessionView) -> bool {
    &&& before.outbound_qos1.submap_of(after.outbound_qos1)
    &&& before.outbound_qos2_publish.submap_of(after.outbound_qos2_publish)
    &&& before.offline_queue.is_prefix_of(after.offline_queue)
    &&& before.next_offline_sequence <= after.next_offline_sequence
    &&& before.next_packet_id != 0 ==> after.next_packet_id != 0
    &&& before.session_expiry_interval == after.session_expiry_interval
}

/// A publication as it goes out for a subscription, under an identifier where it has one.
pub open spec fn sent_form(
    entry: EntryView,
    packet: PublishView,
    packet_id: Option<u16>,
) -> PublishView {
    outgoing(
        packet,
        lower_qos(packet.qos, entry.options.maximum_qos),
        entry.options.retain_as_published && packet.retain,
        packet_id,
        false,
        entry.subscription_identifier,
    )
}

/// A publication waits in a session's queue.
pub open spec fn waits(
    session: SessionView,
    packet: PublishView,
    expires_at_ms: Option<u64>,
) -> bool {
    exists|i: int|
        0 <= i < session.offline_queue.len() && (#[trigger] session.offline_queue[i]).pending
            == (PendingView { packet, expires_at_ms })
}

/// A session's queue takes no more.
pub open spec fn queue_full(session: SessionView, config: BrokerConfig) -> bool {
    session.offline_queue.len() >= config.max_offline_queue_len || session.next_offline_sequence
        >= MAX_SEQUENCE
}

/// A publication is in flight in a session under an identifier.
pub open spec fn in_flight(
    session: SessionView,
    id: u16,
    packet: PublishView,
    expires_at_ms: Option<u64>,
) -> bool {
    let pending = PendingView { packet, expires_at_ms };
    if packet.qos == QoS::AtLeastOnce {
        lookup(session.outbound_qos1, id) == Some(pending)
    } else {
        lookup(session.outbound_qos2_publish, id) == Some(pending)
    }
}

/// A publication is sent to a connection and in flight in a session, under some identifier.
pub open spec fn sent_in_flight(
    session: SessionView,
    sent: Seq<DeliveryView>,
    connection_id: u64,
    entry: EntryView,
    packet: PublishView,
    expires_at_ms: Option<u64>,
) -> bool {
    exists|id: u16|
        sent.contains(publish_to(connection_id, #[trigger] sent_form(entry, packet, Some(id))))
            && in_flight(session, id, sent_form(entry, packet, Some(id)), expires_at_ms)
}

/// A client can be told of a publication: it is connected, or its session outlasts connections.
pub open spec fn can_be_told(state: StateView, client_id: Seq<char>) -> bool {
    if state.connections.dom().contains(client_id) {
        reachable(state, client_id) is Some
    } else {
        lookup(state.sessions, client_id) matches Some(session)
            && session.session_expiry_interval != 0
    }
}

/// What a publication came to for a subscription whose client can be told.
///
/// To a connected client a QoS 0 publication is sent, unless it is too large for the client. Any
/// other one is sent and in flight, or waits, unless it is too large for the client or the queue
/// takes no more; to a client that is not connected it waits, unless the queue takes no more.
pub open spec fn told(
    before: StateView,
    after: StateView,
    sent: Seq<DeliveryView>,
    entry: EntryView,
    packet: PublishView,
    config: BrokerConfig,
    now_ms: u64,
) -> bool {
    let qos = lower_qos(packet.qos, entry.options.maximum_qos);
    let expires_at_ms = expiry_of(packet.properties, now_ms);
    let plain = sent_form(entry, packet, None);
    &&& lookup(after.sessions, entry.client_id) is Some
    &&& {
        let session = after.sessions[entry.client_id];
        match reachable(before, entry.client_id) {
            Some((connection_id, client, _)) => if qos == QoS::AtMostOnce {
                sent.contains(publish_to(connection_id, plain)) || !fits_size(
                    plain,
                    client.maximum_packet_size,
                )
            } else {
                ||| sent_in_flight(session, sent, connection_id, entry, packet, expires_at_ms)
                ||| waits(session, plain, expires_at_ms)
                ||| queue_full(session, config)
                ||| exists|id: u16|
                    id != 0 && !fits_size(
                        #[trigger] sent_form(entry, packet, Some(id)),
                        client.maximum_packet_size,
                    )
            },
            None => qos == QoS::AtMostOnce || waits(session, plain, expires_at_ms) || queue_full(
                session,
                config,
            ),
        }
    }
}

/// Having lost nothing twice is having lost nothing.
pub proof fn grown_twice(first: SessionView, second: SessionView, third: SessionView)
    requires
        grown(first, second),
        grown(second, third),
    ensures
        grown(first, third),
{
    assert forall|id: u16| #[trigger] first.outbound_qos1.dom().contains(id) implies
        third.outbound_qos1.dom().contains(id) && first.outbound_qos1[id]
        == third.outbound_qos1[id] by {
        assert(second.outbound_qos1.dom().contains(id));
        assert(third.outbound_qos1.dom().contains(id));
    }
    assert forall|id: u16| #[trigger] first.outbound_qos2_publish.dom().contains(id) implies
        third.outbound_qos2_publish.dom().contains(id) && first.outbound_qos2_publish[id]
        == third.outbound_qos2_publish[id] by {
        assert(second.outbound_qos2_publish.dom().contains(id));
        assert(third.outbound_qos2_publish.dom().contains(id));
    }
    assert forall|i: int| 0 <= i < first.offline_queue.len() implies first.offline_queue[i]
        == third.offline_queue[i] by {
        assert(first.offline_queue[i] == second.offline_queue[i]);
    }
    assert(first.offline_queue =~= third.offline_queue.subrange(
        0,
        first.offline_queue.len() as int,
    ));
}

/// A publication that waits goes to the end of the queue.
pub proof fn queueing_grows(
    session: SessionView,
    packet: PublishView,
    expires_at_ms: Option<u64>,
    max_offline_queue_len: usize,
)
    ensures
        queued(session, packet, expires_at_ms, max_offline_queue_len) matches Some(next) ==> {
            &&& grown(session, next)
            &&& waits(next, packet, expires_at_ms)
        },
{
    if let Some(next) = queued(session, packet, expires_at_ms, max_offline_queue_len) {
        assert(session.offline_queue =~= next.offline_queue.subrange(
            0,
            session.offline_queue.len() as int,
        ));
        let last = next.offline_queue.len() - 1;
        assert(next.offline_queue[last].pending == (PendingView { packet, expires_at_ms }));
    }
}

/// A publication for a connected client takes nothing from its session.
pub proof fn delivery_grows(
    session: SessionView,
    target: DeliveryTarget,
    packet: PublishView,
    terms: DeliveryTerms,
    now_ms: u64,
)
    ensures
        grown(session, delivered(session, target, packet, terms, now_ms).0),
{
    let qos = lower_qos(packet.qos, terms.maximum_qos);
    let plain = outgoing(packet, qos, terms.retain, None, false, terms.subscription_identifier);
    assert(session.offline_queue =~= session.offline_queue.subrange(
        0,
        session.offline_queue.len() as int,
    ));
    queueing_grows(session, plain, terms.expires_at_ms, terms.max_offline_queue_len);
    free_id_is_free(session, session.next_packet_id, IDENTIFIER_TRIES as nat);
}

/// A publication for one subscription takes nothing from any session, and changes neither who is
/// connected nor where.
proof fn routing_grows(
    state: StateView,
    entry: EntryView,
    packet: PublishView,
    config: BrokerConfig,
    now_ms: u64,
    client_id: Seq<char>,
)
    ensures
        ({
            let after = routed(state, entry, packet, config, now_ms).0;
            &&& after.connections == state.connections
            &&& after.clients == state.clients
            &&& lookup(state.sessions, client_id) matches Some(session) ==> {
                &&& lookup(after.sessions, client_id) is Some
                &&& grown(session, after.sessions[client_id])
            }
        }),
{
    let expires_at_ms = expiry_of(packet.properties, now_ms);
    let session = state.sessions[client_id];
    assert(session.offline_queue =~= session.offline_queue.subrange(
        0,
        session.offline_queue.len() as int,
    ));
    if client_id == entry.client_id {
        if let Some((connection_id, client, _)) = reachable(state, client_id) {
            delivery_grows(
                session,
                target_of(connection_id, client),
                packet,
                terms_of(entry, packet, expires_at_ms, config),
                now_ms,
            );
        }
        queueing_grows(
            session,
            sent_form(entry, packet, None),
            expires_at_ms,
            config.max_offline_queue_len,
        );
    }
}

/// A publication comes to something for a subscription whose client can be told.
proof fn routing_tells(
    state: StateView,
    entry: EntryView,
    packet: PublishView,
    config: BrokerConfig,
    now_ms: u64,
)
    requires
        can_be_told(state, entry.client_id),
        state.sessions[entry.client_id].next_packet_id != 0,
        !expired(expiry_of(packet.properties, now_ms), now_ms),
    ensures
        ({
            let outcome = routed(state, entry, packet, config, now_ms);
            told(state, outcome.0, outcome.1, entry, packet, config, now_ms)
        }),
{
    let expires_at_ms = expiry_of(packet.properties, now_ms);
    let session = state.sessions[entry.client_id];
    let outcome = routed(state, entry, packet, config, now_ms);
    let plain = sent_form(entry, packet, None);
    routing_grows(state, entry, packet, config, now_ms, entry.client_id);
    queueing_grows(session, plain, expires_at_ms, config.max_offline_queue_len);
    if let Some((connection_id, client, _)) = reachable(state, entry.client_id) {
        let target = target_of(connection_id, client);
        let terms = terms_of(entry, packet, expires_at_ms, config);
        let done = delivered(session, target, packet, terms, now_ms);
        assert(outcome.0.sessions[entry.client_id] == done.0);
        if let Some(publish) = done.1 {
            assert(outcome.1[0] == publish_to(connection_id, publish));
            assert(outcome.1.contains(publish_to(connection_id, publish)));
        }
        if lower_qos(packet.qos, entry.options.maximum_qos) != QoS::AtMostOnce {
            free_id_is_not_zero(session, session.next_packet_id, IDENTIFIER_TRIES as nat);
            if let Some(id) = free_id(session) {
                let publish = sent_form(entry, packet, Some(id));
                if inflight(session) < target.receive_maximum && fits_size(
                    publish,
                    target.maximum_packet_size,
                ) {
                    assert(done.1 == Some(publish));
                    assert(in_flight(done.0, id, publish, expires_at_ms));
                }
            }
        }
    }
}

/// What a publication came to for a subscription stays so while it goes out for others.
proof fn told_stays(
    state: StateView,
    before: StateView,
    sent: Seq<DeliveryView>,
    after: StateView,
    more: Seq<DeliveryView>,
    entry: EntryView,
    packet: PublishView,
    config: BrokerConfig,
    now_ms: u64,
)
    requires
        told(state, before, sent, entry, packet, config, now_ms),
        lookup(after.sessions, entry.client_id) is Some,
        grown(before.sessions[entry.client_id], after.sessions[entry.client_id]),
    ensures
        told(state, after, sent + more, entry, packet, config, now_ms),
{
    let expires_at_ms = expiry_of(packet.properties, now_ms);
    let first = before.sessions[entry.client_id];
    let second = after.sessions[entry.client_id];
    let plain = sent_form(entry, packet, None);
    let all = sent + more;
    assert forall|item: DeliveryView| #[trigger] sent.contains(item) implies all.contains(item) by {
        let i = choose|i: int| 0 <= i < sent.len() && sent[i] == item;
        assert(all[i] == item);
    }
    if waits(first, plain, expires_at_ms) {
        let i = choose|i: int|
            0 <= i < first.offline_queue.len() && (#[trigger] first.offline_queue[i]).pending == (
            PendingView { packet: plain, expires_at_ms });
        assert(second.offline_queue[i] == first.offline_queue[i]);
    }
    if let Some((connection_id, _, _)) = reachable(state, entry.client_id) {
        if sent_in_flight(first, sent, connection_id, entry, packet, expires_at_ms) {
            let id = choose|id: u16|
                sent.contains(
                    publish_to(connection_id, #[trigger] sent_form(entry, packet, Some(id))),
                ) && in_flight(first, id, sent_form(entry, packet, Some(id)), expires_at_ms);
            assert(in_flight(second, id, sent_form(entry, packet, Some(id)), expires_at_ms));
        }
    }
}

/// A publication for some subscriptions comes to something for each whose client can be told.
pub proof fn routing_all_tells(
    state: StateView,
    entries: Seq<EntryView>,
    packet: PublishView,
    config: BrokerConfig,
    now_ms: u64,
    client_id: Seq<char>,
)
    requires
        !expired(expiry_of(packet.properties, now_ms), now_ms),
        can_be_told(state, client_id),
        state.sessions[client_id].next_packet_id != 0,
    ensures
        ({
            let outcome = routed_all(state, entries, packet, config, now_ms);
            &&& outcome.0.connections == state.connections
            &&& outcome.0.clients == state.clients
            &&& lookup(outcome.0.sessions, client_id) is Some
            &&& grown(state.sessions[client_id], outcome.0.sessions[client_id])
            &&& forall|i: int|
                0 <= i < entries.len() && (#[trigger] entries[i]).client_id == client_id ==> told(
                    state,
                    outcome.0,
                    outcome.1,
                    entries[i],
                    packet,
                    config,
                    now_ms,
                )
        }),
    decreases entries.len(),
{
    let session = state.sessions[client_id];
    if entries.len() == 0 {
        assert(session.offline_queue =~= session.offline_queue.subrange(
            0,
            session.offline_queue.len() as int,
        ));
    } else {
        let front = entries.drop_last();
        let last = entries.last();
        routing_all_tells(state, front, packet, config, now_ms, client_id);
        let before = routed_all(state, front, packet, config, now_ms);
        let step = routed(before.0, last, packet, config, now_ms);
        let outcome = routed_all(state, entries, packet, config, now_ms);
        routing_grows(before.0, last, packet, config, now_ms, client_id);
        grown_twice(session, before.0.sessions[client_id], outcome.0.sessions[client_id]);
        assert forall|i: int|
            0 <= i < entries.len() && (#[trigger] entries[i]).client_id == client_id implies told(
            state,
            outcome.0,
            outcome.1,
            entries[i],
            packet,
            config,
            now_ms,
        ) by {
            if i < front.len() {
                assert(front[i] == entries[i]);
                told_stays(
                    state,
                    before.0,
                    before.1,
                    outcome.0,
                    step.1,
                    entries[i],
                    packet,
                    config,
                    now_ms,
                );
            } else {
                routing_tells(before.0, last, packet, config, now_ms);
                assert(told(before.0, step.0, step.1, last, packet, config, now_ms));
                assert forall|item: DeliveryView| #[trigger] step.1.contains(item) implies
                    outcome.1.contains(item) by {
                    let k = choose|k: int| 0 <= k < step.1.len() && step.1[k] == item;
                    assert(outcome.1[before.1.len() + k] == item);
                }
            }
        }
    }
}

/// A publication reaches every subscription that wants it and is not shared, where its client can
/// be told: the client is connected, or its session outlasts connections. It is sent, or it waits
/// in the client's queue; it is lost only where it is too large for the client or the queue takes
/// no more.
pub proof fn publication_reaches_subscribers(
    state: StateView,
    publisher_connection_id: u64,
    packet: PublishView,
    config: BrokerConfig,
    now_ms: u64,
    index: int,
)
    requires
        state_sound(state),
        0 <= index < state.subscriptions.len(),
        state.subscriptions[index].shared_group is None,
        wants(
            state.subscriptions[index],
            packet.topic_name,
            publisher_of(state, publisher_connection_id),
        ),
        can_be_told(state, state.subscriptions[index].client_id),
        !expired(expiry_of(packet.properties, now_ms), now_ms),
    ensures
        ({
            let outcome = published(state, publisher_connection_id, packet, config, now_ms);
            told(
                state,
                outcome.0,
                outcome.1,
                state.subscriptions[index],
                packet,
                config,
                now_ms,
            )
        }),
{
    let publisher = publisher_of(state, publisher_connection_id);
    let entry = state.subscriptions[index];
    let wish = |entry: EntryView| wants(entry, packet.topic_name, publisher);
    let plain = |entry: EntryView| entry.shared_group is None;
    let wanted = wanting(state.subscriptions, packet.topic_name, publisher);
    let chosen = served(state, wanted);
    state.subscriptions.lemma_filter_contains(wish, index);
    let w = choose|w: int| 0 <= w < wanted.len() && wanted[w] == entry;
    wanted.lemma_filter_contains(plain, w);
    served_are_wanted(state, wanted);
    let j = choose|j: int| 0 <= j < unshared(wanted).len() && unshared(wanted)[j] == entry;
    assert(chosen.1[j] == entry);
    routing_all_tells(chosen.0, chosen.1, packet, config, now_ms, entry.client_id);
    let outcome = published(state, publisher_connection_id, packet, config, now_ms);
    assert(told(chosen.0, outcome.0, outcome.1, chosen.1[j], packet, config, now_ms));
}

/// The members of a group are connected.
proof fn members_are_connected(
    state: StateView,
    entries: Seq<EntryView>,
    key: Seq<char>,
    index: int,
)
    requires
        shared_groups(state, entries).dom().contains(key),
        0 <= index < shared_groups(state, entries)[key].len(),
    ensures
        state.connections.dom().contains(shared_groups(state, entries)[key][index].client_id),
    decreases entries.len(),
{
    let front = shared_groups(state, entries.drop_last());
    let last = entries.last();
    let members = shared_groups(state, entries)[key];
    if last.shared_group is Some && state.connections.dom().contains(last.client_id) && key
        == share_key(last) {
        joined_group_holds(group_of(front, key), last, index);
        if members[index] != last {
            let i = choose|i: int|
                0 <= i < group_of(front, key).len() && group_of(front, key)[i] == members[index];
            members_are_connected(state, entries.drop_last(), key, i);
        }
    } else {
        members_are_connected(state, entries.drop_last(), key, index);
    }
}

/// A publication reaches the member whose turn it is of every group that wants it: it is sent, or
/// it waits in the client's queue; it is lost only where it is too large for the client or the
/// queue takes no more.
pub proof fn publication_reaches_groups(
    state: StateView,
    publisher_connection_id: u64,
    packet: PublishView,
    config: BrokerConfig,
    now_ms: u64,
    key: Seq<char>,
)
    requires
        state_sound(state),
        shared_groups(
            state,
            wanting(
                state.subscriptions,
                packet.topic_name,
                publisher_of(state, publisher_connection_id),
            ),
        ).dom().contains(key),
        !expired(expiry_of(packet.properties, now_ms), now_ms),
    ensures
        ({
            let outcome = published(state, publisher_connection_id, packet, config, now_ms);
            let wanted = wanting(
                state.subscriptions,
                packet.topic_name,
                publisher_of(state, publisher_connection_id),
            );
            told(
                state,
                outcome.0,
                outcome.1,
                member_in_turn(state, wanted, key),
                packet,
                config,
                now_ms,
            )
        }),
{
    let publisher = publisher_of(state, publisher_connection_id);
    let wanted = wanting(state.subscriptions, packet.topic_name, publisher);
    let members = shared_groups(state, wanted)[key];
    let chosen = served(state, wanted);
    let entry = member_in_turn(state, wanted, key);
    shared_groups_sound(state, wanted);
    members_take_turns(state, wanted, key);
    let position = turn_of(state.cursors, key) as int % members.len() as int;
    assert(0 <= position < members.len()) by (nonlinear_arith)
        requires
            members.len() > 0,
            position == turn_of(state.cursors, key) as int % members.len() as int,
    ;
    members_are_connected(state, wanted, key, position);
    let j = choose|j: int| 0 <= j < chosen.1.len() && chosen.1[j] == entry;
    routing_all_tells(chosen.0, chosen.1, packet, config, now_ms, entry.client_id);
    let outcome = published(state, publisher_connection_id, packet, config, now_ms);
    assert(told(chosen.0, outcome.0, outcome.1, chosen.1[j], packet, config, now_ms));
}

} // verus!
