//! What every step of a session keeps.
use vstd::prelude::*;

use crate::inflight::DeliveryTarget;
use crate::inflight::DeliveryTerms;
use crate::inflight::IDENTIFIER_TRIES;
use crate::inflight::advanced;
use crate::inflight::delivered;
use crate::inflight::flushed;
use crate::inflight::free_from;
use crate::inflight::free_id;
use crate::inflight::free_id_is_free;
use crate::inflight::free_id_is_not_zero;
use crate::inflight::inflight;
use crate::inflight::next_id;
use crate::inflight::queued;
use crate::inflight::used_id;
use crate::inflight::with_outbound;
use crate::inflight::without_stale;
use crate::message::PendingView;
use crate::message::expired;
use crate::mqtt_codec::fits_size;
use crate::mqtt_codec::outgoing;
use crate::packet::PublishView;
use crate::packet::QoS;
use crate::packet::lower_qos;
use crate::protocol::valid_topic_name;
use crate::session::SessionView;
use crate::session::new_session;
use crate::storage::patch_decode::has_sequence;
use crate::storage::snapshot::MAX_SEQUENCE;
use crate::storage::snapshot::QueuedSnapshotView;
use crate::storage::snapshot::all_valid_outbound;
use crate::storage::snapshot::valid_offline;
use crate::storage::snapshot::valid_outbound;

verus! {

/// A queue is in order: its publications may be queued, and their numbers ascend below the next.
pub open spec fn queue_sound(queue: Seq<QueuedSnapshotView>, next_sequence: u64) -> bool {
    &&& forall|i: int|
        0 <= i < queue.len() ==> valid_offline((#[trigger] queue[i]).pending) && queue[i].sequence
            < next_sequence
    &&& forall|i: int, j: int|
        #![trigger queue[i], queue[j]]
        0 <= i < j < queue.len() ==> queue[i].sequence < queue[j].sequence
}

/// A session is in order: no packet identifier is used twice or is zero, publications in flight
/// carry their identifier and quality of service, and the queue is in order.
pub open spec fn session_sound(session: SessionView) -> bool {
    &&& session.next_packet_id != 0
    &&& session.next_offline_sequence <= MAX_SEQUENCE
    &&& session.outbound_qos1.dom().disjoint(session.outbound_qos2_publish.dom())
    &&& session.outbound_qos1.dom().disjoint(session.outbound_qos2_pubrel)
    &&& session.outbound_qos2_publish.dom().disjoint(session.outbound_qos2_pubrel)
    &&& !used_id(session, 0)
    &&& all_valid_outbound(session.outbound_qos1, QoS::AtLeastOnce)
    &&& all_valid_outbound(session.outbound_qos2_publish, QoS::ExactlyOnce)
    &&& queue_sound(session.offline_queue, session.next_offline_sequence)
}

/// A session goes on: it lasts as long, numbers are not issued again, and the queue gains only
/// publications with new numbers.
pub open spec fn goes_on(before: SessionView, after: SessionView) -> bool {
    &&& after.session_expiry_interval == before.session_expiry_interval
    &&& after.expires_at_ms == before.expires_at_ms
    &&& before.next_offline_sequence <= after.next_offline_sequence
    &&& forall|sequence: u64| #[trigger]
        has_sequence(after.offline_queue, sequence) && !has_sequence(
            before.offline_queue,
            sequence,
        ) ==> sequence >= before.next_offline_sequence
}

/// Going on twice is going on.
pub proof fn goes_on_twice(first: SessionView, second: SessionView, third: SessionView)
    requires
        goes_on(first, second),
        goes_on(second, third),
    ensures
        goes_on(first, third),
{
    assert forall|sequence: u64| #[trigger]
        has_sequence(third.offline_queue, sequence) && !has_sequence(
            first.offline_queue,
            sequence,
        ) implies sequence >= first.next_offline_sequence by {
        if has_sequence(second.offline_queue, sequence) {
        }
    }
}

/// A new session is in order.
pub proof fn new_session_is_sound(session_expiry_interval: u32, expires_at_ms: Option<u64>)
    ensures
        session_sound(new_session(session_expiry_interval, expires_at_ms)),
{
}

/// A publication that is queued keeps its session in order.
pub proof fn queueing_keeps_session(
    session: SessionView,
    packet: PublishView,
    expires_at_ms: Option<u64>,
    max_offline_queue_len: usize,
)
    requires
        session_sound(session),
        valid_offline(PendingView { packet, expires_at_ms }),
    ensures
        queued(session, packet, expires_at_ms, max_offline_queue_len) matches Some(after)
            ==> session_sound(after) && goes_on(session, after) && after.offline_queue.len()
            <= max_offline_queue_len,
{
    if let Some(after) = queued(session, packet, expires_at_ms, max_offline_queue_len) {
        let queue = after.offline_queue;
        let last = session.offline_queue.len() as int;
        assert forall|i: int| 0 <= i < queue.len() implies valid_offline(
            (#[trigger] queue[i]).pending,
        ) && queue[i].sequence < after.next_offline_sequence by {
            if i < last {
                assert(queue[i] == session.offline_queue[i]);
            }
        }
        assert forall|i: int, j: int|
            #![trigger queue[i], queue[j]]
            0 <= i < j < queue.len() implies queue[i].sequence < queue[j].sequence by {
            assert(queue[i] == session.offline_queue[i]);
            if j < last {
                assert(queue[j] == session.offline_queue[j]);
            }
        }
        assert forall|sequence: u64| #[trigger]
            has_sequence(queue, sequence) && !has_sequence(
                session.offline_queue,
                sequence,
            ) implies sequence >= session.next_offline_sequence by {
            let i = choose|i: int| 0 <= i < queue.len() && (#[trigger] queue[i]).sequence
                == sequence;
            if i < last {
                assert(session.offline_queue[i].sequence == sequence);
            }
        }
    }
}

/// A publication that is put in flight under a free identifier keeps its session in order.
proof fn sending_keeps_session(
    session: SessionView,
    id: u16,
    packet: PublishView,
    expires_at_ms: Option<u64>,
)
    requires
        session_sound(session),
        free_id(session) == Some(id),
        packet.qos != QoS::AtMostOnce,
        packet.packet_id == Some(id),
        valid_topic_name(packet.topic_name),
    ensures
        session_sound(advanced(session, id)),
        goes_on(session, advanced(session, id)),
        session_sound(with_outbound(advanced(session, id), id, packet, expires_at_ms)),
        goes_on(session, with_outbound(advanced(session, id), id, packet, expires_at_ms)),
{
    free_id_is_free(session, session.next_packet_id, IDENTIFIER_TRIES as nat);
    free_id_is_not_zero(session, session.next_packet_id, IDENTIFIER_TRIES as nat);
    assert(!used_id(session, id));
    let after = with_outbound(advanced(session, id), id, packet, expires_at_ms);
    assert(packet.qos == QoS::AtLeastOnce || packet.qos == QoS::ExactlyOnce);
    assert(after.outbound_qos1.dom().disjoint(after.outbound_qos2_publish.dom()));
    assert(after.outbound_qos1.dom().disjoint(after.outbound_qos2_pubrel));
    assert(after.outbound_qos2_publish.dom().disjoint(after.outbound_qos2_pubrel));
}

/// Sending a publication to a client keeps its session in order, and puts no more in flight than
/// the client accepts.
pub proof fn delivery_keeps_session(
    session: SessionView,
    target: DeliveryTarget,
    packet: PublishView,
    terms: DeliveryTerms,
    now_ms: u64,
)
    requires
        session_sound(session),
        valid_topic_name(packet.topic_name),
    ensures
        ({
            let after = delivered(session, target, packet, terms, now_ms).0;
            &&& session_sound(after)
            &&& goes_on(session, after)
            &&& session.outbound_qos1.dom().finite() && session.outbound_qos2_publish.dom().finite()
                ==> inflight(after) == inflight(session) || inflight(after)
                <= target.receive_maximum
        }),
{
    let qos = lower_qos(packet.qos, terms.maximum_qos);
    let plain = outgoing(packet, qos, terms.retain, None, false, terms.subscription_identifier);
    if !expired(terms.expires_at_ms, now_ms) && qos != QoS::AtMostOnce {
        if inflight(session) >= target.receive_maximum || free_id(session) is None {
            queueing_keeps_session(
                session,
                plain,
                terms.expires_at_ms,
                terms.max_offline_queue_len,
            );
        } else {
            let id = free_id(session)->0;
            let publish = outgoing(
                packet,
                qos,
                terms.retain,
                Some(id),
                false,
                terms.subscription_identifier,
            );
            sending_keeps_session(session, id, publish, terms.expires_at_ms);
        }
    }
}

/// Sending what waits in a session's queue keeps the session in order, and puts no more in flight
/// than the client accepts.
pub proof fn flushing_keeps_session(
    session: SessionView,
    receive_maximum: u16,
    maximum_packet_size: u32,
    now_ms: u64,
    sent: Seq<PublishView>,
)
    requires
        session_sound(session),
    ensures
        ({
            let after = flushed(
                session,
                receive_maximum,
                maximum_packet_size,
                now_ms,
                sent,
            ).0;
            &&& session_sound(after)
            &&& goes_on(session, after)
            &&& session.outbound_qos1.dom().finite() && session.outbound_qos2_publish.dom().finite()
                ==> inflight(after) == inflight(session) || inflight(after) <= receive_maximum
        }),
    decreases session.offline_queue.len(),
{
    if !(inflight(session) >= receive_maximum || session.offline_queue.len() == 0) {
        let queue = session.offline_queue;
        let pending = queue[0].pending;
        assert(valid_offline(queue[0].pending));
        let rest = SessionView { offline_queue: queue.drop_first(), ..session };
        dequeuing_keeps_session(session);
        if expired(pending.expires_at_ms, now_ms) {
            flushing_keeps_session(rest, receive_maximum, maximum_packet_size, now_ms, sent);
            let after = flushed(rest, receive_maximum, maximum_packet_size, now_ms, sent).0;
            goes_on_twice(session, rest, after);
        } else if let Some(id) = free_id(session) {
            let publish = PublishView { packet_id: Some(id), ..pending.packet };
            same_free_id(session, rest, session.next_packet_id, IDENTIFIER_TRIES as nat);
            sending_keeps_session(rest, id, publish, pending.expires_at_ms);
            let next = advanced(rest, id);
            if fits_size(publish, maximum_packet_size) {
                let full = with_outbound(next, id, publish, pending.expires_at_ms);
                let more = sent.push(publish);
                flushing_keeps_session(full, receive_maximum, maximum_packet_size, now_ms, more);
                let after = flushed(full, receive_maximum, maximum_packet_size, now_ms, more).0;
                goes_on_twice(session, rest, full);
                goes_on_twice(session, full, after);
            } else {
                flushing_keeps_session(next, receive_maximum, maximum_packet_size, now_ms, sent);
                let after = flushed(next, receive_maximum, maximum_packet_size, now_ms, sent).0;
                goes_on_twice(session, rest, next);
                goes_on_twice(session, next, after);
            }
        }
    }
}

/// Taking the first publication off a queue keeps the session in order.
proof fn dequeuing_keeps_session(session: SessionView)
    requires
        session_sound(session),
        session.offline_queue.len() > 0,
    ensures
        ({
            let rest = SessionView {
                offline_queue: session.offline_queue.drop_first(),
                ..session
            };
            session_sound(rest) && goes_on(session, rest)
        }),
{
    let queue = session.offline_queue;
    let less = queue.drop_first();
    assert forall|i: int| 0 <= i < less.len() implies valid_offline(
        (#[trigger] less[i]).pending,
    ) && less[i].sequence < session.next_offline_sequence by {
        assert(less[i] == queue[i + 1]);
    }
    assert forall|i: int, j: int|
        #![trigger less[i], less[j]]
        0 <= i < j < less.len() implies less[i].sequence < less[j].sequence by {
        assert(less[i] == queue[i + 1]);
        assert(less[j] == queue[j + 1]);
    }
    assert forall|sequence: u64| #[trigger] has_sequence(less, sequence) implies has_sequence(
        queue,
        sequence,
    ) by {
        let i = choose|i: int| 0 <= i < less.len() && (#[trigger] less[i]).sequence == sequence;
        assert(queue[i + 1].sequence == sequence);
    }
}

/// Which identifier is free does not depend on the queue.
proof fn same_free_id(a: SessionView, b: SessionView, id: u16, tries: nat)
    requires
        a.outbound_qos1 == b.outbound_qos1,
        a.outbound_qos2_publish == b.outbound_qos2_publish,
        a.outbound_qos2_pubrel == b.outbound_qos2_pubrel,
    ensures
        free_from(a, id, tries) == free_from(b, id, tries),
    decreases tries,
{
    if tries > 0 {
        same_free_id(a, b, next_id(id), (tries - 1) as nat);
    }
}

/// Dropping what has expired in flight keeps the session in order.
pub proof fn dropping_stale_keeps_session(session: SessionView, now_ms: u64)
    requires
        session_sound(session),
    ensures
        session_sound(without_stale(session, now_ms)),
        goes_on(session, without_stale(session, now_ms)),
{
    let after = without_stale(session, now_ms);
    assert forall|id: u16| #[trigger] after.outbound_qos1.dom().contains(id) implies
        valid_outbound(id, after.outbound_qos1[id], QoS::AtLeastOnce) by {
        assert(session.outbound_qos1.dom().contains(id));
    }
    assert forall|id: u16| #[trigger] after.outbound_qos2_publish.dom().contains(id) implies
        valid_outbound(id, after.outbound_qos2_publish[id], QoS::ExactlyOnce) by {
        assert(session.outbound_qos2_publish.dom().contains(id));
    }
    assert(after.outbound_qos1.dom().disjoint(after.outbound_qos2_publish.dom()));
    assert(after.outbound_qos1.dom().disjoint(after.outbound_qos2_pubrel));
    assert(after.outbound_qos2_publish.dom().disjoint(after.outbound_qos2_pubrel));
}

/// An acknowledgement keeps the session in order.
pub proof fn acknowledgements_keep_session(session: SessionView, packet_id: u16)
    requires
        session_sound(session),
    ensures
        ({
            let acknowledged = SessionView {
                outbound_qos1: session.outbound_qos1.remove(packet_id),
                ..session
            };
            session_sound(acknowledged) && goes_on(session, acknowledged)
        }),
        session.outbound_qos2_publish.dom().contains(packet_id) ==> ({
            let received = SessionView {
                outbound_qos2_publish: session.outbound_qos2_publish.remove(packet_id),
                outbound_qos2_pubrel: session.outbound_qos2_pubrel.insert(packet_id),
                ..session
            };
            session_sound(received) && goes_on(session, received)
        }),
        ({
            let finished = SessionView {
                outbound_qos2_pubrel: session.outbound_qos2_pubrel.remove(packet_id),
                ..session
            };
            session_sound(finished) && goes_on(session, finished)
        }),
{
    let acknowledged = SessionView {
        outbound_qos1: session.outbound_qos1.remove(packet_id),
        ..session
    };
    assert(acknowledged.outbound_qos1.dom().disjoint(session.outbound_qos2_publish.dom()));
    assert(acknowledged.outbound_qos1.dom().disjoint(session.outbound_qos2_pubrel));
    let finished = SessionView {
        outbound_qos2_pubrel: session.outbound_qos2_pubrel.remove(packet_id),
        ..session
    };
    assert(session.outbound_qos1.dom().disjoint(finished.outbound_qos2_pubrel));
    assert(session.outbound_qos2_publish.dom().disjoint(finished.outbound_qos2_pubrel));
    if session.outbound_qos2_publish.dom().contains(packet_id) {
        let received = SessionView {
            outbound_qos2_publish: session.outbound_qos2_publish.remove(packet_id),
            outbound_qos2_pubrel: session.outbound_qos2_pubrel.insert(packet_id),
            ..session
        };
        assert(!session.outbound_qos1.dom().contains(packet_id));
        assert(received.outbound_qos1.dom().disjoint(received.outbound_qos2_publish.dom()));
        assert(received.outbound_qos1.dom().disjoint(received.outbound_qos2_pubrel));
        assert(received.outbound_qos2_publish.dom().disjoint(received.outbound_qos2_pubrel));
    }
}

/// An identifier that was acknowledged can be used again, and no other one is freed by it.
pub proof fn acknowledgement_frees_identifier(session: SessionView, packet_id: u16, other: u16)
    requires
        session_sound(session),
        session.outbound_qos1.dom().contains(packet_id),
    ensures
        ({
            let acknowledged = SessionView {
                outbound_qos1: session.outbound_qos1.remove(packet_id),
                ..session
            };
            &&& !used_id(acknowledged, packet_id)
            &&& other != packet_id ==> used_id(acknowledged, other) == used_id(session, other)
        }),
{
    assert(!session.outbound_qos2_publish.dom().contains(packet_id));
    assert(!session.outbound_qos2_pubrel.contains(packet_id));
}

} // verus!
