//! Publications on their way to one client: packet identifiers, what is sent now, what waits, and
//! what is sent again.
use std::collections::VecDeque;
use vstd::prelude::*;

use crate::message::PendingPublish;
use crate::message::PendingView;
use crate::message::expired;
use crate::message::is_message_expired;
use crate::mqtt_codec::fits_maximum_packet_size;
use crate::mqtt_codec::fits_size;
use crate::mqtt_codec::outgoing;
use crate::mqtt_codec::pending_publish;
use crate::ordered_map::OrderedMap;
use crate::ordered_map::ascending;
use crate::ordered_map::entries_of;
use crate::ordered_map::key_has_entry;
use crate::packet::PublishPacket;
use crate::packet::PublishView;
use crate::packet::QoS;
use crate::packet::effective_qos;
use crate::packet::lower_qos;
use crate::session::SessionEntry;
use crate::session::SessionView;
use crate::storage::patch_codec::few_identifiers;
use crate::storage::snapshot::MAX_SEQUENCE;
use crate::storage::snapshot::QueuedSnapshot;
use crate::storage::snapshot::QueuedSnapshotView;
use crate::value::Value;

verus! {

/// How many packet identifiers are tried before the search gives up: all there are.
pub const IDENTIFIER_TRIES: u32 = 65_536;

/// A packet identifier is in use.
pub open spec fn used_id(session: SessionView, id: u16) -> bool {
    ||| session.outbound_qos1.dom().contains(id)
    ||| session.outbound_qos2_publish.dom().contains(id)
    ||| session.outbound_qos2_pubrel.contains(id)
}

/// The packet identifier after another; zero is left out.
pub open spec fn next_id(id: u16) -> u16 {
    if id == u16::MAX {
        1
    } else {
        (id + 1) as u16
    }
}

/// The first packet identifier that is not in use, within some tries from one on.
pub open spec fn free_from(session: SessionView, id: u16, tries: nat) -> Option<u16>
    decreases tries,
{
    if tries == 0 {
        None
    } else if !used_id(session, id) {
        Some(id)
    } else {
        free_from(session, next_id(id), (tries - 1) as nat)
    }
}

/// The packet identifier that a session uses next.
pub open spec fn free_id(session: SessionView) -> Option<u16> {
    free_from(session, session.next_packet_id, IDENTIFIER_TRIES as nat)
}

/// A packet identifier that a session hands out is not in use.
pub proof fn free_id_is_free(session: SessionView, id: u16, tries: nat)
    ensures
        free_from(session, id, tries) matches Some(found) ==> !used_id(session, found),
    decreases tries,
{
    if tries > 0 && used_id(session, id) {
        free_id_is_free(session, next_id(id), (tries - 1) as nat);
    }
}

/// A packet identifier is not handed out as zero, unless the count starts there.
pub proof fn free_id_is_not_zero(session: SessionView, id: u16, tries: nat)
    requires
        id != 0,
    ensures
        free_from(session, id, tries) != Some(0u16),
    decreases tries,
{
    if tries > 0 && used_id(session, id) {
        free_id_is_not_zero(session, next_id(id), (tries - 1) as nat);
    }
}

/// While a packet identifier other than zero is not in use, one is found.
pub proof fn free_id_exists(session: SessionView, free: u16)
    requires
        free != 0,
        !used_id(session, free),
    ensures
        free_id(session) is Some,
{
    let start = session.next_packet_id;
    let steps = if start <= free {
        (free - start) as nat
    } else {
        (65_535 - start + free) as nat
    };
    free_id_within(session, start, free, steps, IDENTIFIER_TRIES as nat);
}

proof fn free_id_within(session: SessionView, id: u16, free: u16, steps: nat, tries: nat)
    requires
        free != 0,
        !used_id(session, free),
        steps < tries,
        steps == (if id <= free {
            free - id
        } else {
            65_535 - id + free
        }),
    ensures
        free_from(session, id, tries) is Some,
    decreases tries,
{
    if used_id(session, id) {
        free_id_within(session, next_id(id), free, (steps - 1) as nat, (tries - 1) as nat);
    }
}

/// How many publications are in flight: sent and not yet acknowledged or received.
pub open spec fn inflight(session: SessionView) -> nat {
    session.outbound_qos1.len() + session.outbound_qos2_publish.len()
}

/// How many publications are in flight.
pub fn inflight_count(session: &SessionEntry) -> (result: usize)
    ensures
        result == inflight(session.deep_view()),
{
    let qos1: usize = session.outbound_qos1.len();
    let qos2: usize = session.outbound_qos2_publish.len();
    proof {
        few_identifiers(session.outbound_qos1.entries());
        few_identifiers(session.outbound_qos2_publish.entries());
    }
    qos1 + qos2
}

fn is_used_id(session: &SessionEntry, id: u16) -> (result: bool)
    ensures
        result == used_id(session.deep_view(), id),
{
    session.outbound_qos1.contains_key(&id) || session.outbound_qos2_publish.contains_key(&id)
        || session.outbound_qos2_pubrel.contains_key(&id)
}

/// The packet identifier that a session uses next.
fn find_free_id(session: &SessionEntry) -> (result: Option<u16>)
    ensures
        result == free_id(session.deep_view()),
{
    let mut id: u16 = session.next_packet_id;
    let mut left: u32 = IDENTIFIER_TRIES;
    while left > 0
        invariant
            free_id(session.deep_view()) == free_from(session.deep_view(), id, left as nat),
        decreases left,
    {
        if !is_used_id(session, id) {
            return Some(id);
        }
        id = if id == u16::MAX {
            1
        } else {
            id + 1
        };
        left = left - 1;
    }
    None
}

/// The session after it handed out a packet identifier.
pub open spec fn advanced(session: SessionView, id: u16) -> SessionView {
    SessionView { next_packet_id: next_id(id), ..session }
}

/// Hands out a packet identifier that is not in use, if there is one.
pub fn next_packet_id(session: &mut SessionEntry) -> (result: Option<u16>)
    ensures
        result == free_id(old(session).deep_view()),
        result matches Some(id) ==> !used_id(old(session).deep_view(), id),
        final(session).deep_view() == (match result {
            Some(id) => advanced(old(session).deep_view(), id),
            None => old(session).deep_view(),
        }),
{
    proof {
        free_id_is_free(
            session.deep_view(),
            session.next_packet_id,
            IDENTIFIER_TRIES as nat,
        );
    }
    match find_free_id(session) {
        Some(id) => {
            session.next_packet_id = if id == u16::MAX {
                1
            } else {
                id + 1
            };
            Some(id)
        },
        None => None,
    }
}

/// The session with a publication at the end of its queue, where the queue has room and a sequence
/// number is left.
pub open spec fn queued(
    session: SessionView,
    packet: PublishView,
    expires_at_ms: Option<u64>,
    max_offline_queue_len: usize,
) -> Option<SessionView> {
    if session.offline_queue.len() >= max_offline_queue_len || session.next_offline_sequence
        >= MAX_SEQUENCE {
        None
    } else {
        Some(
            SessionView {
                next_offline_sequence: (session.next_offline_sequence + 1) as u64,
                offline_queue: session.offline_queue.push(
                    QueuedSnapshotView {
                        sequence: session.next_offline_sequence,
                        pending: PendingView { packet, expires_at_ms },
                    },
                ),
                ..session
            },
        )
    }
}

/// Puts a publication at the end of a session's queue. Returns whether it could.
pub fn queue_pending_publish(
    session: &mut SessionEntry,
    packet: &PublishPacket,
    qos: QoS,
    retain: bool,
    expires_at_ms: Option<u64>,
    subscription_identifier: Option<u32>,
    max_offline_queue_len: usize,
) -> (result: bool)
    ensures
        match queued(
            old(session).deep_view(),
            outgoing(packet.deep_view(), qos, retain, None, false, subscription_identifier),
            expires_at_ms,
            max_offline_queue_len,
        ) {
            Some(next) => result && final(session).deep_view() == next,
            None => !result && final(session).deep_view() == old(session).deep_view(),
        },
{
    if session.offline_queue.len() >= max_offline_queue_len {
        return false;
    }
    if session.next_offline_sequence >= MAX_SEQUENCE {
        return false;
    }
    let ghost before = session.deep_view();
    let sequence: u64 = session.next_offline_sequence;
    session.next_offline_sequence = sequence + 1;
    let pending: PendingPublish = PendingPublish {
        packet: pending_publish(packet, qos, retain, None, false, subscription_identifier),
        expires_at_ms,
    };
    let ghost view = QueuedSnapshotView { sequence, pending: pending.deep_view() };
    session.offline_queue.push_back(QueuedSnapshot { sequence, pending });
    assert(session.deep_view().offline_queue =~= before.offline_queue.push(view));
    true
}

/// The session with a publication in flight under an identifier.
pub open spec fn with_outbound(
    session: SessionView,
    id: u16,
    packet: PublishView,
    expires_at_ms: Option<u64>,
) -> SessionView {
    let pending = PendingView { packet, expires_at_ms };
    if packet.qos == QoS::AtLeastOnce {
        SessionView { outbound_qos1: session.outbound_qos1.insert(id, pending), ..session }
    } else {
        SessionView {
            outbound_qos2_publish: session.outbound_qos2_publish.insert(id, pending),
            ..session
        }
    }
}

/// Puts a publication in flight under an identifier.
fn put_outbound(
    session: &mut SessionEntry,
    id: u16,
    packet: PublishPacket,
    expires_at_ms: Option<u64>,
)
    ensures
        final(session).deep_view() == with_outbound(
            old(session).deep_view(),
            id,
            packet.deep_view(),
            expires_at_ms,
        ),
{
    let at_least_once: bool = packet.qos == QoS::AtLeastOnce;
    let pending: PendingPublish = PendingPublish { packet, expires_at_ms };
    if at_least_once {
        session.outbound_qos1.insert(id, pending);
    } else {
        session.outbound_qos2_publish.insert(id, pending);
    }
}

/// What a client accepts.
#[derive(Clone, Copy, Debug, PartialEq, Eq, Structural)]
pub struct DeliveryTarget {
    pub connection_id: u64,
    pub receive_maximum: u16,
    pub maximum_packet_size: u32,
}

/// How a publication is to be sent to one subscriber.
#[derive(Clone, Copy, Debug, PartialEq, Eq, Structural)]
pub struct DeliveryTerms {
    pub maximum_qos: QoS,
    pub retain: bool,
    pub expires_at_ms: Option<u64>,
    pub subscription_identifier: Option<u32>,
    pub max_offline_queue_len: usize,
}

/// What becomes of a publication for a connected client: the session afterwards, and what is sent
/// now.
///
/// An expired publication is dropped. A QoS 0 publication is sent if it fits. Any other one waits
/// where the client has as many in flight as it accepts, or no identifier is free; else it gets an
/// identifier, and if it fits it is sent and put in flight.
pub open spec fn delivered(
    session: SessionView,
    target: DeliveryTarget,
    packet: PublishView,
    terms: DeliveryTerms,
    now_ms: u64,
) -> (SessionView, Option<PublishView>) {
    let qos = lower_qos(packet.qos, terms.maximum_qos);
    let plain = outgoing(packet, qos, terms.retain, None, false, terms.subscription_identifier);
    if expired(terms.expires_at_ms, now_ms) {
        (session, None)
    } else if qos == QoS::AtMostOnce {
        if fits_size(plain, target.maximum_packet_size) {
            (session, Some(plain))
        } else {
            (session, None)
        }
    } else if inflight(session) >= target.receive_maximum || free_id(session) is None {
        match queued(session, plain, terms.expires_at_ms, terms.max_offline_queue_len) {
            Some(next) => (next, None),
            None => (session, None),
        }
    } else {
        let id = free_id(session)->0;
        let next = advanced(session, id);
        let publish = outgoing(
            packet,
            qos,
            terms.retain,
            Some(id),
            false,
            terms.subscription_identifier,
        );
        if fits_size(publish, target.maximum_packet_size) {
            (with_outbound(next, id, publish, terms.expires_at_ms), Some(publish))
        } else {
            (next, None)
        }
    }
}

/// Sends a publication to a connected client, or keeps it for later.
pub fn delivery_for_client(
    session: &mut SessionEntry,
    target: DeliveryTarget,
    packet: &PublishPacket,
    terms: DeliveryTerms,
    now_ms: u64,
) -> (result: Option<PublishPacket>)
    ensures
        (final(session).deep_view(), result.deep_view()) == delivered(
            old(session).deep_view(),
            target,
            packet.deep_view(),
            terms,
            now_ms,
        ),
{
    if is_message_expired(terms.expires_at_ms, now_ms) {
        return None;
    }
    let qos: QoS = effective_qos(packet.qos, terms.maximum_qos);
    if qos == QoS::AtMostOnce {
        let publish: PublishPacket = pending_publish(
            packet,
            qos,
            terms.retain,
            None,
            false,
            terms.subscription_identifier,
        );
        if !fits_maximum_packet_size(&publish, target.maximum_packet_size) {
            return None;
        }
        return Some(publish);
    }
    if inflight_count(session) >= target.receive_maximum as usize || find_free_id(
        session,
    ).is_none() {
        queue_pending_publish(
            session,
            packet,
            qos,
            terms.retain,
            terms.expires_at_ms,
            terms.subscription_identifier,
            terms.max_offline_queue_len,
        );
        return None;
    }
    let id: u16 = match next_packet_id(session) {
        Some(id) => id,
        None => return None,
    };
    let publish: PublishPacket = pending_publish(
        packet,
        qos,
        terms.retain,
        Some(id),
        false,
        terms.subscription_identifier,
    );
    if !fits_maximum_packet_size(&publish, target.maximum_packet_size) {
        return None;
    }
    put_outbound(session, id, publish.dup(), terms.expires_at_ms);
    Some(publish)
}

/// What is sent of a session's queue now: the session afterwards, and what is sent, behind what
/// was sent before.
///
/// While the client has fewer in flight than it accepts, the first publication is taken: an expired
/// one is dropped, a QoS 0 one is sent if it fits, any other one gets an identifier, and if it fits
/// it is sent and put in flight. Where no identifier is free the rest waits.
pub open spec fn flushed(
    session: SessionView,
    receive_maximum: u16,
    maximum_packet_size: u32,
    now_ms: u64,
    sent: Seq<PublishView>,
) -> (SessionView, Seq<PublishView>)
    decreases session.offline_queue.len(),
{
    if inflight(session) >= receive_maximum || session.offline_queue.len() == 0 {
        (session, sent)
    } else {
        let pending = session.offline_queue[0].pending;
        let rest = SessionView {
            offline_queue: session.offline_queue.drop_first(),
            ..session
        };
        if expired(pending.expires_at_ms, now_ms) {
            flushed(rest, receive_maximum, maximum_packet_size, now_ms, sent)
        } else if pending.packet.qos == QoS::AtMostOnce {
            let publish = PublishView { packet_id: None, ..pending.packet };
            let next = if fits_size(publish, maximum_packet_size) {
                sent.push(publish)
            } else {
                sent
            };
            flushed(rest, receive_maximum, maximum_packet_size, now_ms, next)
        } else {
            match free_id(session) {
                None => (session, sent),
                Some(id) => {
                    let publish = PublishView { packet_id: Some(id), ..pending.packet };
                    let next = advanced(rest, id);
                    if fits_size(publish, maximum_packet_size) {
                        flushed(
                            with_outbound(next, id, publish, pending.expires_at_ms),
                            receive_maximum,
                            maximum_packet_size,
                            now_ms,
                            sent.push(publish),
                        )
                    } else {
                        flushed(next, receive_maximum, maximum_packet_size, now_ms, sent)
                    }
                },
            }
        }
    }
}

/// Whether identifiers are free does not hang on the queue.
proof fn free_id_ignores_queue(
    session: SessionView,
    queue: Seq<QueuedSnapshotView>,
    id: u16,
    tries: nat,
)
    ensures
        free_from(SessionView { offline_queue: queue, ..session }, id, tries) == free_from(
            session,
            id,
            tries,
        ),
    decreases tries,
{
    if tries > 0 {
        free_id_ignores_queue(session, queue, next_id(id), (tries - 1) as nat);
    }
}

/// Sends what a session has queued, as far as the client accepts it.
pub fn flush_queued_for_session(
    session: &mut SessionEntry,
    receive_maximum: u16,
    maximum_packet_size: u32,
    now_ms: u64,
) -> (result: Vec<PublishPacket>)
    ensures
        (final(session).deep_view(), result.deep_view()) == flushed(
            old(session).deep_view(),
            receive_maximum,
            maximum_packet_size,
            now_ms,
            Seq::empty(),
        ),
{
    let ghost goal = flushed(
        session.deep_view(),
        receive_maximum,
        maximum_packet_size,
        now_ms,
        Seq::empty(),
    );
    let mut sent: Vec<PublishPacket> = Vec::new();
    assert(sent.deep_view() =~= Seq::<PublishView>::empty());
    while inflight_count(session) < receive_maximum as usize && session.offline_queue.len() > 0
        invariant_except_break
            goal == flushed(
                session.deep_view(),
                receive_maximum,
                maximum_packet_size,
                now_ms,
                sent.deep_view(),
            ),
        ensures
            goal == (session.deep_view(), sent.deep_view()),
        decreases session.offline_queue@.len(),
    {
        let ghost before = session.deep_view();
        let ghost collected = sent.deep_view();
        assert(before.offline_queue[0] == session.offline_queue@[0].deep_view());
        let waits: bool = session.offline_queue[0].pending.packet.qos != QoS::AtMostOnce
            && !is_message_expired(session.offline_queue[0].pending.expires_at_ms, now_ms)
            && find_free_id(session).is_none();
        if waits {
            break;
        }
        let pending: PendingPublish = match session.offline_queue.pop_front() {
            Some(queued) => queued.pending,
            None => break,
        };
        proof {
            assert(session.deep_view().offline_queue =~= before.offline_queue.drop_first());
            free_id_ignores_queue(
                before,
                before.offline_queue.drop_first(),
                before.next_packet_id,
                IDENTIFIER_TRIES as nat,
            );
        }
        if is_message_expired(pending.expires_at_ms, now_ms) {
            continue;
        }
        let mut publish: PublishPacket = pending.packet;
        if publish.qos == QoS::AtMostOnce {
            publish.packet_id = None;
            if fits_maximum_packet_size(&publish, maximum_packet_size) {
                let ghost view = publish.deep_view();
                sent.push(publish);
                assert(sent.deep_view() =~= collected.push(view));
            }
            continue;
        }
        let id: u16 = match next_packet_id(session) {
            Some(id) => id,
            None => break,
        };
        publish.packet_id = Some(id);
        if fits_maximum_packet_size(&publish, maximum_packet_size) {
            let ghost view = publish.deep_view();
            put_outbound(session, id, publish.dup(), pending.expires_at_ms);
            sent.push(publish);
            assert(sent.deep_view() =~= collected.push(view));
        }
    }
    sent
}

/// The publications in flight that have not expired.
pub open spec fn live(outbound: Map<u16, PendingView>, now_ms: u64) -> Map<u16, PendingView> {
    Map::new(
        |id: u16| outbound.dom().contains(id) && !expired(outbound[id].expires_at_ms, now_ms),
        |id: u16| outbound[id],
    )
}

/// Drops the publications in flight that have expired.
fn drop_expired(outbound: &mut OrderedMap<u16, PendingPublish>, now_ms: u64)
    ensures
        final(outbound).deep_view() == live(old(outbound).deep_view(), now_ms),
{
    let ghost start = outbound.deep_view();
    let mut count: usize = outbound.len();
    let mut index: usize = 0;
    while index < count
        invariant
            index <= count == outbound.entries().len(),
            ascending::<u16, PendingView>(outbound.entries()),
            forall|i: int|
                0 <= i < index ==> !expired(
                    (#[trigger] outbound.entries()[i]).1.expires_at_ms,
                    now_ms,
                ),
            forall|id: u16| #[trigger]
                outbound.deep_view().dom().contains(id) ==> start.dom().contains(id)
                    && outbound.deep_view()[id] == start[id],
            forall|id: u16| #[trigger]
                start.dom().contains(id) && !expired(start[id].expires_at_ms, now_ms)
                    ==> outbound.deep_view().dom().contains(id),
        decreases count - index,
    {
        let ghost entries = outbound.entries();
        let id: u16 = *outbound.key_at(index);
        if is_message_expired(outbound.value_at(index).expires_at_ms, now_ms) {
            outbound.remove_at(index);
            proof {
                let after = outbound.entries();
                assert forall|i: int| 0 <= i < index implies !expired(
                    (#[trigger] after[i]).1.expires_at_ms,
                    now_ms,
                ) by {
                    assert(after[i] == entries[i]);
                }
            }
        } else {
            index += 1;
        }
        count = outbound.len();
    }
    proof {
        let left = outbound.deep_view();
        let entries = outbound.entries();
        assert forall|id: u16| #[trigger] left.dom().contains(id) implies !expired(
            left[id].expires_at_ms,
            now_ms,
        ) by {
            key_has_entry(entries, id);
        }
        assert(left =~= live(start, now_ms));
    }
}

/// What is sent again of some publications in flight: each that fits, marked as sent before.
pub open spec fn resent(
    entries: Seq<(u16, PendingView)>,
    maximum_packet_size: u32,
) -> Seq<PublishView>
    decreases entries.len(),
{
    if entries.len() == 0 {
        Seq::empty()
    } else {
        let front = resent(entries.drop_last(), maximum_packet_size);
        let publish = PublishView {
            dup: true,
            packet_id: Some(entries.last().0),
            ..entries.last().1.packet
        };
        if fits_size(publish, maximum_packet_size) {
            front.push(publish)
        } else {
            front
        }
    }
}

/// The publications in flight, those with QoS 1 first, by identifier.
pub open spec fn in_flight_entries(session: SessionView) -> Seq<(u16, PendingView)> {
    entries_of::<u16, PendingView>(session.outbound_qos1) + entries_of::<u16, PendingView>(
        session.outbound_qos2_publish,
    )
}

/// The session without the publications in flight that have expired.
pub open spec fn without_stale(session: SessionView, now_ms: u64) -> SessionView {
    SessionView {
        outbound_qos1: live(session.outbound_qos1, now_ms),
        outbound_qos2_publish: live(session.outbound_qos2_publish, now_ms),
        ..session
    }
}

/// What is sent again to a client: as many of the publications in flight as it accepts.
pub open spec fn resent_to(
    session: SessionView,
    receive_maximum: u16,
    maximum_packet_size: u32,
) -> Seq<PublishView> {
    let entries = in_flight_entries(session);
    let count = if entries.len() < receive_maximum {
        entries.len() as int
    } else {
        receive_maximum as int
    };
    resent(entries.take(count), maximum_packet_size)
}

/// Drops the publications in flight that have expired, and sends the others again.
pub fn resend_in_flight(
    session: &mut SessionEntry,
    receive_maximum: u16,
    maximum_packet_size: u32,
    now_ms: u64,
) -> (result: Vec<PublishPacket>)
    ensures
        final(session).deep_view() == without_stale(old(session).deep_view(), now_ms),
        result.deep_view() == resent_to(
            final(session).deep_view(),
            receive_maximum,
            maximum_packet_size,
        ),
{
    drop_expired(&mut session.outbound_qos1, now_ms);
    drop_expired(&mut session.outbound_qos2_publish, now_ms);
    let qos1: usize = session.outbound_qos1.len();
    let qos2: usize = session.outbound_qos2_publish.len();
    proof {
        few_identifiers(session.outbound_qos1.entries());
        few_identifiers(session.outbound_qos2_publish.entries());
    }
    let ghost entries = in_flight_entries(session.deep_view());
    let count: usize = if qos1 + qos2 < receive_maximum as usize {
        qos1 + qos2
    } else {
        receive_maximum as usize
    };
    let mut result: Vec<PublishPacket> = Vec::new();
    let mut index: usize = 0;
    assert(result.deep_view() =~= resent(entries.take(0), maximum_packet_size));
    while index < count
        invariant
            index <= count <= entries.len(),
            entries == in_flight_entries(session.deep_view()),
            qos1 == session.outbound_qos1.entries().len(),
            qos2 == session.outbound_qos2_publish.entries().len(),
            entries == session.outbound_qos1.entries() + session.outbound_qos2_publish.entries(),
            result.deep_view() == resent(entries.take(index as int), maximum_packet_size),
        decreases count - index,
    {
        let ghost before = result.deep_view();
        let id: u16 = if index < qos1 {
            *session.outbound_qos1.key_at(index)
        } else {
            *session.outbound_qos2_publish.key_at(index - qos1)
        };
        let mut publish: PublishPacket = if index < qos1 {
            session.outbound_qos1.value_at(index).packet.dup()
        } else {
            session.outbound_qos2_publish.value_at(index - qos1).packet.dup()
        };
        publish.dup = true;
        publish.packet_id = Some(id);
        proof {
            assert(entries.take(index + 1).drop_last() =~= entries.take(index as int));
            assert(entries.take(index + 1).last() == entries[index as int]);
        }
        if fits_maximum_packet_size(&publish, maximum_packet_size) {
            let ghost view = publish.deep_view();
            result.push(publish);
            assert(result.deep_view() =~= before.push(view));
        }
        index += 1;
    }
    result
}

} // verus!
