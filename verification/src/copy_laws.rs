//! What a subscriber is sent of a publication, and what is kept of it.
use vstd::arithmetic::div_mod::lemma_fundamental_div_mod;
use vstd::arithmetic::div_mod::lemma_fundamental_div_mod_converse_mod;
use vstd::prelude::*;

use crate::delivery::after_offline;
use crate::inflight::DeliveryTarget;
use crate::inflight::DeliveryTerms;
use crate::inflight::IDENTIFIER_TRIES;
use crate::inflight::delivered;
use crate::inflight::free_from;
use crate::inflight::free_id;
use crate::inflight::free_id_exists;
use crate::inflight::free_id_is_free;
use crate::inflight::free_id_is_not_zero;
use crate::inflight::next_id;
use crate::inflight::queued;
use crate::inflight::used_id;
use crate::message::PendingView;
use crate::message::expiry_of;
use crate::mqtt_codec::outgoing;
use crate::netty::mqtt_encoding;
use crate::packet::PacketView;
use crate::packet::PropertyView;
use crate::packet::PublishView;
use crate::packet::QoS;
use crate::packet::lower_qos;
use crate::session::SessionView;
use crate::session::StateView;
use crate::subscription::EntryView;

verus! {

/// A packet is one that can be written to a client that takes no more than some bytes.
pub open spec fn small_enough(packet: PublishView, limit: u32) -> bool {
    mqtt_encoding(PacketView::Publish(packet), 268_435_455) matches Ok(bytes) && bytes.len()
        <= limit
}

/// What has been published with one quality of service for one that asked for another has the
/// lesser of the two.
pub open spec fn shared_quality(published: QoS, granted: QoS) -> QoS {
    if published == QoS::AtMostOnce || granted == QoS::AtMostOnce {
        QoS::AtMostOnce
    } else if published == QoS::AtLeastOnce || granted == QoS::AtLeastOnce {
        QoS::AtLeastOnce
    } else {
        QoS::ExactlyOnce
    }
}

/// A packet carries a message: its topic, its payload, its properties and behind them the
/// identifier of the subscription, where it has one.
pub open spec fn carries(
    packet: PublishView,
    topic: Seq<char>,
    payload: Seq<u8>,
    properties: Seq<PropertyView>,
    identifier: Option<u32>,
) -> bool {
    &&& packet.topic_name == topic
    &&& packet.payload == payload
    &&& identifier is None ==> packet.properties == properties
    &&& identifier matches Some(number) ==> {
        &&& packet.properties.len() == properties.len() + 1
        &&& packet.properties.last() == PropertyView::SubscriptionIdentifier(number)
        &&& packet.properties.drop_last() == properties
    }
}

/// A packet is what goes out of a publication: the message itself, for the first time, with the
/// lesser quality of service, and marked as retained or not; under an identifier where it is to be
/// acknowledged and is sent.
pub open spec fn is_copy(
    copy: PublishView,
    packet: PublishView,
    maximum_qos: QoS,
    retain: bool,
    identifier: Option<u32>,
) -> bool {
    &&& carries(copy, packet.topic_name, packet.payload, packet.properties, identifier)
    &&& !copy.dup
    &&& copy.retain == retain
    &&& copy.qos == shared_quality(packet.qos, maximum_qos)
}

/// A packet is what goes out of a publication for a subscription: marked as retained only where it
/// was published so and the subscription asks to be told.
pub open spec fn is_copy_for(copy: PublishView, packet: PublishView, entry: EntryView) -> bool {
    is_copy(
        copy,
        packet,
        entry.options.maximum_qos,
        packet.retain && entry.options.retain_as_published,
        entry.subscription_identifier,
    )
}

/// There is a packet that goes out of a publication, under an identifier or none.
pub proof fn copy_exists(
    packet: PublishView,
    maximum_qos: QoS,
    retain: bool,
    identifier: Option<u32>,
    packet_id: Option<u16>,
)
    ensures
        ({
            let copy = outgoing(
                packet,
                lower_qos(packet.qos, maximum_qos),
                retain,
                packet_id,
                false,
                identifier,
            );
            &&& is_copy(copy, packet, maximum_qos, retain, identifier)
            &&& copy.packet_id == packet_id
        }),
{
    if let Some(number) = identifier {
        let longer = packet.properties.push(PropertyView::SubscriptionIdentifier(number));
        assert(longer.drop_last() =~= packet.properties);
    }
}

/// There is just one packet that goes out of a publication under an identifier or none.
pub proof fn copy_is_one(
    first: PublishView,
    second: PublishView,
    packet: PublishView,
    maximum_qos: QoS,
    retain: bool,
    identifier: Option<u32>,
)
    requires
        is_copy(first, packet, maximum_qos, retain, identifier),
        is_copy(second, packet, maximum_qos, retain, identifier),
        first.packet_id == second.packet_id,
    ensures
        first == second,
{
    if identifier is Some {
        assert(first.properties =~= first.properties.drop_last().push(first.properties.last()));
        assert(second.properties =~= second.properties.drop_last().push(
            second.properties.last(),
        ));
    }
}

/// An identifier is in use by a session: something is in flight under it, or waits to be completed.
pub open spec fn taken(session: SessionView, id: u16) -> bool {
    session.outbound_qos1.dom().contains(id) || session.outbound_qos2_publish.dom().contains(id)
        || session.outbound_qos2_pubrel.contains(id)
}

/// An identifier so many steps behind another, where after the last comes the first.
pub open spec fn steps_behind(id: u16, steps: nat) -> int {
    (id - 1 + steps) % 65_535 + 1
}

/// An identifier is the first that a session does not use, from the one whose turn it is.
pub open spec fn first_free(session: SessionView, id: u16) -> bool {
    exists|steps: nat|
        id == #[trigger] steps_behind(session.next_packet_id, steps) && !taken(session, id)
            && forall|less: nat|
            less < steps ==> taken(session, #[trigger] steps_behind(
                session.next_packet_id,
                less,
            ) as u16)
}

proof fn free_from_is_first(session: SessionView, id: u16, steps: nat, tries: nat)
    requires
        session.next_packet_id != 0,
        id == steps_behind(session.next_packet_id, steps),
        forall|less: nat|
            less < steps ==> taken(
                session,
                #[trigger] steps_behind(session.next_packet_id, less) as u16,
            ),
    ensures
        free_from(session, id, tries) matches Some(found) ==> first_free(session, found),
    decreases tries,
{
    if tries > 0 {
        if used_id(session, id) {
            assert(next_id(id) == steps_behind(session.next_packet_id, steps + 1)) by {
                let start = session.next_packet_id - 1 + steps;
                assert(0 <= start % 65_535 < 65_535);
                assert((start + 1) % 65_535 == (if start % 65_535 == 65_534 {
                    0
                } else {
                    start % 65_535 + 1
                })) by {
                    lemma_fundamental_div_mod(start, 65_535);
                    let q = start / 65_535;
                    let r = start % 65_535;
                    if r == 65_534 {
                        lemma_fundamental_div_mod_converse_mod(start + 1, 65_535, q + 1, 0);
                    } else {
                        lemma_fundamental_div_mod_converse_mod(start + 1, 65_535, q, r + 1);
                    }
                }
            }
            assert forall|less: nat| less < steps + 1 implies taken(
                session,
                #[trigger] steps_behind(session.next_packet_id, less) as u16,
            ) by {
                if less == steps {
                    assert(steps_behind(session.next_packet_id, less) as u16 == id);
                }
            }
            free_from_is_first(session, next_id(id), steps + 1, (tries - 1) as nat);
        } else {
            assert(!taken(session, id));
        }
    }
}

/// A session hands out the first identifier that it does not use, from the one whose turn it is,
/// and none where it uses them all.
pub proof fn first_free_identifier_is_found(session: SessionView)
    requires
        session.next_packet_id != 0,
    ensures
        free_id(session) matches Some(id) ==> first_free(session, id) && id != 0 && !taken(
            session,
            id,
        ),
        free_id(session) is None <==> (forall|id: u16| id != 0 ==> #[trigger] taken(session, id)),
{
    let start = session.next_packet_id;
    assert(steps_behind(start, 0) == start) by {
        lemma_fundamental_div_mod_converse_mod(start - 1, 65_535, 0, start - 1);
    }
    free_from_is_first(session, start, 0, IDENTIFIER_TRIES as nat);
    free_id_is_not_zero(session, start, IDENTIFIER_TRIES as nat);
    free_id_is_free(session, start, IDENTIFIER_TRIES as nat);
    if let Some(id) = free_id(session) {
        assert(!taken(session, id));
    }
    if !(forall|id: u16| id != 0 ==> #[trigger] taken(session, id)) {
        let free = choose|id: u16| id != 0 && !#[trigger] taken(session, id);
        assert(!used_id(session, free));
        free_id_exists(session, free);
    }
}

/// A session after something was put at the end of its queue, and nothing else.
pub open spec fn put_at_end(
    before: SessionView,
    after: SessionView,
    packet: PublishView,
    expires_at_ms: Option<u64>,
) -> bool {
    &&& after.offline_queue.len() == before.offline_queue.len() + 1
    &&& forall|i: int|
        0 <= i < before.offline_queue.len() ==> #[trigger] after.offline_queue[i]
            == before.offline_queue[i]
    &&& after.offline_queue.last().pending.packet == packet
    &&& after.offline_queue.last().pending.expires_at_ms == expires_at_ms
    &&& after.offline_queue.last().sequence == before.next_offline_sequence
    &&& after.next_offline_sequence == before.next_offline_sequence + 1
    &&& after.next_packet_id == before.next_packet_id
    &&& after.outbound_qos1 == before.outbound_qos1
    &&& after.outbound_qos2_publish == before.outbound_qos2_publish
    &&& after.outbound_qos2_pubrel == before.outbound_qos2_pubrel
    &&& after.expires_at_ms == before.expires_at_ms
    &&& after.session_expiry_interval == before.session_expiry_interval
}

/// What is put at the end of a session's queue is put there while the queue has room and numbers
/// are left, and the session is not touched otherwise.
pub proof fn queue_takes_while_it_has_room(
    session: SessionView,
    packet: PublishView,
    expires_at_ms: Option<u64>,
    room: usize,
)
    ensures
        match queued(session, packet, expires_at_ms, room) {
            Some(next) => {
                &&& session.offline_queue.len() < room
                &&& session.next_offline_sequence < 0x7fff_ffff_ffff_ffff
                &&& put_at_end(session, next, packet, expires_at_ms)
            },
            None => session.offline_queue.len() >= room || session.next_offline_sequence
                >= 0x7fff_ffff_ffff_ffff,
        },
{
}

/// A session after something was sent under an identifier and is now in flight, and nothing else.
pub open spec fn put_in_flight(
    before: SessionView,
    after: SessionView,
    packet: PublishView,
    expires_at_ms: Option<u64>,
    id: u16,
) -> bool {
    &&& packet.packet_id == Some(id)
    &&& packet.qos == QoS::AtLeastOnce ==> {
        &&& after.outbound_qos1.dom() == before.outbound_qos1.dom().insert(id)
        &&& after.outbound_qos1[id] == (PendingView { packet, expires_at_ms })
        &&& forall|other: u16| #[trigger]
            before.outbound_qos1.dom().contains(other) && other != id
                ==> after.outbound_qos1[other] == before.outbound_qos1[other]
        &&& after.outbound_qos2_publish == before.outbound_qos2_publish
    }
    &&& packet.qos == QoS::ExactlyOnce ==> {
        &&& after.outbound_qos2_publish.dom() == before.outbound_qos2_publish.dom().insert(id)
        &&& after.outbound_qos2_publish[id] == (PendingView { packet, expires_at_ms })
        &&& forall|other: u16| #[trigger]
            before.outbound_qos2_publish.dom().contains(other) && other != id
                ==> after.outbound_qos2_publish[other] == before.outbound_qos2_publish[other]
        &&& after.outbound_qos1 == before.outbound_qos1
    }
    &&& after.outbound_qos2_pubrel == before.outbound_qos2_pubrel
    &&& after.offline_queue == before.offline_queue
    &&& after.next_offline_sequence == before.next_offline_sequence
    &&& after.expires_at_ms == before.expires_at_ms
    &&& after.session_expiry_interval == before.session_expiry_interval
    &&& after.next_packet_id == if id == 65_535 {
        1
    } else {
        id + 1
    }
}

/// What has expired goes nowhere.
pub proof fn expired_goes_nowhere(
    session: SessionView,
    target: DeliveryTarget,
    packet: PublishView,
    terms: DeliveryTerms,
    now_ms: u64,
)
    requires
        terms.expires_at_ms matches Some(at) && at <= now_ms,
    ensures
        delivered(session, target, packet, terms, now_ms) == (session, None::<PublishView>),
{
}

/// What needs no acknowledgement is sent at once, if it is not too large for the client, and leaves
/// nothing behind.
pub proof fn unacknowledged_is_sent_at_once(
    session: SessionView,
    target: DeliveryTarget,
    packet: PublishView,
    terms: DeliveryTerms,
    now_ms: u64,
    copy: PublishView,
)
    requires
        terms.expires_at_ms matches Some(at) ==> at > now_ms,
        packet.qos == QoS::AtMostOnce || terms.maximum_qos == QoS::AtMostOnce,
        is_copy(copy, packet, terms.maximum_qos, terms.retain, terms.subscription_identifier),
        copy.packet_id is None,
    ensures
        ({
            let outcome = delivered(session, target, packet, terms, now_ms);
            &&& outcome.0 == session
            &&& outcome.1 == (if small_enough(copy, target.maximum_packet_size) {
                Some(copy)
            } else {
                None
            })
        }),
{
    let plain = outgoing(
        packet,
        lower_qos(packet.qos, terms.maximum_qos),
        terms.retain,
        None,
        false,
        terms.subscription_identifier,
    );
    copy_exists(packet, terms.maximum_qos, terms.retain, terms.subscription_identifier, None);
    copy_is_one(
        copy,
        plain,
        packet,
        terms.maximum_qos,
        terms.retain,
        terms.subscription_identifier,
    );
}

/// A client has as much in flight as it takes, or no identifier is left to send under.
pub open spec fn has_its_fill(session: SessionView, receive_maximum: u16) -> bool {
    session.outbound_qos1.len() + session.outbound_qos2_publish.len() >= receive_maximum || forall|
        id: u16,
    |
        id != 0 ==> #[trigger] taken(session, id)
}

/// Something was sent under an identifier and is in flight; or it is too large for the client under
/// that identifier, and is dropped.
pub open spec fn sent_under(
    session: SessionView,
    target: DeliveryTarget,
    packet: PublishView,
    terms: DeliveryTerms,
    outcome: (SessionView, Option<PublishView>),
    id: u16,
) -> bool {
    if outcome.1 is Some {
        let sent = outcome.1->0;
        &&& is_copy(sent, packet, terms.maximum_qos, terms.retain, terms.subscription_identifier)
        &&& small_enough(sent, target.maximum_packet_size)
        &&& put_in_flight(session, outcome.0, sent, terms.expires_at_ms, id)
    } else {
        &&& forall|copy: PublishView| #[trigger]
            is_copy(copy, packet, terms.maximum_qos, terms.retain, terms.subscription_identifier)
                && copy.packet_id == Some(id) ==> !small_enough(copy, target.maximum_packet_size)
        &&& outcome.0 == (SessionView { next_packet_id: outcome.0.next_packet_id, ..session })
        &&& outcome.0.next_packet_id == if id == 65_535 {
            1
        } else {
            id + 1
        }
    }
}

/// What needs an acknowledgement is sent to a client that takes more and is then in flight, under
/// the first identifier that is free; if it is too large for the client, it is dropped.
pub proof fn acknowledged_is_put_in_flight(
    session: SessionView,
    target: DeliveryTarget,
    packet: PublishView,
    terms: DeliveryTerms,
    now_ms: u64,
)
    requires
        session.next_packet_id != 0,
        terms.expires_at_ms matches Some(at) ==> at > now_ms,
        packet.qos != QoS::AtMostOnce,
        terms.maximum_qos != QoS::AtMostOnce,
        !has_its_fill(session, target.receive_maximum),
    ensures
        ({
            let outcome = delivered(session, target, packet, terms, now_ms);
            exists|id: u16| #[trigger]
                first_free(session, id) && sent_under(session, target, packet, terms, outcome, id)
        }),
{
    first_free_identifier_is_found(session);
    let id = free_id(session)->0;
    let outcome = delivered(session, target, packet, terms, now_ms);
    let publish = outgoing(
        packet,
        lower_qos(packet.qos, terms.maximum_qos),
        terms.retain,
        Some(id),
        false,
        terms.subscription_identifier,
    );
    copy_exists(packet, terms.maximum_qos, terms.retain, terms.subscription_identifier, Some(id));
    assert(first_free(session, id));
    if outcome.1 is None {
        assert forall|copy: PublishView| #[trigger]
            is_copy(
                copy,
                packet,
                terms.maximum_qos,
                terms.retain,
                terms.subscription_identifier,
            ) && copy.packet_id == Some(id) implies !small_enough(
            copy,
            target.maximum_packet_size,
        ) by {
            copy_is_one(
                copy,
                publish,
                packet,
                terms.maximum_qos,
                terms.retain,
                terms.subscription_identifier,
            );
        }
    }
}

/// What needs an acknowledgement waits for a client that has its fill, while the queue has room,
/// and is dropped otherwise; nothing is sent.
pub proof fn acknowledged_waits_its_turn(
    session: SessionView,
    target: DeliveryTarget,
    packet: PublishView,
    terms: DeliveryTerms,
    now_ms: u64,
)
    requires
        session.next_packet_id != 0,
        terms.expires_at_ms matches Some(at) ==> at > now_ms,
        packet.qos != QoS::AtMostOnce,
        terms.maximum_qos != QoS::AtMostOnce,
        has_its_fill(session, target.receive_maximum),
    ensures
        ({
            let outcome = delivered(session, target, packet, terms, now_ms);
            &&& outcome.1 is None
            &&& if session.offline_queue.len() < terms.max_offline_queue_len
                && session.next_offline_sequence < 0x7fff_ffff_ffff_ffff {
                let copy = outcome.0.offline_queue.last().pending.packet;
                &&& put_at_end(session, outcome.0, copy, terms.expires_at_ms)
                &&& is_copy(
                    copy,
                    packet,
                    terms.maximum_qos,
                    terms.retain,
                    terms.subscription_identifier,
                )
                &&& copy.packet_id is None
            } else {
                outcome.0 == session
            }
        }),
{
    first_free_identifier_is_found(session);
    copy_exists(packet, terms.maximum_qos, terms.retain, terms.subscription_identifier, None);
}

/// A publication waits for a client that is not connected and whose session outlasts connections,
/// if it needs an acknowledgement and has not expired, while the queue has room; nothing else
/// changes.
pub proof fn publication_waits_for_absent_client(
    state: StateView,
    entry: EntryView,
    packet: PublishView,
    room: usize,
    now_ms: u64,
)
    ensures
        ({
            let after = after_offline(state, entry, packet, room, now_ms);
            let session = state.sessions[entry.client_id];
            let next = after.sessions[entry.client_id];
            let expires_at_ms = expiry_of(packet.properties, now_ms);
            if state.sessions.dom().contains(entry.client_id) && session.session_expiry_interval
                > 0 && packet.qos != QoS::AtMostOnce && entry.options.maximum_qos
                != QoS::AtMostOnce && (expires_at_ms matches Some(at) ==> at > now_ms)
                && session.offline_queue.len() < room && session.next_offline_sequence
                < 0x7fff_ffff_ffff_ffff {
                let copy = next.offline_queue.last().pending.packet;
                &&& put_at_end(session, next, copy, expires_at_ms)
                &&& is_copy_for(copy, packet, entry)
                &&& copy.packet_id is None
                &&& after == (StateView {
                    sessions: state.sessions.insert(entry.client_id, next),
                    client_changes: after.client_changes,
                    ..state
                })
            } else {
                after == state
            }
        }),
{
    copy_exists(
        packet,
        entry.options.maximum_qos,
        packet.retain && entry.options.retain_as_published,
        entry.subscription_identifier,
        None,
    );
}

} // verus!
