//! What is sent again, who is removed for silence, and how what is sent is sorted.
use vstd::prelude::*;

use crate::acknowledgement_laws::has_session;
use crate::broker::disconnected;
use crate::broker::silent_removed;
use crate::copy_laws::small_enough;
use crate::delivery::DeliveryView;
use crate::flush::delivered_to;
use crate::handling_laws::all_well;
use crate::inflight::in_flight_entries;
use crate::inflight::resent;
use crate::inflight::resent_to;
use crate::inflight::without_stale;
use crate::message::PendingView;
use crate::ordered_map::entries_of;
use crate::ordered_map::key_has_entry;
use crate::ordered_map::key_index;
use crate::ordered_map::map_of_entry;
use crate::packet::PacketView;
use crate::packet::PublishView;
use crate::packet::SubAckView;
use crate::publication_laws::sent_to;
use crate::reconnect_laws::identifiers_listed;
use crate::routing::release_to;
use crate::routing::retransmitted;
use crate::session::ClientEntryView;
use crate::session::SessionView;
use crate::session::StateView;
use crate::storage::patch_codec::unit_map;
use crate::write::WriteView;
use crate::write::suback_form;

verus! {

/// What has expired in flight is dropped; nothing else of a session changes.
pub proof fn stale_is_dropped(session: SessionView, now_ms: u64, id: u16)
    ensures
        ({
            let after = without_stale(session, now_ms);
            let first = session.outbound_qos1[id].expires_at_ms;
            let second = session.outbound_qos2_publish[id].expires_at_ms;
            &&& after.outbound_qos1.dom().contains(id) <==> session.outbound_qos1.dom().contains(id)
                && (first matches Some(at) ==> at > now_ms)
            &&& after.outbound_qos1.dom().contains(id) ==> after.outbound_qos1[id]
                == session.outbound_qos1[id]
            &&& after.outbound_qos2_publish.dom().contains(id)
                <==> session.outbound_qos2_publish.dom().contains(id) && (second matches Some(at)
                ==> at > now_ms)
            &&& after.outbound_qos2_publish.dom().contains(id) ==> after.outbound_qos2_publish[id]
                == session.outbound_qos2_publish[id]
            &&& after == (SessionView {
                outbound_qos1: after.outbound_qos1,
                outbound_qos2_publish: after.outbound_qos2_publish,
                ..session
            })
        }),
{
}

/// A packet is one that is in flight in a session, sent again: marked as such, under its
/// identifier.
pub open spec fn sent_again(session: SessionView, copy: PublishView, id: u16) -> bool {
    let first = PublishView {
        dup: true,
        packet_id: Some(id),
        ..session.outbound_qos1[id].packet
    };
    let second = PublishView {
        dup: true,
        packet_id: Some(id),
        ..session.outbound_qos2_publish[id].packet
    };
    (session.outbound_qos1.dom().contains(id) && copy == first) || (
    session.outbound_qos2_publish.dom().contains(id) && copy == second)
}

proof fn resent_are_entries(entries: Seq<(u16, PendingView)>, limit: u32, index: int) -> (at: int)
    requires
        0 <= index < resent(entries, limit).len(),
    ensures
        0 <= at < entries.len(),
        resent(entries, limit)[index] == (PublishView {
            dup: true,
            packet_id: Some(entries[at].0),
            ..entries[at].1.packet
        }),
        small_enough(resent(entries, limit)[index], limit),
        resent(entries, limit).len() <= entries.len(),
    decreases entries.len(),
{
    let front = entries.drop_last();
    let before = resent(front, limit);
    if index < before.len() {
        let at = resent_are_entries(front, limit, index);
        assert(front[at] == entries[at]);
        at
    } else {
        if before.len() > 0 {
            let _ = resent_are_entries(front, limit, 0);
        }
        entries.len() - 1
    }
}

/// What a session sends again is what it has in flight, marked as sent again and under its
/// identifier; no more of it than the client takes at a time, and nothing that is too large for the
/// client.
pub proof fn only_what_is_in_flight_is_sent_again(
    session: SessionView,
    receive_maximum: u16,
    limit: u32,
    index: int,
)
    requires
        0 <= index < resent_to(session, receive_maximum, limit).len(),
    ensures
        resent_to(session, receive_maximum, limit).len() <= receive_maximum,
        small_enough(resent_to(session, receive_maximum, limit)[index], limit),
        exists|id: u16| #[trigger]
            sent_again(session, resent_to(session, receive_maximum, limit)[index], id),
{
    identifiers_listed(session.outbound_qos1, 65_536);
    identifiers_listed(session.outbound_qos2_publish, 65_536);
    let first = entries_of::<u16, PendingView>(session.outbound_qos1);
    let second = entries_of::<u16, PendingView>(session.outbound_qos2_publish);
    let entries = in_flight_entries(session);
    let count = if entries.len() < receive_maximum {
        entries.len() as int
    } else {
        receive_maximum as int
    };
    let part = entries.take(count);
    let copy = resent_to(session, receive_maximum, limit)[index];
    let at = resent_are_entries(part, limit, index);
    let id = part[at].0;
    if at < first.len() {
        assert(part[at] == first[at]);
        map_of_entry::<u16, PendingView>(first, at);
    } else {
        assert(part[at] == second[at - first.len()]);
        map_of_entry::<u16, PendingView>(second, at - first.len());
    }
    assert(sent_again(session, copy, id));
}

/// On the timer a client is sent again what it has in flight, and a release for each publication
/// that waits to be completed; what has expired is dropped, and nothing else changes. To a
/// connection without a client or without a session nothing is sent.
pub proof fn retransmission_repeats_what_is_open(
    state: StateView,
    connection_id: u64,
    now_ms: u64,
)
    ensures
        ({
            let (after, sent) = retransmitted(state, connection_id, now_ms);
            let client = state.clients[connection_id];
            let kept = without_stale(state.sessions[client.client_id], now_ms);
            let again = resent_to(kept, client.receive_maximum, client.maximum_packet_size);
            &&& !has_session(state, connection_id) ==> after == state && sent is None
            &&& has_session(state, connection_id) ==> {
                &&& after == (StateView {
                    sessions: state.sessions.insert(client.client_id, kept),
                    ..state
                })
                &&& sent matches Some(list) && {
                    &&& again.len() <= list.len()
                    &&& forall|i: int|
                        0 <= i < again.len() ==> #[trigger] list[i] == sent_to(
                            connection_id,
                            again[i],
                        )
                    &&& forall|i: int|
                        again.len() <= i < list.len() ==> exists|id: u16|
                            #![trigger all_well(id)]
                            kept.outbound_qos2_pubrel.contains(id) && #[trigger] list[i] == (
                            DeliveryView {
                                connection_id,
                                packet: WriteView::Packet(PacketView::PubRel(all_well(id))),
                            })
                    &&& forall|id: u16| #[trigger]
                        kept.outbound_qos2_pubrel.contains(id) ==> list.contains(
                            DeliveryView {
                                connection_id,
                                packet: WriteView::Packet(PacketView::PubRel(all_well(id))),
                            },
                        )
                }
            }
        }),
{
    if has_session(state, connection_id) {
        let client = state.clients[connection_id];
        let kept = without_stale(state.sessions[client.client_id], now_ms);
        let again = resent_to(kept, client.receive_maximum, client.maximum_packet_size);
        let ids = entries_of::<u16, ()>(unit_map(kept.outbound_qos2_pubrel));
        let list = retransmitted(state, connection_id, now_ms).1->0;
        assert forall|i: int| again.len() <= i < list.len() implies exists|id: u16|
            #![trigger all_well(id)]
            kept.outbound_qos2_pubrel.contains(id) && #[trigger] list[i] == (DeliveryView {
                connection_id,
                packet: WriteView::Packet(PacketView::PubRel(all_well(id))),
            }) by {
            let k = i - again.len();
            let id = ids[k].0;
            assert(list[i] == release_to(connection_id, id));
            released_ids_are_known(kept.outbound_qos2_pubrel, k);
            assert(list[i].packet == WriteView::Packet(PacketView::PubRel(all_well(id))));
        }
        assert forall|id: u16| #[trigger]
            kept.outbound_qos2_pubrel.contains(id) implies list.contains(
            DeliveryView {
                connection_id,
                packet: WriteView::Packet(PacketView::PubRel(all_well(id))),
            },
        ) by {
            identifiers_listed(unit_map(kept.outbound_qos2_pubrel), 65_536);
            assert(unit_map(kept.outbound_qos2_pubrel).dom().contains(id));
            key_has_entry(ids, id);
            let k = key_index(ids, id);
            assert(list[again.len() + k] == release_to(connection_id, id));
        }
    }
}

proof fn released_ids_are_known(ids: Set<u16>, index: int)
    requires
        0 <= index < entries_of::<u16, ()>(unit_map(ids)).len(),
    ensures
        ids.contains(entries_of::<u16, ()>(unit_map(ids))[index].0),
{
    let entries = entries_of::<u16, ()>(unit_map(ids));
    identifiers_listed(unit_map(ids), 65_536);
    map_of_entry::<u16, ()>(entries, index);
    assert(unit_map(ids).dom().contains(entries[index].0));
}

/// A client is silent at a moment: it is watched, and the moment until which it had to be heard
/// from has come.
pub open spec fn fell_silent(client: ClientEntryView, now_ms: u64) -> bool {
    client.keep_alive_deadline_ms > 0 && now_ms >= client.keep_alive_deadline_ms
}

/// The silent clients are removed and named, each with its will, and no others; the removal of each
/// is the end of its connection.
pub proof fn silent_clients_are_named(
    state: StateView,
    entries: Seq<(u64, ClientEntryView)>,
    now_ms: u64,
)
    ensures
        ({
            let (after, named) = silent_removed(state, entries, now_ms);
            &&& entries.len() == 0 ==> after == state && named.len() == 0
            &&& entries.len() > 0 ==> {
                let (connection_id, client) = entries.last();
                let before = silent_removed(state, entries.drop_last(), now_ms);
                &&& fell_silent(client, now_ms) ==> {
                    &&& after == disconnected(before.0, connection_id, now_ms)
                    &&& named.drop_last() == before.1
                    &&& named.len() == before.1.len() + 1
                    &&& named.last().connection_id == connection_id
                    &&& named.last().will == client.will
                }
                &&& !fell_silent(client, now_ms) ==> after == before.0 && named == before.1
            }
        }),
{
    let named = silent_removed(state, entries, now_ms).1;
    if entries.len() > 0 {
        let before = silent_removed(state, entries.drop_last(), now_ms);
        if fell_silent(entries.last().1, now_ms) {
            assert(named.drop_last() =~= before.1);
        }
    }
}

/// What is sent is sorted into what goes to one connection and what goes to others: all of it, each
/// item once, and in order.
pub proof fn deliveries_are_sorted(
    deliveries: Seq<DeliveryView>,
    connection_id: u64,
    own: bool,
)
    ensures
        delivered_to(deliveries, connection_id, own) == deliveries.filter(
            |delivery: DeliveryView| (delivery.connection_id == connection_id) == own,
        ),
    decreases deliveries.len(),
{
    reveal(Seq::filter);
    if deliveries.len() > 0 {
        deliveries_are_sorted(deliveries.drop_last(), connection_id, own);
    }
}

/// An answer with one code and nothing to explain is written as six bytes, which name the packet,
/// its length, its identifier and the code; any other answer as a packet.
pub proof fn answers_are_written(packet: SubAckView)
    ensures
        match suback_form(packet) {
            WriteView::Preencoded(bytes, quality) => {
                &&& packet.reason_codes.len() == 1
                &&& packet.properties.len() == 0
                &&& quality is None
                &&& bytes.len() == 6
                &&& bytes[0] == 0x90
                &&& bytes[1] == 4
                &&& bytes[2] * 256 + bytes[3] == packet.packet_id
                &&& bytes[4] == 0
                &&& bytes[5] == packet.reason_codes[0]
            },
            WriteView::Packet(written) => {
                &&& written == PacketView::SubAck(packet)
                &&& packet.reason_codes.len() != 1 || packet.properties.len() > 0
            },
        },
{
}

} // verus!
