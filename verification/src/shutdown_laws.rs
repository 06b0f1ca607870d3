//! What shutting down comes to.
use vstd::prelude::*;

use crate::broker::BrokerView;
use crate::broker::farewell;
use crate::broker::farewells;
use crate::connection::CloseReason;
use crate::connection::connect_defect;
use crate::delivery::DeliveryView;
use crate::handler::EffectView;
use crate::handler::HandlerView;
use crate::handler::closing;
use crate::handler::handled;
use crate::handler::sending;
use crate::ordered_map::OrderedKey;
use crate::ordered_map::entries_of;
use crate::ordered_map::key_has_entry;
use crate::ordered_map::key_index;
use crate::ordered_map::listed;
use crate::ordered_map::map_of_entry;
use crate::packet::ConnAckView;
use crate::packet::ConnectView;
use crate::packet::DisconnectView;
use crate::packet::PacketView;
use crate::packet::PropertyView;
use crate::protocol::SERVER_SHUTTING_DOWN;
use crate::protocol::SERVER_UNAVAILABLE;
use crate::reason::reason_properties_of;
use crate::session::ClientEntryView;
use crate::write::WriteView;

verus! {

/// The broker once it has begun to shut down.
pub open spec fn shut_down(broker: BrokerView) -> BrokerView {
    BrokerView { shutting_down: true, ..broker }
}

/// The broker after some connections were closed on this side.
pub open spec fn closed_here_all(
    broker: BrokerView,
    connections: Seq<u64>,
    now_ms: u64,
) -> (BrokerView, Seq<EffectView>)
    decreases connections.len(),
{
    if connections.len() == 0 {
        (broker, Seq::empty())
    } else {
        let front = closed_here_all(broker, connections.drop_last(), now_ms);
        let last = closing(
            front.0,
            Some(connections.last()),
            CloseReason::LocalClosed,
            now_ms,
        );
        (last.0, front.1 + last.1)
    }
}

/// Every client that is connected when the broker shuts down is told so, and nobody else is: it is
/// sent one packet, which says that the server is shutting down.
pub proof fn every_client_is_told(broker: BrokerView, connection_id: u64)
    requires
        listed::<u64, ClientEntryView>(broker.state.clients),
    ensures
        ({
            let entries = entries_of::<u64, ClientEntryView>(broker.state.clients);
            let sent = farewells(entries);
            &&& broker.state.clients.dom().contains(connection_id) <==> sent.contains(
                farewell(connection_id),
            )
            &&& forall|i: int, j: int|
                #![trigger sent[i], sent[j]]
                0 <= i < j < sent.len() ==> sent[i].connection_id != sent[j].connection_id
        }),
{
    let entries = entries_of::<u64, ClientEntryView>(broker.state.clients);
    let sent = farewells(entries);
    if broker.state.clients.dom().contains(connection_id) {
        key_has_entry(entries, connection_id);
        let i = key_index(entries, connection_id);
        assert(sent[i] == farewell(connection_id));
    }
    if sent.contains(farewell(connection_id)) {
        let i = choose|i: int| 0 <= i < sent.len() && sent[i] == farewell(connection_id);
        assert(sent[i] == farewell(entries[i].0));
        map_of_entry::<u64, ClientEntryView>(entries, i);
    }
    assert forall|i: int, j: int|
        #![trigger sent[i], sent[j]]
        0 <= i < j < sent.len() implies sent[i].connection_id != sent[j].connection_id by {
        assert(u64::before(entries[i].0, entries[j].0));
    }
}

/// The farewell says that the server is shutting down, and why in words.
pub proof fn farewell_gives_the_reason(connection_id: u64)
    ensures
        farewell(connection_id) == (DeliveryView {
            connection_id,
            packet: WriteView::Packet(
                PacketView::Disconnect(
                    DisconnectView {
                        reason_code: SERVER_SHUTTING_DOWN,
                        properties: seq![PropertyView::ReasonString("server shutting down"@)],
                    },
                ),
            ),
        }),
{
    assert(reason_properties_of(SERVER_SHUTTING_DOWN) =~= seq![
        PropertyView::ReasonString("server shutting down"@),
    ]);
}

/// However many connections are closed on this side while the broker shuts down, no will is
/// published and nothing is sent to anyone; the broker goes on shutting down, and the clients of
/// those connections are gone.
pub proof fn closing_here_publishes_no_will(
    broker: BrokerView,
    connections: Seq<u64>,
    now_ms: u64,
)
    ensures
        ({
            let outcome = closed_here_all(shut_down(broker), connections, now_ms);
            &&& outcome.0.shutting_down
            &&& outcome.0.state.retained == broker.state.retained
            &&& forall|i: int|
                0 <= i < outcome.1.len() ==> (#[trigger] outcome.1[i]) is ConnectionClosed
            &&& forall|connection_id: u64| #[trigger]
                outcome.0.state.clients.dom().contains(connection_id)
                    <==> broker.state.clients.dom().contains(connection_id)
                    && !connections.contains(connection_id)
        }),
    decreases connections.len(),
{
    if connections.len() > 0 {
        let front = connections.drop_last();
        let last = connections.last();
        closing_here_publishes_no_will(broker, front, now_ms);
        let before = closed_here_all(shut_down(broker), front, now_ms);
        let outcome = closed_here_all(shut_down(broker), connections, now_ms);
        assert forall|connection_id: u64| #[trigger]
            outcome.0.state.clients.dom().contains(connection_id) <==> (
        broker.state.clients.dom().contains(connection_id) && !connections.contains(
            connection_id,
        )) by {
            assert(before.0.state.clients.dom().contains(connection_id)
                <==> broker.state.clients.dom().contains(connection_id) && !front.contains(
                connection_id,
            ));
            if front.contains(connection_id) {
                let i = choose|i: int| 0 <= i < front.len() && front[i] == connection_id;
                assert(connections[i] == connection_id);
            }
            if connections.contains(connection_id) && connection_id != last {
                let i = choose|i: int|
                    0 <= i < connections.len() && connections[i] == connection_id;
                assert(front[i] == connection_id);
            }
            assert(connections[connections.len() - 1] == last);
        }
    }
}

/// A client that asks to be let in after the broker has begun to shut down, however many
/// connections were closed since, is told that the server is unavailable, and its connection is
/// closed.
pub proof fn late_client_is_refused(
    broker: BrokerView,
    connections: Seq<u64>,
    handler: HandlerView,
    connection_id: u64,
    packet: ConnectView,
    closed_ms: u64,
    now_ms: u64,
)
    requires
        !handler.connected,
        connect_defect(packet) is None,
    ensures
        ({
            let left = closed_here_all(shut_down(broker), connections, closed_ms).0;
            let outcome = handled(
                handler,
                left,
                connection_id,
                PacketView::Connect(packet),
                now_ms,
            );
            &&& outcome.handler == handler
            &&& outcome.broker == left
            &&& outcome.step is Done
            &&& outcome.effects == seq![
                sending(
                    PacketView::ConnAck(
                        ConnAckView {
                            session_present: false,
                            reason_code: SERVER_UNAVAILABLE,
                            properties: reason_properties_of(SERVER_UNAVAILABLE),
                        },
                    ),
                ),
                EffectView::Close,
            ]
        }),
{
    let left = closed_here_all(shut_down(broker), connections, closed_ms).0;
    closing_here_publishes_no_will(broker, connections, closed_ms);
    let outcome = handled(handler, left, connection_id, PacketView::Connect(packet), now_ms);
    assert(outcome.effects =~= seq![
        sending(
            PacketView::ConnAck(
                ConnAckView {
                    session_present: false,
                    reason_code: SERVER_UNAVAILABLE,
                    properties: reason_properties_of(SERVER_UNAVAILABLE),
                },
            ),
        ),
        EffectView::Close,
    ]);
}

} // verus!
