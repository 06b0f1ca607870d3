//! Who is taken to be gone for being silent.
use vstd::prelude::*;

use crate::broker::BrokerView;
use crate::broker::disconnected;
use crate::broker::is_silent;
use crate::broker::silent_removed;
use crate::handler::HandlerView;
use crate::handler::StepView;
use crate::handler::handled;
use crate::handler::sending;
use crate::keeping_laws::disconnecting_keeps_state;
use crate::ordered_map::entries_of;
use crate::ordered_map::key_has_entry;
use crate::ordered_map::key_index;
use crate::ordered_map::listed;
use crate::ordered_map::map_of_entry;
use crate::packet::PacketView;
use crate::session::ClientEntryView;
use crate::session::StateView;
use crate::state_laws::follows_itself;
use crate::state_laws::follows_twice;
use crate::state_laws::kept;
use crate::state_laws::state_sound;
use crate::storage::delta::lookup;

verus! {

/// A connection that is removed is the only one that is.
proof fn one_is_removed(state: StateView, connection_id: u64, now_ms: u64)
    ensures
        disconnected(state, connection_id, now_ms).clients == state.clients.remove(connection_id),
{
    assert(disconnected(state, connection_id, now_ms).clients =~= state.clients.remove(
        connection_id,
    ));
}

/// Of some clients just the silent ones are removed.
proof fn silent_of_entries(
    state: StateView,
    entries: Seq<(u64, ClientEntryView)>,
    now_ms: u64,
    connection_id: u64,
)
    ensures
        ({
            let outcome = silent_removed(state, entries, now_ms);
            let gone = exists|i: int|
                0 <= i < entries.len() && (#[trigger] entries[i]).0 == connection_id && is_silent(
                    entries[i].1,
                    now_ms,
                );
            lookup(outcome.0.clients, connection_id) == (if gone {
                None
            } else {
                lookup(state.clients, connection_id)
            })
        }),
    decreases entries.len(),
{
    if entries.len() > 0 {
        let front = entries.drop_last();
        let last = entries.last();
        silent_of_entries(state, front, now_ms, connection_id);
        one_is_removed(silent_removed(state, front, now_ms).0, last.0, now_ms);
        assert(entries[entries.len() - 1] == last);
        assert forall|i: int| 0 <= i < front.len() implies #[trigger] front[i] == entries[i] by {}
        if exists|i: int|
            0 <= i < front.len() && (#[trigger] front[i]).0 == connection_id && is_silent(
                front[i].1,
                now_ms,
            ) {
            let i = choose|i: int|
                0 <= i < front.len() && (#[trigger] front[i]).0 == connection_id && is_silent(
                    front[i].1,
                    now_ms,
                );
            assert(entries[i].0 == connection_id);
        }
        if exists|i: int|
            0 <= i < entries.len() && (#[trigger] entries[i]).0 == connection_id && is_silent(
                entries[i].1,
                now_ms,
            ) {
            let i = choose|i: int|
                0 <= i < entries.len() && (#[trigger] entries[i]).0 == connection_id && is_silent(
                    entries[i].1,
                    now_ms,
                );
            if i < front.len() {
                assert(front[i] == entries[i]);
            }
        }
    }
}

/// A client is removed for being silent if it was silent for too long, and only then; every other
/// one stays as it is.
pub proof fn only_the_silent_are_removed(state: StateView, now_ms: u64, connection_id: u64)
    requires
        listed::<u64, ClientEntryView>(state.clients),
    ensures
        ({
            let entries = entries_of::<u64, ClientEntryView>(state.clients);
            let after = silent_removed(state, entries, now_ms).0;
            match lookup(state.clients, connection_id) {
                None => lookup(after.clients, connection_id) is None,
                Some(client) => lookup(after.clients, connection_id) == (if is_silent(
                    client,
                    now_ms,
                ) {
                    None
                } else {
                    Some(client)
                }),
            }
        }),
{
    let entries = entries_of::<u64, ClientEntryView>(state.clients);
    silent_of_entries(state, entries, now_ms, connection_id);
    if state.clients.dom().contains(connection_id) {
        key_has_entry(entries, connection_id);
        let own = key_index(entries, connection_id);
        assert(entries[own].0 == connection_id);
    }
    assert forall|i: int|
        0 <= i < entries.len() && (#[trigger] entries[i]).0 == connection_id implies lookup(
        state.clients,
        connection_id,
    ) == Some(entries[i].1) by {
        map_of_entry::<u64, ClientEntryView>(entries, i);
    }
}

/// Removing silent clients keeps the broker's state in order, and every change that has to be
/// stored is marked.
pub proof fn removing_the_silent_keeps_state(
    state: StateView,
    entries: Seq<(u64, ClientEntryView)>,
    now_ms: u64,
)
    requires
        state_sound(state),
    ensures
        kept(state, silent_removed(state, entries, now_ms).0, now_ms),
    decreases entries.len(),
{
    if entries.len() == 0 {
        follows_itself(state, now_ms);
    } else {
        let front = silent_removed(state, entries.drop_last(), now_ms).0;
        removing_the_silent_keeps_state(state, entries.drop_last(), now_ms);
        if is_silent(entries.last().1, now_ms) {
            disconnecting_keeps_state(front, entries.last().0, now_ms);
            follows_twice(
                state,
                front,
                disconnected(front, entries.last().0, now_ms),
                now_ms,
                now_ms,
            );
        }
    }
}

/// A client that asks whether the broker is there is answered, and is not taken to be gone before
/// it has been silent again for as long as it may be.
pub proof fn ping_is_answered(
    handler: HandlerView,
    broker: BrokerView,
    connection_id: u64,
    now_ms: u64,
    later_ms: u64,
)
    requires
        handler.connected,
        broker.state.clients.dom().contains(connection_id),
        handler.keep_alive_interval_ms is Some,
        later_ms < now_ms + handler.keep_alive_interval_ms->0,
        later_ms < u64::MAX,
    ensures
        ({
            let outcome = handled(handler, broker, connection_id, PacketView::PingReq, now_ms);
            &&& outcome.effects == seq![sending(PacketView::PingResp)]
            &&& outcome.step == StepView::Done
            &&& lookup(outcome.broker.state.clients, connection_id) is Some
            &&& !is_silent(outcome.broker.state.clients[connection_id], later_ms)
        }),
{
    let outcome = handled(handler, broker, connection_id, PacketView::PingReq, now_ms);
    assert(outcome.effects =~= seq![sending(PacketView::PingResp)]);
}

} // verus!
