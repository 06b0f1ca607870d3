//! Counts for observers of the broker.
use vstd::prelude::*;

use crate::ordered_map::OrderedMap;
use crate::ordered_map::entries_of;
use crate::session::BrokerState;
use crate::session::SessionEntry;
use crate::session::SessionView;
use crate::storage::patch_codec::few_identifiers;
use crate::value::Value;

verus! {

/// How long the counts stay as they were told, in milliseconds.
pub const METRICS_RECORD_INTERVAL_MS: u64 = 1_000;

/// Counts that are of interest to an observer.
#[derive(Clone, Copy, Debug, PartialEq, Eq, Structural)]
pub struct StateGauges {
    pub subscriptions: usize,
    pub session_queue: u128,
    pub retained: usize,
    pub qos1_inflight: u128,
    pub qos2_inflight: u128,
}

/// How many publications the sessions of some entries have queued, sent with QoS 1, and sent with
/// QoS 2.
pub open spec fn session_counts(entries: Seq<(Seq<char>, SessionView)>) -> (nat, nat, nat)
    decreases entries.len(),
{
    if entries.len() == 0 {
        (0, 0, 0)
    } else {
        let front = session_counts(entries.drop_last());
        let session = entries.last().1;
        (
            front.0 + session.offline_queue.len(),
            front.1 + session.outbound_qos1.len(),
            front.2 + session.outbound_qos2_publish.len() + session.outbound_qos2_pubrel.len(),
        )
    }
}

/// How many packet identifiers a map holds.
fn identifier_count<V: Value>(map: &OrderedMap<u16, V>) -> (result: u128)
    ensures
        result == map.deep_view().len(),
        result <= 65_536,
{
    let count: usize = map.len();
    proof {
        few_identifiers::<V::V>(map.entries());
    }
    count as u128
}

/// The sums stay in range.
proof fn sum_fits(count: nat, index: nat, each: nat, bound: nat)
    requires
        count <= index * bound,
        each <= bound,
    ensures
        count + each <= (index + 1) * bound,
{
    assert((index + 1) * bound == index * bound + bound) by (nonlinear_arith);
}

/// Counts of a state.
pub fn gauges(state: &BrokerState) -> (result: StateGauges)
    requires
        state.wf(),
    ensures
        ({
            let view = state.deep_view();
            let counts = session_counts(
                entries_of::<String, SessionView>(view.sessions),
            );
            &&& result.subscriptions == view.subscriptions.len()
            &&& result.session_queue == counts.0
            &&& result.retained == view.retained.len()
            &&& result.qos1_inflight == counts.1
            &&& result.qos2_inflight == view.qos2_inflight.len() + counts.2
        }),
{
    let count: usize = state.sessions_by_client_id.len();
    let waiting: usize = state.qos2_inflight.len();
    let ghost entries = state.sessions_by_client_id.entries();
    let mut session_queue: u128 = 0;
    let mut qos1_inflight: u128 = 0;
    let mut qos2_inflight: u128 = 0;
    let mut index: usize = 0;
    while index < count
        invariant
            index <= count == entries.len(),
            entries == state.sessions_by_client_id.entries(),
            session_queue <= index * 0xffff_ffff_ffff_ffff,
            qos1_inflight <= index * 65_536,
            qos2_inflight <= index * 131_072,
            (session_queue as nat, qos1_inflight as nat, qos2_inflight as nat) == session_counts(
                entries.take(index as int),
            ),
        decreases count - index,
    {
        proof {
            assert(entries.take(index + 1).drop_last() =~= entries.take(index as int));
            assert(entries.take(index + 1).last() == entries[index as int]);
        }
        let session: &SessionEntry = state.sessions_by_client_id.value_at(index);
        let queued: u128 = session.offline_queue.len() as u128;
        let sent: u128 = identifier_count(&session.outbound_qos1);
        let published: u128 = identifier_count(&session.outbound_qos2_publish);
        let released: u128 = identifier_count(&session.outbound_qos2_pubrel);
        proof {
            assert(queued == session.deep_view().offline_queue.len());
            assert(released == session.deep_view().outbound_qos2_pubrel.len());
            sum_fits(session_queue as nat, index as nat, queued as nat, 0xffff_ffff_ffff_ffff);
            sum_fits(qos1_inflight as nat, index as nat, sent as nat, 65_536);
            sum_fits(
                qos2_inflight as nat,
                index as nat,
                (published + released) as nat,
                131_072,
            );
            assert((index + 1) * 0xffff_ffff_ffff_ffff <= 0xffff_ffff_ffff_ffff
                * 0xffff_ffff_ffff_ffff) by (nonlinear_arith)
                requires
                    index + 1 <= 0xffff_ffff_ffff_ffff,
            ;
        }
        session_queue = session_queue + queued;
        qos1_inflight = qos1_inflight + sent;
        qos2_inflight = qos2_inflight + published + released;
        index += 1;
    }
    assert(entries.take(index as int) =~= entries);
    StateGauges {
        subscriptions: state.subscriptions.len(),
        session_queue,
        retained: state.retained.len(),
        qos1_inflight,
        qos2_inflight: qos2_inflight + waiting as u128,
    }
}

/// Whether the counts are to be told again, when they were told last at some moment.
pub fn metrics_due(last_record_ms: u64, now_ms: u64) -> (result: bool)
    ensures
        result == (now_ms >= last_record_ms + METRICS_RECORD_INTERVAL_MS),
{
    now_ms.saturating_sub(last_record_ms) >= METRICS_RECORD_INTERVAL_MS
}

} // verus!
