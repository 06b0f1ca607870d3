//! What is stored as rows comes back.
use vstd::prelude::*;

use crate::message::PendingView;
use crate::mqtt_codec::decoded_publish;
use crate::mqtt_codec::stored_form;
use crate::packet::PublishView;
use crate::packet::QoS;
use crate::retained_message::RetainedView;
use crate::session::SessionView;
use crate::storage::offline_state::OfflineView;
use crate::storage::patch_codec::packet_block;
use crate::storage::patch_codec::packet_readable;
use crate::storage::patch_codec::packet_retained;
use crate::storage::patch_codec::retained_packet;
use crate::storage::snapshot::MAX_SEQUENCE;
use crate::storage::snapshot::QueuedSnapshotView;
use crate::storage::snapshot::valid_offline;
use crate::storage::snapshot::valid_outbound;
use crate::storage::tables::InflightRow;
use crate::storage::tables::OfflineRow;
use crate::storage::tables::OutOfRange;
use crate::storage::tables::RetainedRow;
use crate::storage::tables::inflight_row_loaded;
use crate::storage::tables::offline_row_loaded;
use crate::storage::tables::retained_row_loaded;
use crate::storage::tables::row_moment;
use crate::storage::tables::row_qos;
use crate::storage::tables::with_inflight;

verus! {

/// A moment that a row holds.
pub open spec fn held_moment(value: Option<u64>) -> Option<i64> {
    match value {
        Some(value) => Some(value as i64),
        None => None,
    }
}

/// A moment comes back from a row as it was.
pub proof fn moment_comes_back(value: Option<u64>)
    ensures
        row_moment(held_moment(value)) == value,
{
    if let Some(moment) = value {
        assert((moment as i64) as u64 == moment) by (bit_vector);
    }
}

/// The number of a queued publication comes back from a row as it was.
pub proof fn sequence_comes_back(sequence: u64)
    requires
        sequence <= MAX_SEQUENCE,
    ensures
        (sequence as i64) >= 0,
        (sequence as i64) as u64 == sequence,
{
    assert((sequence as i64) >= 0 && (sequence as i64) as u64 == sequence) by (bit_vector)
        requires
            sequence <= 0x7fff_ffff_ffff_ffffu64,
    ;
}

/// A row of an offline queue that holds what a change puts gives the publication back at the end of
/// its session's queue.
pub proof fn queued_row_comes_back(
    state: OfflineView,
    row: OfflineRow,
    queued: QueuedSnapshotView,
)
    requires
        state.sessions.dom().contains(row.client_id@),
        valid_offline(queued.pending),
        queued.sequence <= MAX_SEQUENCE,
        packet_readable(queued.pending.packet),
        row.sequence == queued.sequence as i64,
        row.packet@ == packet_block(queued.pending.packet),
        row.expires_at_ms == held_moment(queued.pending.expires_at_ms),
    ensures
        ({
            let session = state.sessions[row.client_id@];
            offline_row_loaded(state, row) == Ok::<OfflineView, OutOfRange>(
                OfflineView {
                    sessions: state.sessions.insert(
                        row.client_id@,
                        SessionView {
                            offline_queue: session.offline_queue.push(queued),
                            ..session
                        },
                    ),
                    ..state
                },
            )
        }),
{
    moment_comes_back(queued.pending.expires_at_ms);
    sequence_comes_back(queued.sequence);
    let found = decoded_publish(row.packet@)->0;
    assert(found.0 == stored_form(queued.pending.packet));
    assert((PublishView { packet_id: None, ..found.0 }) == queued.pending.packet);
}

/// A row of a publication in flight that holds what a change puts gives the publication back under
/// its identifier.
pub proof fn inflight_row_comes_back(
    state: OfflineView,
    row: InflightRow,
    packet_id: u16,
    qos: QoS,
    pending: PendingView,
)
    requires
        state.sessions.dom().contains(row.client_id@),
        valid_outbound(packet_id, pending, qos),
        packet_readable(pending.packet),
        row.packet_id == packet_id,
        row_qos(row.qos) == qos,
        row.packet@ == packet_block(pending.packet),
        row.expires_at_ms == held_moment(pending.expires_at_ms),
    ensures
        inflight_row_loaded(state, row).sessions == state.sessions.insert(
            row.client_id@,
            with_inflight(state.sessions[row.client_id@], packet_id, qos, pending),
        ),
{
    moment_comes_back(pending.expires_at_ms);
    let found = decoded_publish(row.packet@)->0;
    assert(found.0 == pending.packet);
}

/// A row of a retained message that holds what a change puts gives the message back, but for what
/// is made anew from it.
pub proof fn retained_row_comes_back(state: OfflineView, row: RetainedRow, message: RetainedView)
    requires
        packet_readable(retained_packet(message)),
        row.topic_name@ == message.topic_name,
        row.packet@ == packet_block(retained_packet(message)),
        row.expires_at_ms == held_moment(message.expires_at_ms),
    ensures
        retained_row_loaded(state, row).retained == state.retained.insert(
            message.topic_name,
            packet_retained(retained_packet(message), message.expires_at_ms),
        ),
{
    moment_comes_back(message.expires_at_ms);
    let found = decoded_publish(row.packet@)->0;
    assert(found.0 == retained_packet(message));
}

} // verus!
