//! What logs and checkpoints give back.
use vstd::prelude::*;

use crate::ordered_map::ascending;
use crate::ordered_map::entries_of;
use crate::ordered_map::listed;
use crate::ordered_map::map_of;
use crate::ordered_map::map_of_entry;
use crate::ordered_map::map_prefix;
use crate::protocol::valid_topic_name;
use crate::retained_message::RetainedView;
use crate::storage::bytes::le;
use crate::storage::bytes::le_bounds;
use crate::storage::bytes::le_round_trip;
use crate::storage::codec_laws::patch_restorable;
use crate::storage::codec_laws::written_patch_reads_back;
use crate::storage::delta::ProjectionView;
use crate::storage::delta::lookup;
use crate::storage::delta::patched_all;
use crate::storage::delta::reset_patch;
use crate::storage::frames::CHECKPOINT_END_PAYLOAD;
use crate::storage::frames::FrameView;
use crate::storage::frames::MAX_FRAME_BYTES;
use crate::storage::frames::ReplayMode;
use crate::storage::frames::ReplayView;
use crate::storage::frames::V2_MAGIC;
use crate::storage::frames::checkpoint_bytes;
use crate::storage::frames::checkpoint_patches_of;
use crate::storage::frames::client_resets;
use crate::storage::frames::crc32_of;
use crate::storage::frames::frame_bytes;
use crate::storage::frames::frame_len;
use crate::storage::frames::framed;
use crate::storage::frames::frames_of;
use crate::storage::frames::parse_frame;
use crate::storage::frames::replayed;
use crate::storage::frames::replayed_log;
use crate::storage::frames::retained_puts;
use crate::storage::laws::reset_restores;
use crate::storage::laws::storable;
use crate::storage::patch_codec::patch_bytes;
use crate::storage::patch_codec::patch_readable;
use crate::storage::snapshot::ClientView;
use crate::storage::snapshot::RetainedPatchView;
use crate::storage::snapshot::StoragePatchView;

verus! {

/// A frame's bytes are as many as its length says.
proof fn frame_bytes_len(payload: Seq<u8>)
    ensures
        frame_bytes(payload).len() == frame_len(payload),
{
    le_round_trip(payload.len(), 4);
    le_round_trip(crc32_of(payload) as nat, 4);
}

/// A written frame reads back: its payload, its checksum, and what is behind it.
pub proof fn frame_reads_back(payload: Seq<u8>, tail: Seq<u8>, mode: ReplayMode, label: Seq<char>)
    requires
        payload.len() <= MAX_FRAME_BYTES,
    ensures
        parse_frame(frame_bytes(payload) + tail, mode, label) == Ok::<FrameView, Seq<char>>(
            FrameView::Complete(payload, crc32_of(payload), tail),
        ),
{
    let bytes = frame_bytes(payload) + tail;
    let length = le(payload.len(), 4);
    let checksum = le(crc32_of(payload) as nat, 4);
    le_bounds();
    le_round_trip(payload.len(), 4);
    le_round_trip(crc32_of(payload) as nat, 4);
    let n = payload.len() as int;
    assert(bytes.take(4) =~= length);
    assert(bytes.subrange(4, 4 + n) =~= payload);
    assert(bytes.subrange(4 + n, 8 + n) =~= checksum);
    assert(bytes.skip(8 + n) =~= tail);
}

/// A frame that is cut off inside is read as such: it is left out, or the log is refused.
pub proof fn cut_frame_is_seen(payload: Seq<u8>, count: int, mode: ReplayMode, label: Seq<char>)
    requires
        payload.len() <= MAX_FRAME_BYTES,
        0 < count < frame_len(payload),
    ensures
        match mode {
            ReplayMode::AllowPhysicalTail => parse_frame(
                frame_bytes(payload).take(count),
                mode,
                label,
            ) == Ok::<FrameView, Seq<char>>(FrameView::Truncated),
            ReplayMode::Strict => parse_frame(frame_bytes(payload).take(count), mode, label) is Err,
        },
{
    let whole = frame_bytes(payload);
    let bytes = whole.take(count);
    frame_bytes_len(payload);
    le_bounds();
    le_round_trip(payload.len(), 4);
    if count >= 4 {
        assert(bytes.take(4) =~= le(payload.len(), 4));
    }
}

/// A patch's bytes are not those of a checkpoint's last frame.
proof fn patch_is_not_end(patch: StoragePatchView)
    ensures
        patch_bytes(patch) != CHECKPOINT_END_PAYLOAD@,
{
    assert(patch_bytes(patch)[0] != 3);
    assert(CHECKPOINT_END_PAYLOAD@[0] == 3);
}

/// The patches can be written, and what is written reads back.
pub open spec fn written(patches: Seq<StoragePatchView>) -> bool {
    forall|i: int|
        0 <= i < patches.len() ==> framed(#[trigger] patches[i]) && patch_readable(patches[i])
            && patch_restorable(patches[i])
}

/// A log that starts with the frames of some patches is read by applying the patches and reading
/// on.
#[verifier::rlimit(40)]
pub proof fn frames_replay(
    projection: ProjectionView,
    patches: Seq<StoragePatchView>,
    tail: Seq<u8>,
    mode: ReplayMode,
    valid_len: nat,
)
    requires
        written(patches),
        patched_all(projection, patches) is Ok,
    ensures
        replayed(projection, frames_of(patches) + tail, mode, valid_len) == replayed(
            patched_all(projection, patches)->Ok_0,
            tail,
            mode,
            valid_len + frames_of(patches).len(),
        ),
    decreases patches.len(),
{
    if patches.len() == 0 {
        assert(frames_of(patches) + tail =~= tail);
    } else {
        let front = patches.drop_last();
        let last = patches.last();
        let frame = frame_bytes(patch_bytes(last));
        assert(last == patches[patches.len() - 1]);
        assert forall|i: int| 0 <= i < front.len() implies framed(#[trigger] front[i])
            && patch_readable(front[i]) && patch_restorable(front[i]) by {
            assert(front[i] == patches[i]);
        }
        assert(frames_of(patches) + tail =~= frames_of(front) + (frame + tail));
        frames_replay(projection, front, frame + tail, mode, valid_len);
        frame_reads_back(patch_bytes(last), tail, mode, "PBIN2"@);
        frame_bytes_len(patch_bytes(last));
        patch_is_not_end(last);
        written_patch_reads_back(last);
    }
}

/// A log of whole frames gives what its patches give, and is all valid.
pub proof fn log_replays(projection: ProjectionView, patches: Seq<StoragePatchView>)
    requires
        written(patches),
        patched_all(projection, patches) is Ok,
    ensures
        replayed_log(
            projection,
            V2_MAGIC@ + frames_of(patches),
            ReplayMode::AllowPhysicalTail,
        ) == (ReplayView {
            projection: patched_all(projection, patches)->Ok_0,
            outcome: Ok(((V2_MAGIC@ + frames_of(patches)).len(), false)),
        }),
{
    let bytes = V2_MAGIC@ + frames_of(patches);
    let nothing = Seq::<u8>::empty();
    assert(bytes.take(6) =~= V2_MAGIC@);
    assert(bytes.skip(6) =~= frames_of(patches) + nothing);
    frames_replay(projection, patches, nothing, ReplayMode::AllowPhysicalTail, 6);
}

/// A log that is cut off inside its last frame gives what the patches before that frame give; the
/// valid part ends where that frame starts.
pub proof fn cut_log_replays(
    projection: ProjectionView,
    patches: Seq<StoragePatchView>,
    payload: Seq<u8>,
    count: int,
)
    requires
        written(patches),
        patched_all(projection, patches) is Ok,
        payload.len() <= MAX_FRAME_BYTES,
        0 < count < frame_len(payload),
    ensures
        replayed_log(
            projection,
            V2_MAGIC@ + frames_of(patches) + frame_bytes(payload).take(count),
            ReplayMode::AllowPhysicalTail,
        ) == (ReplayView {
            projection: patched_all(projection, patches)->Ok_0,
            outcome: Ok(((V2_MAGIC@ + frames_of(patches)).len(), true)),
        }),
{
    let tail = frame_bytes(payload).take(count);
    let bytes = V2_MAGIC@ + frames_of(patches) + tail;
    assert(bytes.take(6) =~= V2_MAGIC@);
    assert(bytes.skip(6) =~= frames_of(patches) + tail);
    frames_replay(projection, patches, tail, ReplayMode::AllowPhysicalTail, 6);
    cut_frame_is_seen(payload, count, ReplayMode::AllowPhysicalTail, "PBIN2"@);
}

/// A frame whose checksum does not match its payload is refused, whatever is behind it.
pub proof fn damaged_frame_is_refused(
    projection: ProjectionView,
    patches: Seq<StoragePatchView>,
    payload: Seq<u8>,
    checksum: u32,
    tail: Seq<u8>,
    mode: ReplayMode,
)
    requires
        written(patches),
        patched_all(projection, patches) is Ok,
        payload.len() <= MAX_FRAME_BYTES,
        checksum != crc32_of(payload),
    ensures
        replayed_log(
            projection,
            V2_MAGIC@ + frames_of(patches) + (le(payload.len(), 4) + payload + le(
                checksum as nat,
                4,
            ) + tail),
            mode,
        ).outcome == Err::<(nat, bool), Seq<char>>("PBIN2 frame checksum mismatch"@),
{
    let rest = le(payload.len(), 4) + payload + le(checksum as nat, 4) + tail;
    let bytes = V2_MAGIC@ + frames_of(patches) + rest;
    assert(bytes.take(6) =~= V2_MAGIC@);
    assert(bytes.skip(6) =~= frames_of(patches) + rest);
    frames_replay(projection, patches, rest, mode, 6);
    let n = payload.len() as int;
    le_bounds();
    le_round_trip(payload.len(), 4);
    le_round_trip(checksum as nat, 4);
    assert(rest.take(4) =~= le(payload.len(), 4));
    assert(rest.subrange(4, 4 + n) =~= payload);
    assert(rest.subrange(4 + n, 8 + n) =~= le(checksum as nat, 4));
}

/// Applying more patches.
proof fn patched_all_join(
    projection: ProjectionView,
    first: Seq<StoragePatchView>,
    second: Seq<StoragePatchView>,
)
    requires
        patched_all(projection, first) is Ok,
    ensures
        patched_all(projection, first + second) == patched_all(
            patched_all(projection, first)->Ok_0,
            second,
        ),
    decreases second.len(),
{
    if second.len() == 0 {
        assert(first + second =~= first);
    } else {
        patched_all_join(projection, first, second.drop_last());
        assert((first + second).drop_last() =~= first + second.drop_last());
        assert((first + second).last() == second.last());
    }
}

/// Everything that is stored is without defect and finite.
pub open spec fn storable_projection(projection: ProjectionView) -> bool {
    &&& listed::<String, ClientView>(projection.clients)
    &&& listed::<String, RetainedView>(projection.retained)
    &&& forall|client_id: Seq<char>| #[trigger]
        projection.clients.dom().contains(client_id) ==> storable(
            projection.clients[client_id],
            client_id,
        )
    &&& forall|topic: Seq<char>| #[trigger]
        projection.retained.dom().contains(topic) ==> valid_topic_name(topic)
            && projection.retained[topic].topic_name == topic
}

proof fn client_resets_apply(
    clients: Seq<(Seq<char>, ClientView)>,
    retained: Map<Seq<char>, RetainedView>,
    count: nat,
)
    requires
        ascending::<String, ClientView>(clients),
        count <= clients.len(),
        forall|i: int|
            0 <= i < clients.len() ==> storable((#[trigger] clients[i]).1, clients[i].0),
    ensures
        patched_all(
            ProjectionView { clients: Map::empty(), retained },
            client_resets(clients.take(count as int)),
        ) == Ok::<ProjectionView, Seq<char>>(
            ProjectionView { clients: map_of(clients.take(count as int)), retained },
        ),
    decreases count,
{
    let patches = client_resets(clients.take(count as int));
    if count == 0 {
        assert(map_of(clients.take(0)) =~= Map::<Seq<char>, ClientView>::empty());
    } else {
        let last = count - 1;
        client_resets_apply(clients, retained, (count - 1) as nat);
        assert(patches.drop_last() =~= client_resets(clients.take(last)));
        assert(patches.last() == StoragePatchView::Client(
            reset_patch(clients[last].0, clients[last].1),
        ));
        assert(storable(clients[last].1, clients[last].0));
        let before = map_of(clients.take(last));
        reset_restores(clients[last].0, lookup(before, clients[last].0), clients[last].1);
        map_prefix::<String, _>(clients, last);
    }
}

proof fn retained_puts_apply(
    clients: Map<Seq<char>, ClientView>,
    messages: Seq<(Seq<char>, RetainedView)>,
    count: nat,
)
    requires
        ascending::<String, RetainedView>(messages),
        count <= messages.len(),
        forall|i: int|
            0 <= i < messages.len() ==> valid_topic_name((#[trigger] messages[i]).0)
                && messages[i].1.topic_name == messages[i].0,
    ensures
        patched_all(
            ProjectionView { clients, retained: Map::empty() },
            retained_puts(messages.take(count as int)),
        ) == Ok::<ProjectionView, Seq<char>>(
            ProjectionView { clients, retained: map_of(messages.take(count as int)) },
        ),
    decreases count,
{
    let patches = retained_puts(messages.take(count as int));
    if count == 0 {
        assert(map_of(messages.take(0)) =~= Map::<Seq<char>, RetainedView>::empty());
    } else {
        let last = count - 1;
        retained_puts_apply(clients, messages, (count - 1) as nat);
        assert(patches.drop_last() =~= retained_puts(messages.take(last)));
        assert(patches.last() == StoragePatchView::Retained(
            RetainedPatchView { topic_name: messages[last].0, message: Some(messages[last].1) },
        ));
        assert(valid_topic_name(messages[last].0));
        map_prefix::<String, _>(messages, last);
    }
}

/// The patches of a checkpoint, applied where nothing is stored, give everything that was stored.
pub proof fn checkpoint_patches_restore(projection: ProjectionView)
    requires
        storable_projection(projection),
    ensures
        patched_all(
            ProjectionView { clients: Map::empty(), retained: Map::empty() },
            checkpoint_patches_of(projection),
        ) == Ok::<ProjectionView, Seq<char>>(projection),
{
    let clients = entries_of::<String, ClientView>(projection.clients);
    let messages = entries_of::<String, RetainedView>(projection.retained);
    let nothing = ProjectionView { clients: Map::empty(), retained: Map::empty() };
    assert forall|i: int| 0 <= i < clients.len() implies storable(
        (#[trigger] clients[i]).1,
        clients[i].0,
    ) by {
        map_of_entry::<String, ClientView>(clients, i);
        assert(projection.clients.dom().contains(clients[i].0));
    }
    assert forall|i: int| 0 <= i < messages.len() implies valid_topic_name(
        (#[trigger] messages[i]).0,
    ) && messages[i].1.topic_name == messages[i].0 by {
        map_of_entry::<String, RetainedView>(messages, i);
        assert(projection.retained.dom().contains(messages[i].0));
    }
    client_resets_apply(clients, Map::empty(), clients.len());
    assert(clients.take(clients.len() as int) =~= clients);
    retained_puts_apply(projection.clients, messages, messages.len());
    assert(messages.take(messages.len() as int) =~= messages);
    patched_all_join(nothing, client_resets(clients), retained_puts(messages));
}

/// A checkpoint that was written gives everything that was stored.
pub proof fn checkpoint_replays(projection: ProjectionView)
    requires
        storable_projection(projection),
        written(checkpoint_patches_of(projection)),
    ensures
        replayed_log(
            ProjectionView { clients: Map::empty(), retained: Map::empty() },
            checkpoint_bytes(projection),
            ReplayMode::Strict,
        ) == (ReplayView {
            projection,
            outcome: Ok((checkpoint_bytes(projection).len(), false)),
        }),
{
    let patches = checkpoint_patches_of(projection);
    let nothing = ProjectionView { clients: Map::empty(), retained: Map::empty() };
    let end = frame_bytes(CHECKPOINT_END_PAYLOAD@);
    let bytes = checkpoint_bytes(projection);
    let empty = Seq::<u8>::empty();
    checkpoint_patches_restore(projection);
    assert(bytes.take(6) =~= V2_MAGIC@);
    assert(bytes.skip(6) =~= frames_of(patches) + end);
    frames_replay(nothing, patches, end, ReplayMode::Strict, 6);
    frame_reads_back(CHECKPOINT_END_PAYLOAD@, empty, ReplayMode::Strict, "PBIN2"@);
    assert(end + empty =~= end);
    frame_bytes_len(CHECKPOINT_END_PAYLOAD@);
}

/// Frames cut off anywhere, at the end of a frame or inside one, are refused as a checkpoint.
proof fn cut_frames_are_refused(
    projection: ProjectionView,
    patches: Seq<StoragePatchView>,
    payload: Seq<u8>,
    count: int,
    valid_len: nat,
)
    requires
        written(patches),
        patched_all(projection, patches) is Ok,
        payload.len() <= MAX_FRAME_BYTES,
        0 <= count < frames_of(patches).len() + frame_len(payload),
    ensures
        replayed(
            projection,
            (frames_of(patches) + frame_bytes(payload)).take(count),
            ReplayMode::Strict,
            valid_len,
        ).outcome is Err,
    decreases patches.len(),
{
    let all = frames_of(patches) + frame_bytes(payload);
    frame_bytes_len(payload);
    if count >= frames_of(patches).len() {
        let inside = count - frames_of(patches).len();
        let tail = frame_bytes(payload).take(inside);
        assert(all.take(count) =~= frames_of(patches) + tail);
        frames_replay(projection, patches, tail, ReplayMode::Strict, valid_len);
        if inside > 0 {
            cut_frame_is_seen(payload, inside, ReplayMode::Strict, "PBIN2"@);
        } else {
            assert(tail =~= Seq::<u8>::empty());
        }
    } else {
        let front = patches.drop_last();
        let last = patches.last();
        assert(last == patches[patches.len() - 1]);
        assert forall|i: int| 0 <= i < front.len() implies framed(#[trigger] front[i])
            && patch_readable(front[i]) && patch_restorable(front[i]) by {
            assert(front[i] == patches[i]);
        }
        let frame = frame_bytes(patch_bytes(last));
        frame_bytes_len(patch_bytes(last));
        assert(frames_of(patches) == frames_of(front) + frame);
        assert(all.take(count) =~= (frames_of(front) + frame).take(count));
        cut_frames_are_refused(projection, front, patch_bytes(last), count, valid_len);
    }
}

/// A checkpoint that is cut off anywhere is refused.
pub proof fn cut_checkpoint_is_refused(projection: ProjectionView, count: int)
    requires
        storable_projection(projection),
        written(checkpoint_patches_of(projection)),
        0 <= count < checkpoint_bytes(projection).len(),
    ensures
        replayed_log(
            ProjectionView { clients: Map::empty(), retained: Map::empty() },
            checkpoint_bytes(projection).take(count),
            ReplayMode::Strict,
        ).outcome is Err,
{
    let patches = checkpoint_patches_of(projection);
    let nothing = ProjectionView { clients: Map::empty(), retained: Map::empty() };
    let end = frame_bytes(CHECKPOINT_END_PAYLOAD@);
    let bytes = checkpoint_bytes(projection).take(count);
    checkpoint_patches_restore(projection);
    frame_bytes_len(CHECKPOINT_END_PAYLOAD@);
    if count >= 6 {
        assert(bytes.take(6) =~= V2_MAGIC@);
        assert(bytes.skip(6) =~= (frames_of(patches) + end).take(count - 6));
        cut_frames_are_refused(nothing, patches, CHECKPOINT_END_PAYLOAD@, count - 6, 6);
    }
}

} // verus!
