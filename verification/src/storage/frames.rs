//! Logs of patches: frames with a checksum, their replay, and checkpoints.
use vstd::prelude::*;
use vstd::string::StringExecFns;

use crate::ordered_map::entries_of;
use crate::retained_message::RetainedView;
use crate::storage::bytes::Reader;
use crate::storage::bytes::Writer;
use crate::storage::bytes::from_le;
use crate::storage::bytes::from_le_bounded;
use crate::storage::bytes::le;
use crate::storage::bytes::le_bounds;
use crate::storage::delta::PersistentProjection;
use crate::storage::delta::ProjectionView;
use crate::storage::delta::patched;
use crate::storage::delta::reset_patch;
use crate::storage::patch_codec::concat;
use crate::storage::patch_codec::encode_patch;
use crate::storage::patch_codec::patch_bytes;
use crate::storage::patch_codec::patch_fits;
use crate::storage::patch_codec::patch_readable;
use crate::storage::patch_decode::decode_patch;
use crate::storage::patch_decode::patch_of;
use crate::storage::snapshot::ClientPatch;
use crate::storage::snapshot::ClientView;
use crate::storage::snapshot::RetainedPatch;
use crate::storage::snapshot::RetainedPatchView;
use crate::storage::snapshot::StoragePatch;
use crate::storage::snapshot::StoragePatchView;
use crate::storage::snapshot::patch_defect;
use crate::text::bytes_copy;
use crate::text::bytes_eq;
use crate::text::text_concat;
use crate::value::Value;

verus! {

/// What a patch log and a checkpoint start with.
pub const V2_MAGIC: [u8; 6] = [0x50, 0x42, 0x49, 0x4e, 0x32, 0x0a];

/// The longest frame.
pub const MAX_FRAME_BYTES: usize = 268_435_456;

/// The last frame of a checkpoint.
pub const CHECKPOINT_END_PAYLOAD: [u8; 6] = [0x03, 0x50, 0x45, 0x4e, 0x44, 0x32];

/// One step of the checksum: division of one bit.
pub open spec fn crc_bit(crc: u32) -> u32 {
    if crc & 1 == 1 {
        (crc >> 1) ^ 0xedb8_8320
    } else {
        crc >> 1
    }
}

/// Some steps of the checksum.
pub open spec fn crc_bits(crc: u32, count: nat) -> u32
    decreases count,
{
    if count == 0 {
        crc
    } else {
        crc_bit(crc_bits(crc, (count - 1) as nat))
    }
}

/// The remainder of some bytes.
pub open spec fn crc_state(bytes: Seq<u8>) -> u32
    decreases bytes.len(),
{
    if bytes.len() == 0 {
        0xffff_ffff
    } else {
        crc_bits(crc_state(bytes.drop_last()) ^ (bytes.last() as u32), 8)
    }
}

/// The checksum of some bytes.
pub open spec fn crc32_of(bytes: Seq<u8>) -> u32 {
    !crc_state(bytes)
}

/// The checksum of some bytes.
pub fn crc32(bytes: &[u8]) -> (result: u32)
    ensures
        result == crc32_of(bytes@),
{
    let mut crc: u32 = 0xffff_ffff;
    let mut index: usize = 0;
    assert(bytes@.take(0) =~= Seq::<u8>::empty());
    while index < bytes.len()
        invariant
            index <= bytes.len(),
            crc == crc_state(bytes@.take(index as int)),
        decreases bytes.len() - index,
    {
        assert(bytes@.take(index + 1).drop_last() =~= bytes@.take(index as int));
        assert(bytes@.take(index + 1).last() == bytes@[index as int]);
        crc = crc ^ (bytes[index] as u32);
        let ghost start = crc;
        let mut bit: usize = 0;
        while bit < 8
            invariant
                bit <= 8,
                crc == crc_bits(start, bit as nat),
            decreases 8 - bit,
        {
            if crc & 1 == 1 {
                crc = (crc >> 1) ^ 0xedb8_8320;
            } else {
                crc = crc >> 1;
            }
            bit += 1;
        }
        index += 1;
    }
    assert(bytes@.take(index as int) =~= bytes@);
    !crc
}

/// The bytes of a frame: the payload with its length before it and its checksum behind it.
pub open spec fn frame_bytes(payload: Seq<u8>) -> Seq<u8> {
    le(payload.len(), 4) + payload + le(crc32_of(payload) as nat, 4)
}

/// How many bytes a frame has.
pub open spec fn frame_len(payload: Seq<u8>) -> nat {
    4 + payload.len() + 4
}

/// The frame around a payload, where the payload is not too long.
pub fn write_frame(payload: &[u8]) -> (result: Result<Vec<u8>, &'static str>)
    ensures
        match result {
            Ok(frame) => payload@.len() <= MAX_FRAME_BYTES && frame@ == frame_bytes(payload@),
            Err(message) => payload@.len() > MAX_FRAME_BYTES && message@
                == "PBIN2 frame exceeds the maximum size"@,
        },
{
    if payload.len() > MAX_FRAME_BYTES {
        return Err("PBIN2 frame exceeds the maximum size");
    }
    let mut writer: Writer = Writer::new();
    writer.u32(payload.len() as u32);
    writer.bytes.extend_from_slice(payload);
    writer.u32(crc32(payload));
    assert(writer.bytes@ =~= frame_bytes(payload@));
    Ok(writer.bytes)
}

/// How many bytes a frame has around a payload of a length.
pub fn frame_encoded_len(payload_len: usize) -> (result: u64)
    requires
        payload_len <= MAX_FRAME_BYTES,
    ensures
        result == 4 + payload_len + 4,
{
    (4 + payload_len + 4) as u64
}

/// How a log that ends inside a frame is read: by leaving the last frame out, or not at all.
#[derive(Clone, Copy, Debug, PartialEq, Eq, Structural)]
pub enum ReplayMode {
    AllowPhysicalTail,
    Strict,
}

/// A frame as it is read.
pub enum FrameView {
    /// A whole frame: its payload, its checksum, and what is behind it.
    Complete(Seq<u8>, u32, Seq<u8>),
    /// There is no frame.
    End,
    /// The bytes end inside the frame.
    Truncated,
}

/// What a frame that ends too early is called.
pub open spec fn incomplete(label: Seq<char>, part: Seq<char>) -> Seq<char> {
    "incomplete "@ + label + " "@ + part
}

/// What a frame that ends too early reads as.
pub open spec fn cut_frame(mode: ReplayMode, label: Seq<char>, part: Seq<char>) -> Result<
    FrameView,
    Seq<char>,
> {
    match mode {
        ReplayMode::AllowPhysicalTail => Ok(FrameView::Truncated),
        ReplayMode::Strict => Err(incomplete(label, part)),
    }
}

/// Reads a frame.
pub open spec fn parse_frame(bytes: Seq<u8>, mode: ReplayMode, label: Seq<char>) -> Result<
    FrameView,
    Seq<char>,
> {
    let length = from_le(bytes.take(4)) as int;
    if bytes.len() == 0 {
        Ok(FrameView::End)
    } else if bytes.len() < 4 {
        cut_frame(mode, label, "frame length"@)
    } else if length > MAX_FRAME_BYTES {
        Err(label + " frame exceeds the maximum size"@)
    } else if bytes.len() < 4 + length {
        cut_frame(mode, label, "frame payload"@)
    } else if bytes.len() < 8 + length {
        cut_frame(mode, label, "frame checksum"@)
    } else {
        Ok(
            FrameView::Complete(
                bytes.subrange(4, 4 + length),
                from_le(bytes.subrange(4 + length, 8 + length)) as u32,
                bytes.skip(8 + length),
            ),
        )
    }
}

/// A frame as it is read.
pub enum FrameRead<'a> {
    Complete(&'a [u8], u32, &'a [u8]),
    End,
    Truncated,
}

impl<'a> DeepView for FrameRead<'a> {
    type V = FrameView;

    open spec fn deep_view(&self) -> FrameView {
        match *self {
            FrameRead::Complete(payload, checksum, rest) => FrameView::Complete(
                payload@,
                checksum,
                rest@,
            ),
            FrameRead::End => FrameView::End,
            FrameRead::Truncated => FrameView::Truncated,
        }
    }
}

/// A reading of text-reporting kind went as it should.
pub open spec fn reported<T: DeepView>(
    result: Result<T, String>,
    expected: Result<T::V, Seq<char>>,
) -> bool {
    match result {
        Ok(value) => expected == Ok::<T::V, Seq<char>>(value.deep_view()),
        Err(message) => expected == Err::<T::V, Seq<char>>(message@),
    }
}

fn read_cut<'a>(mode: ReplayMode, label: &str, part: &str) -> (result: Result<
    FrameRead<'a>,
    String,
>)
    ensures
        reported(result, cut_frame(mode, label@, part@)),
{
    match mode {
        ReplayMode::AllowPhysicalTail => Ok(FrameRead::Truncated),
        ReplayMode::Strict => Err(
            text_concat("incomplete ", label).concat(" ").concat(part),
        ),
    }
}

/// The number that four bytes stand for.
pub fn le_u32(bytes: &[u8]) -> (result: u32)
    requires
        bytes@.len() == 4,
    ensures
        result == from_le(bytes@),
{
    proof {
        from_le_bounded(bytes@);
        le_bounds();
        assert(bytes@.take(4) =~= bytes@);
    }
    let mut reader: Reader<'_> = Reader::new(bytes);
    proof {
        reveal(crate::storage::bytes::parse_le);
    }
    match reader.u32() {
        Ok(value) => value,
        Err(_) => 0,
    }
}

/// Reads a frame.
pub fn read_frame<'a>(bytes: &'a [u8], mode: ReplayMode, label: &str) -> (result: Result<
    FrameRead<'a>,
    String,
>)
    ensures
        reported(result, parse_frame(bytes@, mode, label@)),
{
    let total: usize = bytes.len();
    if total == 0 {
        return Ok(FrameRead::End);
    }
    if total < 4 {
        return read_cut(mode, label, "frame length");
    }
    let length_bytes: &[u8] = vstd::slice::slice_subrange(bytes, 0, 4);
    assert(length_bytes@ =~= bytes@.take(4));
    let length: usize = le_u32(length_bytes) as usize;
    if length > MAX_FRAME_BYTES {
        return Err(text_concat(label, " frame exceeds the maximum size"));
    }
    if total < 4 + length {
        return read_cut(mode, label, "frame payload");
    }
    if total < 8 + length {
        return read_cut(mode, label, "frame checksum");
    }
    let payload: &'a [u8] = vstd::slice::slice_subrange(bytes, 4, 4 + length);
    let checksum: u32 = le_u32(vstd::slice::slice_subrange(bytes, 4 + length, 8 + length));
    let rest: &'a [u8] = vstd::slice::slice_subrange(bytes, 8 + length, total);
    assert(rest@ =~= bytes@.skip(8 + length));
    Ok(FrameRead::Complete(payload, checksum, rest))
}

/// Whether some bytes start as a log should: what is behind the start.
pub open spec fn parse_header(bytes: Seq<u8>, magic: Seq<u8>, label: Seq<char>) -> Result<
    Seq<u8>,
    Seq<char>,
> {
    if bytes.len() < magic.len() {
        Err("incomplete "@ + label + " header"@)
    } else if bytes.take(magic.len() as int) != magic {
        Err("invalid "@ + label + " header"@)
    } else {
        Ok(bytes.skip(magic.len() as int))
    }
}

/// What is behind the start of a log.
pub fn read_header<'a>(bytes: &'a [u8], magic: &[u8], label: &str) -> (result: Result<
    &'a [u8],
    String,
>)
    ensures
        match result {
            Ok(rest) => parse_header(bytes@, magic@, label@) == Ok::<Seq<u8>, Seq<char>>(rest@),
            Err(message) => parse_header(bytes@, magic@, label@) == Err::<Seq<u8>, Seq<char>>(
                message@,
            ),
        },
{
    if bytes.len() < magic.len() {
        return Err(text_concat("incomplete ", label).concat(" header"));
    }
    let start: &[u8] = vstd::slice::slice_subrange(bytes, 0, magic.len());
    assert(start@ =~= bytes@.take(magic@.len() as int));
    if !bytes_eq(start, magic) {
        return Err(text_concat("invalid ", label).concat(" header"));
    }
    let rest: &'a [u8] = vstd::slice::slice_subrange(bytes, magic.len(), bytes.len());
    assert(rest@ =~= bytes@.skip(magic@.len() as int));
    Ok(rest)
}

/// What a log holds: everything that is stored after its patches, and how much of it is whole
/// frames and whether it ends inside a frame, or what is wrong with it.
pub struct ReplayView {
    pub projection: ProjectionView,
    pub outcome: Result<(nat, bool), Seq<char>>,
}

/// What is behind the last frame of a checkpoint: nothing.
pub open spec fn after_end(rest: Seq<u8>, valid_len: nat) -> Result<(nat, bool), Seq<char>> {
    match parse_frame(rest, ReplayMode::Strict, "PBIN2"@) {
        Err(error) => Err(error),
        Ok(FrameView::End) => Ok((valid_len, false)),
        Ok(_) => Err("PBIN2 checkpoint contains data after its end marker"@),
    }
}

/// Applies the patches of a log, behind its start, to what is stored.
pub open spec fn replayed(
    projection: ProjectionView,
    bytes: Seq<u8>,
    mode: ReplayMode,
    valid_len: nat,
) -> ReplayView
    decreases bytes.len(),
{
    match parse_frame(bytes, mode, "PBIN2"@) {
        Err(error) => ReplayView { projection, outcome: Err(error) },
        Ok(FrameView::End) => ReplayView {
            projection,
            outcome: if mode == ReplayMode::Strict {
                Err("PBIN2 checkpoint end marker is missing"@)
            } else {
                Ok((valid_len, false))
            },
        },
        Ok(FrameView::Truncated) => ReplayView { projection, outcome: Ok((valid_len, true)) },
        Ok(FrameView::Complete(payload, checksum, rest)) => if crc32_of(payload) != checksum {
            ReplayView { projection, outcome: Err("PBIN2 frame checksum mismatch"@) }
        } else if payload == CHECKPOINT_END_PAYLOAD@ {
            ReplayView {
                projection,
                outcome: if mode != ReplayMode::Strict {
                    Err("PBIN2 WAL contains a checkpoint end marker"@)
                } else {
                    after_end(rest, valid_len + frame_len(payload))
                },
            }
        } else {
            match patch_of(payload) {
                Err(error) => ReplayView { projection, outcome: Err(error) },
                Ok(patch) => match patched(projection, patch) {
                    Err(error) => ReplayView { projection, outcome: Err(error) },
                    Ok(next) => replayed(next, rest, mode, valid_len + frame_len(payload)),
                },
            }
        },
    }
}

/// How much of a log is whole frames, and whether it ends inside a frame.
#[derive(Clone, Copy, Debug, PartialEq, Eq)]
pub struct ReplayOutcome {
    pub valid_len: u64,
    pub truncated_tail: bool,
}

/// A replay went as it should.
pub open spec fn replays(result: Result<ReplayOutcome, String>, expected: Result<
    (nat, bool),
    Seq<char>,
>) -> bool {
    match result {
        Ok(outcome) => expected == Ok::<(nat, bool), Seq<char>>(
            (outcome.valid_len as nat, outcome.truncated_tail),
        ),
        Err(message) => expected == Err::<(nat, bool), Seq<char>>(message@),
    }
}

/// Whether a payload is that of a checkpoint's last frame.
fn is_end_payload(payload: &[u8]) -> (result: bool)
    ensures
        result == (payload@ == CHECKPOINT_END_PAYLOAD@),
{
    let end: [u8; 6] = CHECKPOINT_END_PAYLOAD;
    bytes_eq(payload, end.as_slice())
}

/// Applies the patches of a log to what is stored.
pub open spec fn replayed_log(
    projection: ProjectionView,
    bytes: Seq<u8>,
    mode: ReplayMode,
) -> ReplayView {
    match parse_header(bytes, V2_MAGIC@, "PBIN2"@) {
        Err(error) => ReplayView { projection, outcome: Err(error) },
        Ok(rest) => replayed(projection, rest, mode, V2_MAGIC@.len()),
    }
}

/// Applies the patches of a log to what is stored.
pub fn replay_v2_into(
    bytes: &[u8],
    projection: &mut PersistentProjection,
    mode: ReplayMode,
) -> (result: Result<ReplayOutcome, String>)
    ensures
        ({
            let replay = replayed_log(old(projection).deep_view(), bytes@, mode);
            &&& final(projection).deep_view() == replay.projection
            &&& replays(result, replay.outcome)
        }),
{
    let magic: [u8; 6] = V2_MAGIC;
    let mut rest: &[u8] = read_header(bytes, magic.as_slice(), "PBIN2")?;
    let mut valid_len: u64 = 6;
    let total: usize = bytes.len();
    let ghost goal = replayed_log(projection.deep_view(), bytes@, mode);
    assert(goal == replayed(projection.deep_view(), rest@, mode, 6));
    loop
        invariant
            goal == replayed_log(old(projection).deep_view(), bytes@, mode),
            goal == replayed(projection.deep_view(), rest@, mode, valid_len as nat),
            valid_len + rest@.len() == total,
        decreases rest@.len(),
    {
        let ghost before = rest@;
        match read_frame(rest, mode, "PBIN2")? {
            FrameRead::End => {
                if mode == ReplayMode::Strict {
                    return Err("PBIN2 checkpoint end marker is missing".to_owned());
                }
                return Ok(ReplayOutcome { valid_len, truncated_tail: false });
            },
            FrameRead::Truncated => {
                return Ok(ReplayOutcome { valid_len, truncated_tail: true });
            },
            FrameRead::Complete(payload, checksum, behind) => {
                if crc32(payload) != checksum {
                    return Err("PBIN2 frame checksum mismatch".to_owned());
                }
                let next_len: u64 = valid_len + frame_encoded_len(payload.len());
                if is_end_payload(payload) {
                    if mode != ReplayMode::Strict {
                        return Err("PBIN2 WAL contains a checkpoint end marker".to_owned());
                    }
                    return match read_frame(behind, ReplayMode::Strict, "PBIN2")? {
                        FrameRead::End => Ok(
                            ReplayOutcome { valid_len: next_len, truncated_tail: false },
                        ),
                        _ => Err(
                            "PBIN2 checkpoint contains data after its end marker".to_owned(),
                        ),
                    };
                }
                let patch: StoragePatch = match decode_patch(payload) {
                    Ok(patch) => patch,
                    Err(defect) => return Err(defect.to_owned()),
                };
                match projection.apply_patch(&patch) {
                    Ok(()) => {},
                    Err(defect) => return Err(defect.to_owned()),
                }
                valid_len = next_len;
                rest = behind;
            },
        }
    }
}

/// What a log alone holds.
pub fn replay_v2(bytes: &[u8], mode: ReplayMode) -> (result: Result<PersistentProjection, String>)
    ensures
        ({
            let replay = replayed_log(
                ProjectionView { clients: Map::empty(), retained: Map::empty() },
                bytes@,
                mode,
            );
            match result {
                Ok(projection) => replay.outcome is Ok && projection.deep_view()
                    == replay.projection,
                Err(message) => replay.outcome == Err::<(nat, bool), Seq<char>>(message@),
            }
        }),
{
    let mut projection: PersistentProjection = PersistentProjection::new();
    match replay_v2_into(bytes, &mut projection, mode) {
        Ok(_) => Ok(projection),
        Err(message) => Err(message),
    }
}

/// `frame_bytes` of `patch_bytes` as a function value.
pub open spec fn frame_writer() -> spec_fn(StoragePatchView) -> Seq<u8> {
    |patch: StoragePatchView| frame_bytes(patch_bytes(patch))
}

/// The frames of some patches.
pub open spec fn frames_of(patches: Seq<StoragePatchView>) -> Seq<u8> {
    concat(patches, frame_writer())
}

/// A patch can be written as a frame.
pub open spec fn framed(patch: StoragePatchView) -> bool {
    &&& patch_defect(patch) is None
    &&& patch_fits(patch)
    &&& patch_bytes(patch).len() <= MAX_FRAME_BYTES
}

/// The first thing that keeps a patch from being written as a frame.
pub open spec fn frame_defect(patch: StoragePatchView) -> Option<Seq<char>> {
    if patch_defect(patch) is Some {
        patch_defect(patch)
    } else if !patch_fits(patch) {
        Some("PBIN2 patch has no binary form"@)
    } else if patch_bytes(patch).len() > MAX_FRAME_BYTES {
        Some("PBIN2 frame exceeds the maximum size"@)
    } else {
        None
    }
}

/// The first thing that keeps some patches from being written as frames.
pub open spec fn frames_defect(patches: Seq<StoragePatchView>) -> Option<Seq<char>>
    decreases patches.len(),
{
    if patches.len() == 0 {
        None
    } else {
        match frames_defect(patches.drop_last()) {
            Some(defect) => Some(defect),
            None => frame_defect(patches.last()),
        }
    }
}

/// What keeps the first patches from being written keeps all of them.
proof fn frames_defect_of_prefix(patches: Seq<StoragePatchView>, count: int)
    requires
        0 <= count <= patches.len(),
        frames_defect(patches.take(count)) is Some,
    ensures
        frames_defect(patches) == frames_defect(patches.take(count)),
    decreases patches.len(),
{
    if count == patches.len() {
        assert(patches.take(count) =~= patches);
    } else {
        assert(patches.drop_last().take(count) =~= patches.take(count));
        frames_defect_of_prefix(patches.drop_last(), count);
    }
}

/// The frame of a patch.
fn write_patch(patch: &StoragePatch) -> (result: Result<Vec<u8>, &'static str>)
    ensures
        match result {
            Ok(frame) => frame_defect(patch.deep_view()) is None && frame@ == frame_bytes(
                patch_bytes(patch.deep_view()),
            ) && patch_readable(patch.deep_view()),
            Err(message) => frame_defect(patch.deep_view()) == Some(message@),
        },
{
    match patch.validate() {
        Ok(()) => {},
        Err(defect) => return Err(defect),
    }
    match encode_patch(patch) {
        Some(payload) => write_frame(payload.as_slice()),
        None => Err("PBIN2 patch has no binary form"),
    }
}

/// The frames of some patches, where all of them can be written. Every publication that is
/// written reads as itself.
pub fn write_patches(patches: &Vec<StoragePatch>) -> (result: Result<Vec<u8>, &'static str>)
    ensures
        match result {
            Ok(bytes) => frames_defect(patches.deep_view()) is None && bytes@ == frames_of(
                patches.deep_view(),
            ) && forall|i: int|
                0 <= i < patches.len() ==> patch_readable(#[trigger] patches.deep_view()[i]),
            Err(message) => frames_defect(patches.deep_view()) == Some(message@),
        },
{
    let ghost list = patches.deep_view();
    let mut bytes: Vec<u8> = Vec::new();
    let mut index: usize = 0;
    assert(frames_of(list.take(0)) =~= Seq::<u8>::empty());
    while index < patches.len()
        invariant
            index <= patches.len(),
            list == patches.deep_view(),
            bytes@ == frames_of(list.take(index as int)),
            frames_defect(list.take(index as int)) is None,
            forall|i: int| 0 <= i < index ==> patch_readable(#[trigger] list[i]),
        decreases patches.len() - index,
    {
        proof {
            assert(list.take(index + 1).drop_last() =~= list.take(index as int));
            assert(list.take(index + 1).last() == list[index as int]);
            assert(list[index as int] == patches@[index as int].deep_view());
            if frames_defect(list.take(index + 1)) is Some {
                frames_defect_of_prefix(list, index + 1);
            }
        }
        let mut frame: Vec<u8> = match write_patch(&patches[index]) {
            Ok(frame) => frame,
            Err(defect) => return Err(defect),
        };
        bytes.append(&mut frame);
        index += 1;
    }
    assert(list.take(index as int) =~= list);
    Ok(bytes)
}

/// How many bytes the frames of some patches have.
pub fn encoded_patches_len(patches: &Vec<StoragePatch>) -> (result: Result<u64, &'static str>)
    ensures
        match result {
            Ok(len) => frames_defect(patches.deep_view()) is None && len == frames_of(
                patches.deep_view(),
            ).len(),
            Err(message) => frames_defect(patches.deep_view()) == Some(message@),
        },
{
    match write_patches(patches) {
        Ok(bytes) => Ok(bytes.len() as u64),
        Err(defect) => Err(defect),
    }
}

/// The patches of a checkpoint: one for each client, then one for each retained topic.
pub open spec fn checkpoint_patches_of(projection: ProjectionView) -> Seq<StoragePatchView> {
    client_resets(entries_of::<String, ClientView>(projection.clients)) + retained_puts(
        entries_of::<String, RetainedView>(projection.retained),
    )
}

/// The reset patches of some clients.
pub open spec fn client_resets(clients: Seq<(Seq<char>, ClientView)>) -> Seq<StoragePatchView> {
    Seq::new(
        clients.len(),
        |i: int| StoragePatchView::Client(reset_patch(clients[i].0, clients[i].1)),
    )
}

/// The patches that put some retained messages.
pub open spec fn retained_puts(messages: Seq<(Seq<char>, RetainedView)>) -> Seq<StoragePatchView> {
    Seq::new(
        messages.len(),
        |i: int|
            StoragePatchView::Retained(
                RetainedPatchView { topic_name: messages[i].0, message: Some(messages[i].1) },
            ),
    )
}

/// The patches of a checkpoint.
pub fn checkpoint_patches(projection: &PersistentProjection) -> (result: Vec<StoragePatch>)
    ensures
        result.deep_view() == checkpoint_patches_of(projection.deep_view()),
{
    let mut patches: Vec<StoragePatch> = Vec::new();
    let clients: usize = projection.clients.len();
    let ghost list = projection.clients.entries();
    let mut index: usize = 0;
    while index < clients
        invariant
            index <= clients == list.len(),
            list == projection.clients.entries(),
            patches@.len() == index,
            forall|i: int|
                0 <= i < index ==> (#[trigger] patches@[i]).deep_view() == client_resets(list)[i],
        decreases clients - index,
    {
        let client_id: String = projection.clients.key_at(index).dup();
        patches.push(
            StoragePatch::Client(ClientPatch::reset(client_id, projection.clients.value_at(index))),
        );
        index += 1;
    }
    let messages: usize = projection.retained.len();
    let ghost topics = projection.retained.entries();
    let mut position: usize = 0;
    while position < messages
        invariant
            position <= messages == topics.len(),
            topics == projection.retained.entries(),
            clients == list.len(),
            patches@.len() == clients + position,
            forall|i: int|
                0 <= i < clients ==> (#[trigger] patches@[i]).deep_view() == client_resets(list)[i],
            forall|i: int|
                clients <= i < clients + position ==> (#[trigger] patches@[i]).deep_view()
                    == retained_puts(topics)[i - clients],
        decreases messages - position,
    {
        let topic_name: String = projection.retained.key_at(position).dup();
        patches.push(
            StoragePatch::Retained(
                RetainedPatch {
                    topic_name,
                    message: Some(projection.retained.value_at(position).dup()),
                },
            ),
        );
        position += 1;
    }
    assert(patches.deep_view() =~= checkpoint_patches_of(projection.deep_view()));
    patches
}

/// The bytes of a checkpoint.
pub open spec fn checkpoint_bytes(projection: ProjectionView) -> Seq<u8> {
    V2_MAGIC@ + frames_of(checkpoint_patches_of(projection)) + frame_bytes(
        CHECKPOINT_END_PAYLOAD@,
    )
}

/// The checkpoint of everything that is stored, where it can be written.
pub fn write_checkpoint(projection: &PersistentProjection) -> (result: Result<
    Vec<u8>,
    &'static str,
>)
    ensures
        match result {
            Ok(bytes) => frames_defect(checkpoint_patches_of(projection.deep_view())) is None
                && bytes@ == checkpoint_bytes(projection.deep_view()) && forall|i: int|
                0 <= i < checkpoint_patches_of(projection.deep_view()).len() ==> patch_readable(
                    #[trigger] checkpoint_patches_of(projection.deep_view())[i],
                ),
            Err(message) => frames_defect(checkpoint_patches_of(projection.deep_view())) == Some(
                message@,
            ),
        },
{
    let patches: Vec<StoragePatch> = checkpoint_patches(projection);
    let mut frames: Vec<u8> = match write_patches(&patches) {
        Ok(frames) => frames,
        Err(defect) => return Err(defect),
    };
    let end: [u8; 6] = CHECKPOINT_END_PAYLOAD;
    let mut last: Vec<u8> = match write_frame(end.as_slice()) {
        Ok(frame) => frame,
        Err(defect) => return Err(defect),
    };
    let magic: [u8; 6] = V2_MAGIC;
    let mut bytes: Vec<u8> = bytes_copy(magic.as_slice());
    bytes.append(&mut frames);
    bytes.append(&mut last);
    Ok(bytes)
}

} // verus!
