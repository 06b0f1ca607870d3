//! The log that a broker's state is stored in: when it is flushed and compacted, how a change is
//! committed, and how the state comes back.
use vstd::prelude::*;
use vstd::string::StringExecFns;

use crate::ordered_map::entries_of;
use crate::ordered_map::key_has_entry;
use crate::ordered_map::key_index;
use crate::ordered_map::listed;
use crate::retained_message::RetainedView;
use crate::session::BrokerState;
use crate::session::PersistenceChange;
use crate::session::StateView;
use crate::session::changes_of;
use crate::storage::delta::PersistentProjection;
use crate::storage::delta::ProjectionView;
use crate::storage::delta::patched;
use crate::storage::delta::patched_all;
use crate::storage::frames::FrameView;
use crate::storage::frames::ReplayMode;
use crate::storage::frames::ReplayOutcome;
use crate::storage::frames::V2_MAGIC;
use crate::storage::frames::checkpoint_patches_of;
use crate::storage::frames::client_resets;
use crate::storage::frames::frame_len;
use crate::storage::frames::frames_defect;
use crate::storage::frames::frames_of;
use crate::storage::frames::parse_frame;
use crate::storage::frames::parse_header;
use crate::storage::frames::replay_v2;
use crate::storage::frames::replay_v2_into;
use crate::storage::frames::replayed;
use crate::storage::frames::replayed_log;
use crate::storage::frames::reported;
use crate::storage::frames::retained_puts;
use crate::storage::frames::write_patches;
use crate::storage::manifest::highest_epoch;
use crate::storage::manifest::next_v2_epoch;
use crate::storage::patch_codec::patch_readable;
use crate::storage::patch_decode::patch_of;
use crate::storage::projection::canonical;
use crate::storage::projection::prepare_patches;
use crate::storage::projection::prepared;
use crate::storage::projection::restored;
use crate::storage::projection::topics_agree;
use crate::storage::snapshot::ClientView;
use crate::storage::snapshot::StoragePatch;
use crate::storage::snapshot::StoragePatchView;
use crate::storage::snapshot::patch_defect;
use crate::text::str_eq;
use crate::text::text_concat;

verus! {

pub const DEFAULT_WAL_COMPACT_MAX_BYTES: u64 = 67_108_864;
pub const DEFAULT_WAL_COMPACT_INTERVAL_MS: u64 = 600_000;

/// How many records may wait before they are flushed.
pub const BALANCED_COMMIT_RECORDS: usize = 64;

/// How soon a record must be on disk.
#[derive(Clone, Copy, Debug, PartialEq, Eq, Structural)]
pub enum CommitPolicy {
    /// At once.
    Strict,
    /// Together with some others.
    Balanced,
    /// Some time.
    Fast,
}

impl Default for CommitPolicy {
    fn default() -> (result: Self)
        ensures
            result == CommitPolicy::Balanced,
    {
        CommitPolicy::Balanced
    }
}

/// The text is no commit policy.
#[derive(Debug)]
pub struct ParseCommitPolicyError {
    pub value: String,
}

impl ParseCommitPolicyError {
    /// What is wrong, in words.
    pub fn message(&self) -> (result: String)
        ensures
            result@ == "storage.commit_policy must be one of strict, balanced, fast; got `"@
                + self.value@ + "`"@,
    {
        text_concat(
            "storage.commit_policy must be one of strict, balanced, fast; got `",
            self.value.as_str(),
        ).concat("`")
    }
}

/// The commit policy that a text names.
pub open spec fn policy_named(text: Seq<char>) -> Option<CommitPolicy> {
    if text == "strict"@ {
        Some(CommitPolicy::Strict)
    } else if text == "balanced"@ {
        Some(CommitPolicy::Balanced)
    } else if text == "fast"@ {
        Some(CommitPolicy::Fast)
    } else {
        None
    }
}

impl CommitPolicy {
    /// The commit policy that a text names.
    pub fn from_str(value: &str) -> (result: Result<Self, ParseCommitPolicyError>)
        ensures
            match policy_named(value@) {
                Some(policy) => result == Ok::<Self, ParseCommitPolicyError>(policy),
                None => result matches Err(error) && error.value@ == value@,
            },
    {
        if str_eq(value, "strict") {
            Ok(CommitPolicy::Strict)
        } else if str_eq(value, "balanced") {
            Ok(CommitPolicy::Balanced)
        } else if str_eq(value, "fast") {
            Ok(CommitPolicy::Fast)
        } else {
            Err(ParseCommitPolicyError { value: value.to_owned() })
        }
    }
}

/// When a log is compacted: when it is longer, or older; zero is never.
#[derive(Clone, Copy, Debug, PartialEq, Eq, Structural)]
pub struct WalCompactConfig {
    pub max_bytes: u64,
    pub interval_ms: u64,
}

impl Default for WalCompactConfig {
    fn default() -> (result: Self)
        ensures
            result == (WalCompactConfig {
                max_bytes: DEFAULT_WAL_COMPACT_MAX_BYTES,
                interval_ms: DEFAULT_WAL_COMPACT_INTERVAL_MS,
            }),
    {
        WalCompactConfig {
            max_bytes: DEFAULT_WAL_COMPACT_MAX_BYTES,
            interval_ms: DEFAULT_WAL_COMPACT_INTERVAL_MS,
        }
    }
}

/// What is known of the log in use.
#[derive(Clone, Copy, Debug, PartialEq, Eq, Structural)]
pub struct LogState {
    pub active_epoch: u64,
    pub commit_policy: CommitPolicy,
    pub compact: WalCompactConfig,
    pub current_bytes: u64,
    pub records_since_checkpoint: usize,
    pub pending_balanced_records: usize,
}

/// The log was written to under a policy, and must be flushed now.
pub open spec fn flush_due(policy: CommitPolicy, pending: nat) -> bool {
    match policy {
        CommitPolicy::Strict => true,
        CommitPolicy::Balanced => pending >= BALANCED_COMMIT_RECORDS,
        CommitPolicy::Fast => false,
    }
}

/// The generation to compact to: after those of the files that are there and after the one in use.
pub open spec fn compaction_epoch_of(active_epoch: u64, names: Seq<Seq<char>>) -> int {
    let next = highest_epoch(names) + 1;
    let own = if active_epoch == u64::MAX {
        u64::MAX as int
    } else {
        active_epoch + 1
    };
    if next > own {
        next
    } else {
        own
    }
}

impl LogState {
    /// A log of some length that is opened.
    pub fn open(
        active_epoch: u64,
        commit_policy: CommitPolicy,
        compact: WalCompactConfig,
        current_bytes: u64,
    ) -> (result: Self)
        ensures
            result == (LogState {
                active_epoch,
                commit_policy,
                compact,
                current_bytes,
                records_since_checkpoint: 0,
                pending_balanced_records: 0,
            }),
    {
        LogState {
            active_epoch,
            commit_policy,
            compact,
            current_bytes,
            records_since_checkpoint: 0,
            pending_balanced_records: 0,
        }
    }

    /// Takes note that records were written. Returns whether the log must be flushed now.
    pub fn appended(&mut self, bytes: u64, records: usize) -> (flush: bool)
        requires
            old(self).current_bytes + bytes <= u64::MAX,
            old(self).records_since_checkpoint + records <= usize::MAX,
            old(self).pending_balanced_records + records <= usize::MAX,
        ensures
            flush == flush_due(
                old(self).commit_policy,
                old(self).pending_balanced_records as nat + records as nat,
            ),
            *final(self) == (LogState {
                current_bytes: (old(self).current_bytes + bytes) as u64,
                records_since_checkpoint: (old(self).records_since_checkpoint + records) as usize,
                pending_balanced_records: if old(self).commit_policy == CommitPolicy::Fast {
                    old(self).pending_balanced_records
                } else if flush {
                    0
                } else {
                    (old(self).pending_balanced_records + records) as usize
                },
                ..*old(self)
            }),
    {
        self.current_bytes = self.current_bytes + bytes;
        self.records_since_checkpoint = self.records_since_checkpoint + records;
        let pending: usize = self.pending_balanced_records + records;
        let flush: bool = match self.commit_policy {
            CommitPolicy::Strict => true,
            CommitPolicy::Balanced => pending >= BALANCED_COMMIT_RECORDS,
            CommitPolicy::Fast => return false,
        };
        self.pending_balanced_records = if flush {
            0
        } else {
            pending
        };
        flush
    }

    /// Whether the log is to be compacted, some time after it last was.
    pub fn compaction_due(&self, elapsed_ms: u64) -> (result: bool)
        ensures
            result == {
                ||| self.compact.max_bytes != 0 && self.current_bytes > self.compact.max_bytes
                ||| self.compact.interval_ms != 0 && self.records_since_checkpoint > 0
                    && elapsed_ms >= self.compact.interval_ms
            },
    {
        let size_triggered: bool = self.compact.max_bytes != 0 && self.current_bytes
            > self.compact.max_bytes;
        let time_triggered: bool = self.compact.interval_ms != 0 && self.records_since_checkpoint
            > 0 && elapsed_ms >= self.compact.interval_ms;
        size_triggered || time_triggered
    }

    /// The generation to compact to: after those of the files that are there and after this one.
    pub fn compaction_epoch(&self, names: &Vec<String>) -> (result: Result<u64, &'static str>)
        ensures
            match result {
                Ok(epoch) => highest_epoch(names.deep_view()) < u64::MAX && epoch
                    == compaction_epoch_of(self.active_epoch, names.deep_view()),
                Err(message) => highest_epoch(names.deep_view()) == u64::MAX && message@
                    == "PBIN2 epoch exhausted"@,
            },
    {
        let next: u64 = match next_v2_epoch(names) {
            Ok(next) => next,
            Err(message) => return Err(message),
        };
        let own: u64 = self.active_epoch.saturating_add(1);
        Ok(
            if next > own {
                next
            } else {
                own
            },
        )
    }

    /// Takes note that the log was compacted to a generation.
    pub fn compacted(&mut self, epoch: u64)
        ensures
            *final(self) == (LogState {
                active_epoch: epoch,
                current_bytes: V2_MAGIC@.len() as u64,
                records_since_checkpoint: 0,
                pending_balanced_records: 0,
                ..*old(self)
            }),
    {
        self.active_epoch = epoch;
        self.current_bytes = 6;
        self.records_since_checkpoint = 0;
        self.pending_balanced_records = 0;
    }
}

/// A replayed patch keeps each retained message under its own topic.
pub proof fn replay_keeps_topics(
    projection: ProjectionView,
    bytes: Seq<u8>,
    mode: ReplayMode,
    valid_len: nat,
)
    requires
        topics_agree(projection.retained),
    ensures
        topics_agree(replayed(projection, bytes, mode, valid_len).projection.retained),
    decreases bytes.len(),
{
    if let Ok(FrameView::Complete(payload, checksum, rest)) = parse_frame(
        bytes,
        mode,
        "PBIN2"@,
    ) {
        if let Ok(patch) = patch_of(payload) {
            if let Ok(next) = patched(projection, patch) {
                assert(topics_agree(next.retained));
                replay_keeps_topics(next, rest, mode, valid_len + frame_len(payload));
            }
        }
    }
}

/// What a checkpoint and the log after it hold.
pub struct RecoveredLog {
    pub projection: PersistentProjection,
    /// How much of the log is whole, where it ends inside a frame.
    pub valid_len: Option<u64>,
    /// Whether what is stored changed, because nobody is connected any more.
    pub changed: bool,
}

/// What a `RecoveredLog` stands for.
pub struct RecoveredView {
    pub projection: ProjectionView,
    pub valid_len: Option<u64>,
    pub changed: bool,
}

impl DeepView for RecoveredLog {
    type V = RecoveredView;

    open spec fn deep_view(&self) -> RecoveredView {
        RecoveredView {
            projection: self.projection.deep_view(),
            valid_len: self.valid_len,
            changed: self.changed,
        }
    }
}

/// Nothing is stored.
pub open spec fn nothing_stored() -> ProjectionView {
    ProjectionView { clients: Map::empty(), retained: Map::empty() }
}

/// What a checkpoint and the log after it hold once nobody is connected: the checkpoint must be
/// whole, the log may end inside a frame.
pub open spec fn recovered_v2(checkpoint: Seq<u8>, wal: Seq<u8>, now_ms: u64) -> Result<
    RecoveredView,
    Seq<char>,
> {
    let base = replayed_log(nothing_stored(), checkpoint, ReplayMode::Strict);
    match base.outcome {
        Err(message) => Err(message),
        Ok(_) => {
            let full = replayed_log(base.projection, wal, ReplayMode::AllowPhysicalTail);
            match full.outcome {
                Err(message) => Err(message),
                Ok((valid_len, truncated)) => Ok(
                    RecoveredView {
                        projection: canonical(full.projection, now_ms),
                        valid_len: if truncated {
                            Some(valid_len as u64)
                        } else {
                            None
                        },
                        changed: canonical(full.projection, now_ms) != full.projection,
                    },
                ),
            }
        },
    }
}

/// What a checkpoint and the log after it hold once nobody is connected.
pub fn recover_v2(checkpoint: &[u8], wal: &[u8], now_ms: u64) -> (result: Result<
    RecoveredLog,
    String,
>)
    ensures
        reported(result, recovered_v2(checkpoint@, wal@, now_ms)),
        result matches Ok(found) ==> topics_agree(found.projection.deep_view().retained),
{
    let mut projection: PersistentProjection = replay_v2(checkpoint, ReplayMode::Strict)?;
    proof {
        let base = nothing_stored();
        if let Ok(rest) = parse_header(checkpoint@, V2_MAGIC@, "PBIN2"@) {
            replay_keeps_topics(base, rest, ReplayMode::Strict, V2_MAGIC@.len());
        }
        let first = replayed_log(base, checkpoint@, ReplayMode::Strict).projection;
        if let Ok(rest) = parse_header(wal@, V2_MAGIC@, "PBIN2"@) {
            replay_keeps_topics(first, rest, ReplayMode::AllowPhysicalTail, V2_MAGIC@.len());
        }
    }
    let replay: ReplayOutcome = replay_v2_into(
        wal,
        &mut projection,
        ReplayMode::AllowPhysicalTail,
    )?;
    let changed: bool = projection.canonicalize_for_offline_recovery(now_ms);
    let valid_len: Option<u64> = if replay.truncated_tail {
        Some(replay.valid_len)
    } else {
        None
    };
    Ok(RecoveredLog { projection, valid_len, changed })
}

/// Each of some patches that can be written is without defect.
proof fn framed_without_defect(patches: Seq<StoragePatchView>, index: int)
    requires
        frames_defect(patches) is None,
        0 <= index < patches.len(),
    ensures
        patch_defect(patches[index]) is None,
    decreases patches.len(),
{
    if index < patches.len() - 1 {
        framed_without_defect(patches.drop_last(), index);
        assert(patches.drop_last()[index] == patches[index]);
    }
}

/// A checkpoint that can be written has each retained message under its own topic.
pub proof fn checkpoint_topics_agree(projection: ProjectionView)
    requires
        listed::<String, RetainedView>(projection.retained),
        frames_defect(checkpoint_patches_of(projection)) is None,
    ensures
        topics_agree(projection.retained),
{
    let clients = client_resets(entries_of::<String, ClientView>(projection.clients));
    let messages = entries_of::<String, RetainedView>(projection.retained);
    let patches = checkpoint_patches_of(projection);
    assert forall|topic: Seq<char>| #[trigger] projection.retained.dom().contains(topic) implies
        projection.retained[topic].topic_name == topic by {
        key_has_entry(messages, topic);
        let i = key_index(messages, topic);
        framed_without_defect(patches, clients.len() + i);
        assert(patches[clients.len() + i] == retained_puts(messages)[i]);
    }
}

/// A broker's state, and what is stored of it.
pub struct BinaryStorage {
    pub state: BrokerState,
    pub projection: PersistentProjection,
}

/// Patches that are to be written before they count.
pub struct PendingCommit {
    pub patches: Vec<StoragePatch>,
    pub frames: Vec<u8>,
}

impl BinaryStorage {
    /// The storage that goes on from what is stored.
    pub fn open(projection: PersistentProjection, now_ms: u64) -> (result: Self)
        ensures
            result.state.wf(),
            result.state.deep_view() == restored(projection.deep_view(), now_ms),
            result.projection.deep_view() == projection.deep_view(),
    {
        BinaryStorage { state: projection.into_state(now_ms), projection }
    }

    /// What is to be written for the changes of the state since the last commit, if anything. Where
    /// nothing is to be written, the changes are forgotten.
    pub fn begin_commit(&mut self) -> (result: Result<Option<PendingCommit>, &'static str>)
        requires
            old(self).state.wf(),
        ensures
            final(self).state.wf(),
            final(self).projection.deep_view() == old(self).projection.deep_view(),
            ({
                let patches = prepared(
                    old(self).projection.deep_view(),
                    old(self).state.deep_view(),
                    changes_of(old(self).state.deep_view()),
                );
                match result {
                    Ok(None) => patches.len() == 0 && final(self).state.deep_view()
                        == changes_forgotten(old(self).state.deep_view()),
                    Ok(Some(pending)) => {
                        &&& patches.len() > 0
                        &&& frames_defect(patches) is None
                        &&& pending.patches.deep_view() == patches
                        &&& pending.frames@ == frames_of(patches)
                        &&& forall|i: int|
                            0 <= i < patches.len() ==> patch_readable(#[trigger] patches[i])
                        &&& final(self).state.deep_view() == old(self).state.deep_view()
                    },
                    Err(message) => frames_defect(patches) == Some(message@)
                        && final(self).state.deep_view() == old(self).state.deep_view(),
                }
            }),
    {
        let changes: Vec<PersistenceChange> = self.state.persistence_changes();
        let patches: Vec<StoragePatch> = prepare_patches(&self.projection, &self.state, &changes);
        assert(patches.deep_view().len() == patches@.len());
        if patches.len() == 0 {
            let _taken: Vec<PersistenceChange> = self.state.take_persistence_changes();
            return Ok(None);
        }
        match write_patches(&patches) {
            Ok(frames) => Ok(Some(PendingCommit { patches, frames })),
            Err(message) => Err(message),
        }
    }

    /// Lets patches that have been written count, and forgets the changes. Where a patch cannot be
    /// applied, those before it count and the changes stay.
    pub fn finish_commit(&mut self, patches: &Vec<StoragePatch>) -> (result: Result<
        (),
        &'static str,
    >)
        requires
            old(self).state.wf(),
        ensures
            final(self).state.wf(),
            match result {
                Ok(()) => {
                    &&& patched_all(old(self).projection.deep_view(), patches.deep_view()) == Ok::<
                        ProjectionView,
                        Seq<char>,
                    >(final(self).projection.deep_view())
                    &&& final(self).state.deep_view() == changes_forgotten(
                        old(self).state.deep_view(),
                    )
                },
                Err(message) => {
                    &&& patched_all(old(self).projection.deep_view(), patches.deep_view()) == Err::<
                        ProjectionView,
                        Seq<char>,
                    >(message@)
                    &&& final(self).projection.deep_view() == patched_until(
                        old(self).projection.deep_view(),
                        patches.deep_view(),
                    )
                    &&& final(self).state.deep_view() == old(self).state.deep_view()
                },
            },
    {
        let ghost list = patches.deep_view();
        let ghost start = self.projection.deep_view();
        let mut index: usize = 0;
        while index < patches.len()
            invariant
                index <= patches@.len(),
                list == patches.deep_view(),
                start == old(self).projection.deep_view(),
                self.state.wf(),
                self.state.deep_view() == old(self).state.deep_view(),
                patched_all(start, list.take(index as int)) == Ok::<ProjectionView, Seq<char>>(
                    self.projection.deep_view(),
                ),
            decreases patches@.len() - index,
        {
            proof {
                assert(list.take(index + 1).drop_last() =~= list.take(index as int));
                assert(list.take(index + 1).last() == patches@[index as int].deep_view());
            }
            match self.projection.apply_patch(&patches[index]) {
                Ok(()) => {},
                Err(message) => {
                    proof {
                        patches_fail_early(start, list, index + 1);
                    }
                    return Err(message);
                },
            }
            index += 1;
        }
        assert(list.take(index as int) =~= list);
        let _taken: Vec<PersistenceChange> = self.state.take_persistence_changes();
        Ok(())
    }
}

/// The state with no change left to store.
pub open spec fn changes_forgotten(state: StateView) -> StateView {
    StateView { client_changes: Map::empty(), retained_changes: Set::empty(), ..state }
}

/// Everything that is stored after some patches up to the first that cannot be applied.
pub open spec fn patched_until(
    projection: ProjectionView,
    patches: Seq<StoragePatchView>,
) -> ProjectionView
    decreases patches.len(),
{
    if patches.len() == 0 {
        projection
    } else {
        match patched_all(projection, patches.drop_last()) {
            Err(_) => patched_until(projection, patches.drop_last()),
            Ok(before) => match patched(before, patches.last()) {
                Err(_) => before,
                Ok(after) => after,
            },
        }
    }
}

/// Patches behind one that cannot be applied do not matter.
proof fn patches_fail_early(projection: ProjectionView, patches: Seq<StoragePatchView>, count: int)
    requires
        0 <= count <= patches.len(),
        patched_all(projection, patches.take(count)) is Err,
    ensures
        patched_all(projection, patches) == patched_all(projection, patches.take(count)),
        patched_until(projection, patches) == patched_until(projection, patches.take(count)),
    decreases patches.len() - count,
{
    if count < patches.len() {
        assert(patches.take(count + 1).drop_last() =~= patches.take(count));
        patches_fail_early(projection, patches, count + 1);
    } else {
        assert(patches.take(count) =~= patches);
    }
}

} // verus!
