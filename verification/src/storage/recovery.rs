//! How a log directory is opened: which files are read, and what is written before it is used.
use vstd::prelude::*;

use crate::storage::delta::PersistentProjection;
use crate::storage::delta::ProjectionView;
use crate::storage::frames::V2_MAGIC;
use crate::storage::frames::checkpoint_bytes;
use crate::storage::frames::checkpoint_patches_of;
use crate::storage::frames::frames_defect;
use crate::storage::frames::reported;
use crate::storage::frames::write_checkpoint;
use crate::storage::log::LogState;
use crate::storage::log::RecoveredLog;
use crate::storage::log::RecoveredView;
use crate::storage::log::checkpoint_topics_agree;
use crate::storage::log::compaction_epoch_of;
use crate::storage::log::recover_v2;
use crate::storage::log::recovered_v2;
use crate::storage::manifest::LogFormat;
use crate::storage::manifest::WalManifest;
use crate::storage::manifest::highest_epoch;
use crate::storage::manifest::manifest_format;
use crate::storage::manifest::manifest_of;
use crate::storage::manifest::manifest_text;
use crate::storage::manifest::next_v2_epoch;
use crate::storage::manifest::read_manifest;
use crate::storage::manifest::v2_manifest;
use crate::storage::manifest_laws::written_manifest_reads_back;
use crate::storage::offline_state::OfflineState;
use crate::storage::offline_state::OfflineView;
use crate::storage::offline_state::offline_projected;
use crate::storage::projection::canonical;
use crate::storage::projection::topics_agree;
use crate::storage::replay_laws::checkpoint_replays;
use crate::storage::replay_laws::storable_projection;
use crate::storage::replay_laws::written;
use crate::text::bytes_copy;

verus! {

/// The files to read.
pub enum ReadPlan {
    /// A checkpoint and the log after it.
    V2 { checkpoint: String, active_log: String, active_epoch: u64 },
    /// A checkpoint and the log after it, in the first format.
    V1 { checkpoint: String, active_log: String },
    /// A log in the first format alone.
    LegacyLog,
    /// Nothing.
    Nothing,
}

/// What a `ReadPlan` stands for.
pub enum ReadPlanView {
    V2 { checkpoint: Seq<char>, active_log: Seq<char>, active_epoch: u64 },
    V1 { checkpoint: Seq<char>, active_log: Seq<char> },
    LegacyLog,
    Nothing,
}

impl DeepView for ReadPlan {
    type V = ReadPlanView;

    open spec fn deep_view(&self) -> ReadPlanView {
        match *self {
            ReadPlan::V2 { checkpoint, active_log, active_epoch } => ReadPlanView::V2 {
                checkpoint: checkpoint@,
                active_log: active_log@,
                active_epoch,
            },
            ReadPlan::V1 { checkpoint, active_log } => ReadPlanView::V1 {
                checkpoint: checkpoint@,
                active_log: active_log@,
            },
            ReadPlan::LegacyLog => ReadPlanView::LegacyLog,
            ReadPlan::Nothing => ReadPlanView::Nothing,
        }
    }
}

/// The files to read of a directory with a manifest, or without one but maybe with an old log.
pub open spec fn read_plan(manifest: Option<Seq<char>>, legacy_log: bool) -> Result<
    ReadPlanView,
    Seq<char>,
> {
    match manifest {
        None => Ok(
            if legacy_log {
                ReadPlanView::LegacyLog
            } else {
                ReadPlanView::Nothing
            },
        ),
        Some(text) => match manifest_of(text) {
            Err(message) => Err(message),
            Ok(found) => match manifest_format(found) {
                Err(message) => Err(message),
                Ok(LogFormat::V2) => Ok(
                    ReadPlanView::V2 {
                        checkpoint: found.checkpoint,
                        active_log: found.active_log,
                        active_epoch: found.active_epoch,
                    },
                ),
                Ok(LogFormat::V1) => Ok(
                    ReadPlanView::V1 {
                        checkpoint: found.checkpoint,
                        active_log: found.active_log,
                    },
                ),
            },
        },
    }
}

/// The files to read of a directory.
pub fn plan_reading(manifest: Option<&str>, legacy_log: bool) -> (result: Result<ReadPlan, String>)
    ensures
        reported(
            result,
            read_plan(
                match manifest {
                    Some(text) => Some(text@),
                    None => None,
                },
                legacy_log,
            ),
        ),
{
    let text: &str = match manifest {
        Some(text) => text,
        None => return Ok(
            if legacy_log {
                ReadPlan::LegacyLog
            } else {
                ReadPlan::Nothing
            },
        ),
    };
    let found: WalManifest = read_manifest(text)?;
    match found.check() {
        Err(message) => Err(message),
        Ok(LogFormat::V2) => Ok(
            ReadPlan::V2 {
                checkpoint: found.checkpoint,
                active_log: found.active_log,
                active_epoch: found.active_epoch,
            },
        ),
        Ok(LogFormat::V1) => Ok(
            ReadPlan::V1 { checkpoint: found.checkpoint, active_log: found.active_log },
        ),
    }
}

/// The files of a generation.
pub struct Generation {
    pub epoch: u64,
    pub checkpoint: Vec<u8>,
    pub wal: Vec<u8>,
    pub manifest: String,
}

/// What a `Generation` stands for.
pub struct GenerationView {
    pub epoch: u64,
    pub checkpoint: Seq<u8>,
    pub wal: Seq<u8>,
    pub manifest: Seq<char>,
}

impl DeepView for Generation {
    type V = GenerationView;

    open spec fn deep_view(&self) -> GenerationView {
        GenerationView {
            epoch: self.epoch,
            checkpoint: self.checkpoint@,
            wal: self.wal@,
            manifest: self.manifest@,
        }
    }
}

/// The files of a generation that starts with what is stored: a checkpoint, an empty log, and the
/// manifest that names them.
pub open spec fn generation_of(projection: ProjectionView, epoch: u64) -> GenerationView {
    GenerationView {
        epoch,
        checkpoint: checkpoint_bytes(projection),
        wal: V2_MAGIC@,
        manifest: manifest_text(v2_manifest(epoch)),
    }
}

/// The files of a generation that starts with what is stored, where that can be written.
pub fn new_generation(projection: &PersistentProjection, epoch: u64) -> (result: Result<
    Generation,
    &'static str,
>)
    ensures
        match result {
            Ok(generation) => frames_defect(checkpoint_patches_of(projection.deep_view())) is None
                && generation.deep_view() == generation_of(projection.deep_view(), epoch),
            Err(message) => frames_defect(checkpoint_patches_of(projection.deep_view())) == Some(
                message@,
            ),
        },
{
    let checkpoint: Vec<u8> = match write_checkpoint(projection) {
        Ok(checkpoint) => checkpoint,
        Err(message) => return Err(message),
    };
    let magic: [u8; 6] = V2_MAGIC;
    Ok(
        Generation {
            epoch,
            checkpoint,
            wal: bytes_copy(magic.as_slice()),
            manifest: WalManifest::v2(epoch).encode(),
        },
    )
}

/// What a directory holds once it is opened, and what is to be done to it before.
pub struct StartPlan {
    pub projection: PersistentProjection,
    /// How long the log is to be made, where it ends inside a frame.
    pub truncate: Option<u64>,
    /// The generation in use; where it is a new one, its files are to be written first.
    pub active_epoch: u64,
    pub generation: Option<Generation>,
}

/// What a `StartPlan` stands for.
pub struct StartView {
    pub projection: ProjectionView,
    pub truncate: Option<u64>,
    pub active_epoch: u64,
    pub generation: Option<GenerationView>,
}

impl DeepView for StartPlan {
    type V = StartView;

    open spec fn deep_view(&self) -> StartView {
        StartView {
            projection: self.projection.deep_view(),
            truncate: self.truncate,
            active_epoch: self.active_epoch,
            generation: self.generation.deep_view(),
        }
    }
}

/// A start with a new generation, the next after those of some files, where it can be written.
pub open spec fn fresh_start(
    projection: ProjectionView,
    truncate: Option<u64>,
    names: Seq<Seq<char>>,
) -> Result<StartView, Seq<char>> {
    let epoch = (highest_epoch(names) + 1) as u64;
    if highest_epoch(names) == u64::MAX {
        Err("PBIN2 epoch exhausted"@)
    } else {
        match frames_defect(checkpoint_patches_of(projection)) {
            Some(message) => Err(message),
            None => Ok(
                StartView {
                    projection,
                    truncate,
                    active_epoch: epoch,
                    generation: Some(generation_of(projection, epoch)),
                },
            ),
        }
    }
}

/// A start from a checkpoint and the log after it: with the same files, unless what is stored
/// changes because nobody is connected any more.
pub open spec fn v2_start(
    epoch: u64,
    checkpoint: Seq<u8>,
    wal: Seq<u8>,
    names: Seq<Seq<char>>,
    now_ms: u64,
) -> Result<StartView, Seq<char>> {
    match recovered_v2(checkpoint, wal, now_ms) {
        Err(message) => Err(message),
        Ok(found) => if found.changed {
            fresh_start(found.projection, found.valid_len, names)
        } else {
            Ok(
                StartView {
                    projection: found.projection,
                    truncate: found.valid_len,
                    active_epoch: epoch,
                    generation: None,
                },
            )
        },
    }
}

/// A start with a new generation.
fn start_fresh(
    projection: PersistentProjection,
    truncate: Option<u64>,
    names: &Vec<String>,
) -> (result: Result<StartPlan, String>)
    ensures
        reported(result, fresh_start(projection.deep_view(), truncate, names.deep_view())),
{
    let epoch: u64 = match next_v2_epoch(names) {
        Ok(epoch) => epoch,
        Err(message) => return Err(message.to_owned()),
    };
    match new_generation(&projection, epoch) {
        Ok(generation) => Ok(
            StartPlan {
                projection,
                truncate,
                active_epoch: epoch,
                generation: Some(generation),
            },
        ),
        Err(message) => Err(message.to_owned()),
    }
}

/// A start from a checkpoint and the log after it.
pub fn plan_v2_start(
    epoch: u64,
    checkpoint: &[u8],
    wal: &[u8],
    names: &Vec<String>,
    now_ms: u64,
) -> (result: Result<StartPlan, String>)
    ensures
        reported(result, v2_start(epoch, checkpoint@, wal@, names.deep_view(), now_ms)),
        result matches Ok(plan) ==> topics_agree(plan.projection.deep_view().retained),
{
    let found: RecoveredLog = recover_v2(checkpoint, wal, now_ms)?;
    if found.changed {
        start_fresh(found.projection, found.valid_len, names)
    } else {
        Ok(
            StartPlan {
                projection: found.projection,
                truncate: found.valid_len,
                active_epoch: epoch,
                generation: None,
            },
        )
    }
}

/// A start from a state in the first format, or from nothing.
pub open spec fn offline_start(state: OfflineView, names: Seq<Seq<char>>, now_ms: u64) -> Result<
    StartView,
    Seq<char>,
> {
    fresh_start(canonical(offline_projected(state), now_ms), None, names)
}

/// A start from a state in the first format, or from nothing.
pub fn plan_offline_start(state: &OfflineState, names: &Vec<String>, now_ms: u64) -> (result:
    Result<StartPlan, String>)
    ensures
        reported(result, offline_start(state.deep_view(), names.deep_view(), now_ms)),
        result matches Ok(plan) ==> topics_agree(plan.projection.deep_view().retained),
{
    let mut projection: PersistentProjection = state.into_projection();
    let _changed: bool = projection.canonicalize_for_offline_recovery(now_ms);
    let count: usize = projection.retained.len();
    proof {
        if frames_defect(checkpoint_patches_of(projection.deep_view())) is None {
            checkpoint_topics_agree(projection.deep_view());
        }
    }
    start_fresh(projection, None, names)
}

/// The generation that a log is compacted to, where it can be written.
pub fn plan_compaction(
    log: &LogState,
    projection: &PersistentProjection,
    names: &Vec<String>,
) -> (result: Result<Generation, &'static str>)
    ensures
        match result {
            Ok(generation) => {
                &&& highest_epoch(names.deep_view()) < u64::MAX
                &&& frames_defect(checkpoint_patches_of(projection.deep_view())) is None
                &&& generation.epoch == compaction_epoch_of(log.active_epoch, names.deep_view())
                &&& generation.deep_view() == generation_of(
                    projection.deep_view(),
                    generation.epoch,
                )
            },
            Err(message) => if highest_epoch(names.deep_view()) == u64::MAX {
                message@ == "PBIN2 epoch exhausted"@
            } else {
                frames_defect(checkpoint_patches_of(projection.deep_view())) == Some(message@)
            },
        },
{
    let epoch: u64 = match log.compaction_epoch(names) {
        Ok(epoch) => epoch,
        Err(message) => return Err(message),
    };
    new_generation(projection, epoch)
}

/// What a generation holds when it is opened is what it was started with, once nobody is connected.
pub proof fn generation_comes_back(projection: ProjectionView, epoch: u64, now_ms: u64)
    requires
        storable_projection(projection),
        written(checkpoint_patches_of(projection)),
    ensures
        read_plan(Some(generation_of(projection, epoch).manifest), false) == Ok::<
            ReadPlanView,
            Seq<char>,
        >(
            ReadPlanView::V2 {
                checkpoint: v2_manifest(epoch).checkpoint,
                active_log: v2_manifest(epoch).active_log,
                active_epoch: epoch,
            },
        ),
        ({
            let files = generation_of(projection, epoch);
            recovered_v2(files.checkpoint, files.wal, now_ms) == Ok::<RecoveredView, Seq<char>>(
                RecoveredView {
                    projection: canonical(projection, now_ms),
                    valid_len: None,
                    changed: canonical(projection, now_ms) != projection,
                },
            )
        }),
{
    written_manifest_reads_back(epoch);
    checkpoint_replays(projection);
    let wal = V2_MAGIC@;
    assert(wal.take(V2_MAGIC@.len() as int) =~= V2_MAGIC@);
    assert(wal.skip(V2_MAGIC@.len() as int) =~= Seq::<u8>::empty());
}

} // verus!
