//! The files of a log directory: their names, and the manifest that says which are in use.
use vstd::prelude::*;
use vstd::string::StringExecFns;

use crate::numbers::decimal;
use crate::numbers::decimal_text;
use crate::numbers::fault_text;
use crate::numbers::number_of;
use crate::numbers::parse_number;
use crate::numbers::written_number_reads_back;
use crate::storage::frames::reported;
use crate::text::ends_with;
use crate::text::has_suffix;
use crate::text::pieces;
use crate::text::split_first;
use crate::text::split_once;
use crate::text::split_text;
use crate::text::str_eq;
use crate::text::strip_prefix;
use crate::text::text_concat;
use crate::text::text_has;
use crate::text::trim_text;
use crate::text::trimmed;
use crate::text::without_prefix;
use crate::value::Value;

verus! {

pub const LEGACY_LOG_FILE_NAME: &'static str = "broker.binlog";
pub const LEGACY_CHECKPOINT_FILE_NAME: &'static str = "broker.checkpoint";
pub const MANIFEST_FILE_NAME: &'static str = "broker.manifest";
pub const V2_FORMAT: &'static str = "pbin2";
pub const V2_CHECKPOINT_PREFIX: &'static str = "broker.pbin2.checkpoint.";
pub const V2_WAL_PREFIX: &'static str = "broker.pbin2.wal.";
pub const LEGACY_WAL_PREFIX: &'static str = "broker.binlog.";
pub const TMP_SUFFIX: &'static str = ".tmp";

/// The name of a file of a generation.
pub open spec fn numbered_name(prefix: Seq<char>, epoch: u64) -> Seq<char> {
    prefix + decimal(epoch as nat)
}

/// The generation that a file's name tells.
pub open spec fn epoch_in(name: Seq<char>, prefix: Seq<char>) -> Option<u64> {
    match without_prefix(name, prefix) {
        Some(rest) => match number_of(rest, u64::MAX as nat) {
            Ok(epoch) => Some(epoch as u64),
            Err(_) => None,
        },
        None => None,
    }
}

/// The name of a checkpoint.
pub fn v2_checkpoint_file_name(epoch: u64) -> (result: String)
    ensures
        result@ == numbered_name(V2_CHECKPOINT_PREFIX@, epoch),
{
    text_concat(V2_CHECKPOINT_PREFIX, decimal_text(epoch).as_str())
}

/// The name of a log.
pub fn v2_wal_file_name(epoch: u64) -> (result: String)
    ensures
        result@ == numbered_name(V2_WAL_PREFIX@, epoch),
{
    text_concat(V2_WAL_PREFIX, decimal_text(epoch).as_str())
}

/// The name of a log in the first format.
pub fn legacy_wal_file_name(epoch: u64) -> (result: String)
    ensures
        result@ == numbered_name(LEGACY_WAL_PREFIX@, epoch),
{
    text_concat(LEGACY_WAL_PREFIX, decimal_text(epoch).as_str())
}

/// The name of a file while it is being written.
pub fn tmp_file_name(name: &str) -> (result: String)
    ensures
        result@ == name@ + TMP_SUFFIX@,
{
    text_concat(name, TMP_SUFFIX)
}

/// The generation that a file's name tells.
pub fn v2_epoch_from_name(name: &str, prefix: &str) -> (result: Option<u64>)
    ensures
        result == epoch_in(name@, prefix@),
{
    match strip_prefix(name, prefix) {
        Some(rest) => match parse_number(rest.as_str(), u64::MAX) {
            Ok(epoch) => Some(epoch),
            Err(_) => None,
        },
        None => None,
    }
}

/// The generation that the name of a log in the first format tells.
pub fn legacy_wal_epoch_from_file_name(name: &str) -> (result: Option<u64>)
    ensures
        result == epoch_in(name@, LEGACY_WAL_PREFIX@),
{
    v2_epoch_from_name(name, LEGACY_WAL_PREFIX)
}

/// A file's name tells the generation that it was given.
pub proof fn name_tells_epoch(prefix: Seq<char>, epoch: u64)
    ensures
        epoch_in(numbered_name(prefix, epoch), prefix) == Some(epoch),
{
    let name = numbered_name(prefix, epoch);
    assert(name.take(prefix.len() as int) =~= prefix);
    assert(name.skip(prefix.len() as int) =~= decimal(epoch as nat));
    written_number_reads_back(epoch as nat, u64::MAX as nat);
}

/// Which files are in use.
pub struct WalManifest {
    pub version: u32,
    pub format: Option<String>,
    pub checkpoint: String,
    pub active_log: String,
    pub active_epoch: u64,
}

/// What a `WalManifest` stands for.
pub struct ManifestView {
    pub version: u32,
    pub format: Option<Seq<char>>,
    pub checkpoint: Seq<char>,
    pub active_log: Seq<char>,
    pub active_epoch: u64,
}

impl DeepView for WalManifest {
    type V = ManifestView;

    open spec fn deep_view(&self) -> ManifestView {
        ManifestView {
            version: self.version,
            format: self.format.deep_view(),
            checkpoint: self.checkpoint@,
            active_log: self.active_log@,
            active_epoch: self.active_epoch,
        }
    }
}

/// The manifest of a generation.
pub open spec fn v2_manifest(epoch: u64) -> ManifestView {
    ManifestView {
        version: 2,
        format: Some(V2_FORMAT@),
        checkpoint: numbered_name(V2_CHECKPOINT_PREFIX@, epoch),
        active_log: numbered_name(V2_WAL_PREFIX@, epoch),
        active_epoch: epoch,
    }
}

/// A line of a manifest.
pub open spec fn field_line(key: Seq<char>, value: Seq<char>) -> Seq<char> {
    key + "="@ + value + "\n"@
}

/// The text of a manifest.
pub open spec fn manifest_text(manifest: ManifestView) -> Seq<char> {
    field_line("version"@, decimal(manifest.version as nat)) + (match manifest.format {
        Some(format) => field_line("format"@, format),
        None => Seq::empty(),
    }) + field_line("checkpoint"@, manifest.checkpoint) + field_line(
        "active_log"@,
        manifest.active_log,
    ) + field_line("active_epoch"@, decimal(manifest.active_epoch as nat))
}

fn line(key: &str, value: &str) -> (result: String)
    ensures
        result@ == field_line(key@, value@),
{
    text_concat(key, "=").concat(value).concat("\n")
}

/// The fields that the lines of a manifest have set.
pub struct ManifestFields {
    pub version: Option<u32>,
    pub format: Option<String>,
    pub checkpoint: Option<String>,
    pub active_log: Option<String>,
    pub active_epoch: Option<u64>,
}

/// What a `ManifestFields` stands for.
pub struct FieldsView {
    pub version: Option<u32>,
    pub format: Option<Seq<char>>,
    pub checkpoint: Option<Seq<char>>,
    pub active_log: Option<Seq<char>>,
    pub active_epoch: Option<u64>,
}

impl DeepView for ManifestFields {
    type V = FieldsView;

    open spec fn deep_view(&self) -> FieldsView {
        FieldsView {
            version: self.version,
            format: self.format.deep_view(),
            checkpoint: self.checkpoint.deep_view(),
            active_log: self.active_log.deep_view(),
            active_epoch: self.active_epoch,
        }
    }
}

/// No field is set.
pub open spec fn no_fields() -> FieldsView {
    FieldsView {
        version: None,
        format: None,
        checkpoint: None,
        active_log: None,
        active_epoch: None,
    }
}

/// What a field that is set twice is called.
pub open spec fn duplicate_field(key: Seq<char>) -> Seq<char> {
    "duplicate manifest field: "@ + key
}

/// The fields after one more, or why it cannot be set.
pub open spec fn field_set(fields: FieldsView, key: Seq<char>, value: Seq<char>) -> Result<
    FieldsView,
    Seq<char>,
> {
    if key == "version"@ {
        match number_of(value, u32::MAX as nat) {
            Err(fault) => Err("invalid manifest version: "@ + fault_text(fault)),
            Ok(number) => if fields.version is Some {
                Err(duplicate_field(key))
            } else {
                Ok(FieldsView { version: Some(number as u32), ..fields })
            },
        }
    } else if key == "format"@ {
        if fields.format is Some {
            Err(duplicate_field(key))
        } else {
            Ok(FieldsView { format: Some(value), ..fields })
        }
    } else if key == "checkpoint"@ {
        if fields.checkpoint is Some {
            Err(duplicate_field(key))
        } else {
            Ok(FieldsView { checkpoint: Some(value), ..fields })
        }
    } else if key == "active_log"@ {
        if fields.active_log is Some {
            Err(duplicate_field(key))
        } else {
            Ok(FieldsView { active_log: Some(value), ..fields })
        }
    } else if key == "active_epoch"@ {
        match number_of(value, u64::MAX as nat) {
            Err(fault) => Err("invalid manifest active_epoch: "@ + fault_text(fault)),
            Ok(number) => if fields.active_epoch is Some {
                Err(duplicate_field(key))
            } else {
                Ok(FieldsView { active_epoch: Some(number as u64), ..fields })
            },
        }
    } else {
        Err("unknown manifest field: "@ + key)
    }
}

/// The fields after one more line; white space around it does not matter, nor do empty lines.
pub open spec fn line_read(fields: FieldsView, line: Seq<char>) -> Result<FieldsView, Seq<char>> {
    let text = trimmed(line);
    if text.len() == 0 {
        Ok(fields)
    } else {
        match split_first(text, '=') {
            None => Err("invalid manifest line: "@ + text),
            Some((key, value)) => field_set(fields, key, value),
        }
    }
}

/// The fields that some lines set.
pub open spec fn lines_read(lines: Seq<Seq<char>>) -> Result<FieldsView, Seq<char>>
    decreases lines.len(),
{
    if lines.len() == 0 {
        Ok(no_fields())
    } else {
        match lines_read(lines.drop_last()) {
            Err(message) => Err(message),
            Ok(fields) => line_read(fields, lines.last()),
        }
    }
}

/// The manifest that fields make, all but the format being needed.
pub open spec fn fields_complete(fields: FieldsView) -> Result<ManifestView, Seq<char>> {
    match (fields.version, fields.checkpoint, fields.active_log, fields.active_epoch) {
        (None, _, _, _) => Err("manifest missing version"@),
        (_, None, _, _) => Err("manifest missing checkpoint"@),
        (_, _, None, _) => Err("manifest missing active_log"@),
        (_, _, _, None) => Err("manifest missing active_epoch"@),
        (Some(version), Some(checkpoint), Some(active_log), Some(active_epoch)) => Ok(
            ManifestView { version, format: fields.format, checkpoint, active_log, active_epoch },
        ),
    }
}

/// The manifest that a text tells.
pub open spec fn manifest_of(text: Seq<char>) -> Result<ManifestView, Seq<char>> {
    match lines_read(pieces(text, '\n')) {
        Err(message) => Err(message),
        Ok(fields) => fields_complete(fields),
    }
}

/// Takes note of a field's text, once.
fn set_once(slot: &Option<String>, value: &String, key: &str) -> (result: Result<
    Option<String>,
    String,
>)
    ensures
        match result {
            Ok(next) => slot is None && next.deep_view() == Some(value@),
            Err(message) => slot is Some && message@ == duplicate_field(key@),
        },
{
    if slot.is_some() {
        return Err(text_concat("duplicate manifest field: ", key));
    }
    Ok(Some(value.dup()))
}

/// Sets a field.
fn set_field(fields: ManifestFields, key: &str, value: &String) -> (result: Result<
    ManifestFields,
    String,
>)
    ensures
        reported(result, field_set(fields.deep_view(), key@, value@)),
{
    let mut fields: ManifestFields = fields;
    if str_eq(key, "version") {
        match parse_number(value.as_str(), 0xffff_ffff) {
            Err(fault) => {
                return Err(text_concat("invalid manifest version: ", fault.message()));
            },
            Ok(number) => {
                if fields.version.is_some() {
                    return Err(text_concat("duplicate manifest field: ", key));
                }
                fields.version = Some(number as u32);
            },
        }
    } else if str_eq(key, "format") {
        fields.format = set_once(&fields.format, value, key)?;
    } else if str_eq(key, "checkpoint") {
        fields.checkpoint = set_once(&fields.checkpoint, value, key)?;
    } else if str_eq(key, "active_log") {
        fields.active_log = set_once(&fields.active_log, value, key)?;
    } else if str_eq(key, "active_epoch") {
        match parse_number(value.as_str(), u64::MAX) {
            Err(fault) => {
                return Err(text_concat("invalid manifest active_epoch: ", fault.message()));
            },
            Ok(number) => {
                if fields.active_epoch.is_some() {
                    return Err(text_concat("duplicate manifest field: ", key));
                }
                fields.active_epoch = Some(number);
            },
        }
    } else {
        return Err(text_concat("unknown manifest field: ", key));
    }
    Ok(fields)
}

/// The manifest that a text tells.
pub fn read_manifest(contents: &str) -> (result: Result<WalManifest, String>)
    ensures
        reported(result, manifest_of(contents@)),
{
    let lines: Vec<String> = split_text(contents, '\n');
    let ghost list = pieces(contents@, '\n');
    let mut fields: ManifestFields = ManifestFields {
        version: None,
        format: None,
        checkpoint: None,
        active_log: None,
        active_epoch: None,
    };
    let mut index: usize = 0;
    while index < lines.len()
        invariant
            index <= lines@.len(),
            lines.deep_view() == list,
            list == pieces(contents@, '\n'),
            lines_read(list.take(index as int)) == Ok::<FieldsView, Seq<char>>(
                fields.deep_view(),
            ),
        decreases lines@.len() - index,
    {
        proof {
            assert(list.take(index + 1).drop_last() =~= list.take(index as int));
            assert(list.take(index + 1).last() == lines@[index as int]@);
        }
        let text: String = trim_text(lines[index].as_str());
        if !text.as_str().is_empty() {
            match split_once(text.as_str(), '=') {
                None => {
                    proof {
                        lines_fail_early(list, index + 1);
                    }
                    return Err(text_concat("invalid manifest line: ", text.as_str()));
                },
                Some((key, value)) => match set_field(fields, key.as_str(), &value) {
                    Ok(next) => {
                        fields = next;
                    },
                    Err(message) => {
                        proof {
                            lines_fail_early(list, index + 1);
                        }
                        return Err(message);
                    },
                },
            }
        }
        index += 1;
    }
    assert(list.take(index as int) =~= list);
    let version: u32 = match fields.version {
        Some(version) => version,
        None => return Err("manifest missing version".to_owned()),
    };
    let checkpoint: String = match fields.checkpoint {
        Some(checkpoint) => checkpoint,
        None => return Err("manifest missing checkpoint".to_owned()),
    };
    let active_log: String = match fields.active_log {
        Some(active_log) => active_log,
        None => return Err("manifest missing active_log".to_owned()),
    };
    let active_epoch: u64 = match fields.active_epoch {
        Some(active_epoch) => active_epoch,
        None => return Err("manifest missing active_epoch".to_owned()),
    };
    Ok(WalManifest { version, format: fields.format, checkpoint, active_log, active_epoch })
}

/// Lines behind one that cannot be read do not matter.
proof fn lines_fail_early(lines: Seq<Seq<char>>, count: int)
    requires
        0 <= count <= lines.len(),
        lines_read(lines.take(count)) is Err,
    ensures
        lines_read(lines) == lines_read(lines.take(count)),
    decreases lines.len() - count,
{
    if count < lines.len() {
        assert(lines.take(count + 1).drop_last() =~= lines.take(count));
        lines_fail_early(lines, count + 1);
    } else {
        assert(lines.take(count) =~= lines);
    }
}

/// The name is that of a file, not of a place elsewhere.
pub open spec fn plain_name(name: Seq<char>) -> bool {
    name.len() > 0 && !name.contains('/') && name != "."@ && name != ".."@
}

/// Checks that a manifest names a file of its own directory.
pub fn check_file_name(name: &str) -> (result: Result<(), String>)
    ensures
        match result {
            Ok(()) => plain_name(name@),
            Err(message) => !plain_name(name@) && message@
                == "manifest path must be a file name: "@ + name@,
        },
{
    if name.is_empty() || text_has(name, '/') || str_eq(name, ".") || str_eq(name, "..") {
        return Err(text_concat("manifest path must be a file name: ", name));
    }
    Ok(())
}

/// Why a manifest of the second format cannot be used, if so.
pub open spec fn v2_manifest_defect(manifest: ManifestView) -> Option<Seq<char>> {
    if manifest.format != Some(V2_FORMAT@) {
        Some("PBIN2 manifest has an unsupported format"@)
    } else if manifest.checkpoint != numbered_name(V2_CHECKPOINT_PREFIX@, manifest.active_epoch)
        || manifest.active_log != numbered_name(V2_WAL_PREFIX@, manifest.active_epoch) {
        Some("PBIN2 manifest files do not match active_epoch"@)
    } else {
        None
    }
}

/// Why a manifest of the first format cannot be used, if so.
pub open spec fn v1_manifest_defect(manifest: ManifestView) -> Option<Seq<char>> {
    if manifest.format is Some {
        Some("PBIN1 manifest unexpectedly declares a format"@)
    } else if manifest.active_log != numbered_name(LEGACY_WAL_PREFIX@, manifest.active_epoch) {
        Some("PBIN1 manifest active_log does not match active_epoch"@)
    } else if !plain_name(manifest.checkpoint) {
        Some("manifest path must be a file name: "@ + manifest.checkpoint)
    } else {
        None
    }
}

/// The format that a manifest's files are in.
#[derive(Clone, Copy, Debug, PartialEq, Eq, Structural)]
pub enum LogFormat {
    V1,
    V2,
}

/// What a manifest's version says, or why the manifest cannot be used.
pub open spec fn manifest_format(manifest: ManifestView) -> Result<LogFormat, Seq<char>> {
    if manifest.version == 2 {
        match v2_manifest_defect(manifest) {
            Some(message) => Err(message),
            None => Ok(LogFormat::V2),
        }
    } else if manifest.version == 1 {
        match v1_manifest_defect(manifest) {
            Some(message) => Err(message),
            None => Ok(LogFormat::V1),
        }
    } else {
        Err("unsupported Pulse binary manifest version "@ + decimal(manifest.version as nat))
    }
}

impl WalManifest {
    /// The manifest of a generation.
    pub fn v2(active_epoch: u64) -> (result: Self)
        ensures
            result.deep_view() == v2_manifest(active_epoch),
    {
        WalManifest {
            version: 2,
            format: Some(V2_FORMAT.to_owned()),
            checkpoint: v2_checkpoint_file_name(active_epoch),
            active_log: v2_wal_file_name(active_epoch),
            active_epoch,
        }
    }

    /// The text of a manifest.
    pub fn encode(&self) -> (result: String)
        ensures
            result@ == manifest_text(self.deep_view()),
    {
        let version: String = line("version", decimal_text(self.version as u64).as_str());
        let format: String = match &self.format {
            Some(format) => line("format", format.as_str()),
            None => {
                let none: String = String::new();
                assert(none@ =~= Seq::<char>::empty());
                none
            },
        };
        version.concat(format.as_str()).concat(
            line("checkpoint", self.checkpoint.as_str()).as_str(),
        ).concat(line("active_log", self.active_log.as_str()).as_str()).concat(
            line("active_epoch", decimal_text(self.active_epoch).as_str()).as_str(),
        )
    }

    /// What a manifest's version says, or why the manifest cannot be used.
    pub fn check(&self) -> (result: Result<LogFormat, String>)
        ensures
            match result {
                Ok(format) => manifest_format(self.deep_view()) == Ok::<LogFormat, Seq<char>>(
                    format,
                ),
                Err(message) => manifest_format(self.deep_view()) == Err::<LogFormat, Seq<char>>(
                    message@,
                ),
            },
    {
        if self.version == 2 {
            let known: bool = match &self.format {
                Some(format) => str_eq(format.as_str(), V2_FORMAT),
                None => false,
            };
            if !known {
                return Err("PBIN2 manifest has an unsupported format".to_owned());
            }
            if !self.checkpoint.same(&v2_checkpoint_file_name(self.active_epoch))
                || !self.active_log.same(&v2_wal_file_name(self.active_epoch)) {
                return Err("PBIN2 manifest files do not match active_epoch".to_owned());
            }
            Ok(LogFormat::V2)
        } else if self.version == 1 {
            if self.format.is_some() {
                return Err("PBIN1 manifest unexpectedly declares a format".to_owned());
            }
            if !self.active_log.same(&legacy_wal_file_name(self.active_epoch)) {
                return Err("PBIN1 manifest active_log does not match active_epoch".to_owned());
            }
            match check_file_name(self.checkpoint.as_str()) {
                Ok(()) => Ok(LogFormat::V1),
                Err(message) => Err(message),
            }
        } else {
            Err(
                text_concat(
                    "unsupported Pulse binary manifest version ",
                    decimal_text(self.version as u64).as_str(),
                ),
            )
        }
    }
}

/// A file is left over once a manifest is in force: one that was being written, one of another
/// generation, or one of the first format.
pub open spec fn left_over(manifest: ManifestView, name: Seq<char>) -> bool {
    ||| has_suffix(name, TMP_SUFFIX@)
    ||| epoch_in(name, V2_CHECKPOINT_PREFIX@) is Some && name != manifest.checkpoint
    ||| epoch_in(name, V2_WAL_PREFIX@) is Some && name != manifest.active_log
    ||| name == LEGACY_LOG_FILE_NAME@
    ||| name == LEGACY_CHECKPOINT_FILE_NAME@
    ||| epoch_in(name, LEGACY_WAL_PREFIX@) is Some
}

/// Whether a file is left over once a manifest is in force.
pub fn is_left_over(manifest: &WalManifest, name: &str) -> (result: bool)
    ensures
        result == left_over(manifest.deep_view(), name@),
{
    let stale_tmp: bool = ends_with(name, TMP_SUFFIX);
    let stale_checkpoint: bool = v2_epoch_from_name(name, V2_CHECKPOINT_PREFIX).is_some()
        && !str_eq(name, manifest.checkpoint.as_str());
    let stale_wal: bool = v2_epoch_from_name(name, V2_WAL_PREFIX).is_some() && !str_eq(
        name,
        manifest.active_log.as_str(),
    );
    let legacy: bool = str_eq(name, LEGACY_LOG_FILE_NAME) || str_eq(
        name,
        LEGACY_CHECKPOINT_FILE_NAME,
    ) || legacy_wal_epoch_from_file_name(name).is_some();
    stale_tmp || stale_checkpoint || stale_wal || legacy
}

/// The generation that a file of a directory belongs to.
pub open spec fn name_epoch(name: Seq<char>) -> Option<u64> {
    match epoch_in(name, V2_CHECKPOINT_PREFIX@) {
        Some(epoch) => Some(epoch),
        None => epoch_in(name, V2_WAL_PREFIX@),
    }
}

/// The highest generation of some files; zero where there is none.
pub open spec fn highest_epoch(names: Seq<Seq<char>>) -> u64
    decreases names.len(),
{
    if names.len() == 0 {
        0
    } else {
        let front = highest_epoch(names.drop_last());
        match name_epoch(names.last()) {
            Some(epoch) => if epoch > front {
                epoch
            } else {
                front
            },
            None => front,
        }
    }
}

/// The generation after those of some files, if there is one.
pub fn next_v2_epoch(names: &Vec<String>) -> (result: Result<u64, &'static str>)
    ensures
        match result {
            Ok(epoch) => epoch == highest_epoch(names.deep_view()) + 1,
            Err(message) => highest_epoch(names.deep_view()) == u64::MAX && message@
                == "PBIN2 epoch exhausted"@,
        },
{
    let ghost list = names.deep_view();
    let mut maximum: u64 = 0;
    let mut index: usize = 0;
    while index < names.len()
        invariant
            index <= names@.len(),
            list == names.deep_view(),
            maximum == highest_epoch(list.take(index as int)),
        decreases names@.len() - index,
    {
        proof {
            assert(list.take(index + 1).drop_last() =~= list.take(index as int));
            assert(list.take(index + 1).last() == names@[index as int]@);
        }
        let name: &str = names[index].as_str();
        let epoch: Option<u64> = match v2_epoch_from_name(name, V2_CHECKPOINT_PREFIX) {
            Some(epoch) => Some(epoch),
            None => v2_epoch_from_name(name, V2_WAL_PREFIX),
        };
        if let Some(epoch) = epoch {
            if epoch > maximum {
                maximum = epoch;
            }
        }
        index += 1;
    }
    assert(list.take(index as int) =~= list);
    if maximum == u64::MAX {
        return Err("PBIN2 epoch exhausted");
    }
    Ok(maximum + 1)
}

} // verus!
