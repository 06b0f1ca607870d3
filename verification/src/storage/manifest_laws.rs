//! Laws of the files of a log directory.
use vstd::prelude::*;

use crate::numbers::decimal;
use crate::numbers::decimal_is_ascii;
use crate::numbers::is_digit;
use crate::numbers::written_number_reads_back;
use crate::storage::manifest::FieldsView;
use crate::storage::manifest::LEGACY_WAL_PREFIX;
use crate::storage::manifest::LogFormat;
use crate::storage::manifest::MANIFEST_FILE_NAME;
use crate::storage::manifest::ManifestView;
use crate::storage::manifest::TMP_SUFFIX;
use crate::storage::manifest::V2_CHECKPOINT_PREFIX;
use crate::storage::manifest::V2_FORMAT;
use crate::storage::manifest::V2_WAL_PREFIX;
use crate::storage::manifest::epoch_in;
use crate::storage::manifest::field_line;
use crate::storage::manifest::field_set;
use crate::storage::manifest::highest_epoch;
use crate::storage::manifest::left_over;
use crate::storage::manifest::line_read;
use crate::storage::manifest::lines_read;
use crate::storage::manifest::manifest_format;
use crate::storage::manifest::manifest_of;
use crate::storage::manifest::manifest_text;
use crate::storage::manifest::name_epoch;
use crate::storage::manifest::no_fields;
use crate::storage::manifest::numbered_name;
use crate::storage::manifest::v2_manifest;
use crate::text::has_suffix;
use crate::text::is_space;
use crate::text::nothing_to_trim;
use crate::text::one_piece;
use crate::text::pieces;
use crate::text::pieces_join;
use crate::text::split_first_joined;

verus! {

/// A text of one line that has no white space around it.
spec fn plain_line(text: Seq<char>) -> bool {
    text.len() > 0 && !is_space(text[0]) && !is_space(text.last()) && !text.contains('\n')
}

/// What stands on a line of a manifest.
spec fn field_text(key: Seq<char>, value: Seq<char>) -> Seq<char> {
    key + "="@ + value
}

proof fn first_line(key: Seq<char>, value: Seq<char>, rest: Seq<char>)
    requires
        plain_line(field_text(key, value)),
    ensures
        pieces(field_line(key, value) + rest, '\n') == seq![field_text(key, value)] + pieces(
            rest,
            '\n',
        ),
{
    reveal_strlit("\n");
    let text = field_text(key, value);
    assert(field_line(key, value) + rest =~= text.push('\n') + rest);
    pieces_join(text, '\n', rest);
    one_piece(text, '\n');
}

proof fn line_sets_field(fields: FieldsView, key: Seq<char>, value: Seq<char>)
    requires
        plain_line(field_text(key, value)),
        !key.contains('='),
    ensures
        line_read(fields, field_text(key, value)) == field_set(fields, key, value),
{
    reveal_strlit("=");
    let text = field_text(key, value);
    nothing_to_trim(text);
    assert(text =~= key.push('=') + value);
    split_first_joined(key, '=', value);
}

/// Digits behind some text.
proof fn ends_in_digit(prefix: Seq<char>, epoch: u64)
    ensures
        numbered_name(prefix, epoch).len() > prefix.len(),
        is_digit(numbered_name(prefix, epoch).last()),
        prefix.contains('\n') || !numbered_name(prefix, epoch).contains('\n'),
{
    decimal_is_ascii(epoch as nat);
    let digits = decimal(epoch as nat);
    let name = numbered_name(prefix, epoch);
    assert(name.last() == digits[digits.len() - 1]);
    if !prefix.contains('\n') {
        assert forall|i: int| 0 <= i < name.len() implies name[i] != '\n' by {
            if i < prefix.len() {
                assert(name[i] == prefix[i]);
            } else {
                assert(name[i] == digits[i - prefix.len()]);
                assert(is_digit(digits[i - prefix.len()]));
            }
        }
    }
}

/// A field's text on a line.
proof fn is_plain_line(key: Seq<char>, value: Seq<char>)
    requires
        key.len() > 0,
        !is_space(key[0]),
        !key.contains('\n'),
        value.len() > 0,
        !is_space(value.last()),
        !value.contains('\n'),
    ensures
        plain_line(field_text(key, value)),
{
    reveal_strlit("=");
    let text = field_text(key, value);
    assert(text[0] == key[0]);
    assert(text.last() == value.last());
    assert forall|i: int| 0 <= i < text.len() implies text[i] != '\n' by {
        if i < key.len() {
            assert(text[i] == key[i]);
        } else if i > key.len() {
            assert(text[i] == value[i - key.len() - 1]);
        }
    }
}

/// The keys of a manifest, and the fixed parts of its values, are plain.
proof fn fixed_texts_are_plain()
    ensures
        !"version"@.contains('\n') && !"version"@.contains('='),
        !"format"@.contains('\n') && !"format"@.contains('='),
        !"checkpoint"@.contains('\n') && !"checkpoint"@.contains('='),
        !"active_log"@.contains('\n') && !"active_log"@.contains('='),
        !"active_epoch"@.contains('\n') && !"active_epoch"@.contains('='),
        !V2_FORMAT@.contains('\n'),
        !V2_CHECKPOINT_PREFIX@.contains('\n'),
        !V2_WAL_PREFIX@.contains('\n'),
{
    reveal_strlit("version");
    reveal_strlit("format");
    reveal_strlit("checkpoint");
    reveal_strlit("active_log");
    reveal_strlit("active_epoch");
    reveal_strlit("pbin2");
    reveal_strlit("broker.pbin2.checkpoint.");
    reveal_strlit("broker.pbin2.wal.");
}

/// The keys of a manifest differ.
proof fn keys_differ()
    ensures
        "version"@.len() == 7,
        "format"@.len() == 6,
        "checkpoint"@.len() == 10,
        "active_log"@.len() == 10,
        "active_epoch"@.len() == 12,
        "checkpoint"@ != "active_log"@,
        "version"@[0] == 'v',
        "format"@[0] == 'f',
        "checkpoint"@[0] == 'c',
        "active_log"@[0] == 'a',
        "active_epoch"@[0] == 'a',
        V2_FORMAT@.len() == 5 && V2_FORMAT@.last() == '2',
{
    reveal_strlit("version");
    reveal_strlit("format");
    reveal_strlit("checkpoint");
    reveal_strlit("active_log");
    reveal_strlit("active_epoch");
    reveal_strlit("pbin2");
    assert("checkpoint"@[0] != "active_log"@[0]);
}

/// The manifest of a generation reads back from its text as it was written, and can be used.
pub proof fn written_manifest_reads_back(epoch: u64)
    ensures
        manifest_of(manifest_text(v2_manifest(epoch))) == Ok::<ManifestView, Seq<char>>(
            v2_manifest(epoch),
        ),
        manifest_format(v2_manifest(epoch)) == Ok::<LogFormat, Seq<char>>(LogFormat::V2),
{
    let manifest = v2_manifest(epoch);
    fixed_texts_are_plain();
    keys_differ();
    let number = decimal(2);
    let epoch_text = decimal(epoch as nat);
    ends_in_digit(Seq::empty(), 2);
    ends_in_digit(Seq::empty(), epoch);
    assert(numbered_name(Seq::empty(), 2) =~= number);
    assert(numbered_name(Seq::empty(), epoch) =~= epoch_text);
    ends_in_digit(V2_CHECKPOINT_PREFIX@, epoch);
    ends_in_digit(V2_WAL_PREFIX@, epoch);
    is_plain_line("version"@, number);
    is_plain_line("format"@, V2_FORMAT@);
    is_plain_line("checkpoint"@, manifest.checkpoint);
    is_plain_line("active_log"@, manifest.active_log);
    is_plain_line("active_epoch"@, epoch_text);
    let t1 = field_text("version"@, number);
    let t2 = field_text("format"@, V2_FORMAT@);
    let t3 = field_text("checkpoint"@, manifest.checkpoint);
    let t4 = field_text("active_log"@, manifest.active_log);
    let t5 = field_text("active_epoch"@, epoch_text);
    let l1 = field_line("version"@, number);
    let l2 = field_line("format"@, V2_FORMAT@);
    let l3 = field_line("checkpoint"@, manifest.checkpoint);
    let l4 = field_line("active_log"@, manifest.active_log);
    let l5 = field_line("active_epoch"@, epoch_text);
    let none = Seq::<char>::empty();
    first_line("active_epoch"@, epoch_text, none);
    first_line("active_log"@, manifest.active_log, l5 + none);
    first_line("checkpoint"@, manifest.checkpoint, l4 + (l5 + none));
    first_line("format"@, V2_FORMAT@, l3 + (l4 + (l5 + none)));
    first_line("version"@, number, l2 + (l3 + (l4 + (l5 + none))));
    assert(manifest_text(manifest) =~= l1 + (l2 + (l3 + (l4 + (l5 + none)))));
    let lines = seq![t1, t2, t3, t4, t5, none];
    assert(pieces(none, '\n') =~= seq![none]);
    assert(pieces(manifest_text(manifest), '\n') =~= lines);
    let f0 = no_fields();
    let f1 = FieldsView { version: Some(2u32), ..f0 };
    let f2 = FieldsView { format: Some(V2_FORMAT@), ..f1 };
    let f3 = FieldsView { checkpoint: Some(manifest.checkpoint), ..f2 };
    let f4 = FieldsView { active_log: Some(manifest.active_log), ..f3 };
    let f5 = FieldsView { active_epoch: Some(epoch), ..f4 };
    written_number_reads_back(2, u32::MAX as nat);
    written_number_reads_back(epoch as nat, u64::MAX as nat);
    line_sets_field(f0, "version"@, number);
    line_sets_field(f1, "format"@, V2_FORMAT@);
    line_sets_field(f2, "checkpoint"@, manifest.checkpoint);
    line_sets_field(f3, "active_log"@, manifest.active_log);
    line_sets_field(f4, "active_epoch"@, epoch_text);
    nothing_to_trim(none);
    let s1 = seq![t1];
    let s2 = s1.push(t2);
    let s3 = s2.push(t3);
    let s4 = s3.push(t4);
    let s5 = s4.push(t5);
    assert(s5.push(none) =~= lines);
    assert(s1.drop_last() =~= Seq::<Seq<char>>::empty());
    assert(lines_read(Seq::<Seq<char>>::empty()) == Ok::<FieldsView, Seq<char>>(f0));
    assert(s1.last() == t1);
    assert(field_set(f0, "version"@, number) == Ok::<FieldsView, Seq<char>>(f1));
    assert(lines_read(s1) == Ok::<FieldsView, Seq<char>>(f1));
    assert(s2.drop_last() =~= s1);
    assert(lines_read(s2) == Ok::<FieldsView, Seq<char>>(f2));
    assert(s3.drop_last() =~= s2);
    assert(lines_read(s3) == Ok::<FieldsView, Seq<char>>(f3));
    assert(s4.drop_last() =~= s3);
    assert(lines_read(s4) == Ok::<FieldsView, Seq<char>>(f4));
    assert(s5.drop_last() =~= s4);
    assert(lines_read(s5) == Ok::<FieldsView, Seq<char>>(f5));
    assert(lines.drop_last() =~= s5);
    assert(lines.last() == none);
    assert(lines_read(lines) == Ok::<FieldsView, Seq<char>>(f5));
}

/// The files that a manifest names, and the manifest itself, are not left over.
pub proof fn files_in_use_stay(epoch: u64)
    ensures
        !left_over(v2_manifest(epoch), v2_manifest(epoch).checkpoint),
        !left_over(v2_manifest(epoch), v2_manifest(epoch).active_log),
        !left_over(v2_manifest(epoch), MANIFEST_FILE_NAME@),
{
    reveal_strlit("broker.pbin2.checkpoint.");
    reveal_strlit("broker.pbin2.wal.");
    reveal_strlit("broker.binlog.");
    reveal_strlit("broker.binlog");
    reveal_strlit("broker.checkpoint");
    reveal_strlit("broker.manifest");
    reveal_strlit(".tmp");
    let checkpoint = v2_manifest(epoch).checkpoint;
    let active_log = v2_manifest(epoch).active_log;
    let own = MANIFEST_FILE_NAME@;
    ends_in_digit(V2_CHECKPOINT_PREFIX@, epoch);
    ends_in_digit(V2_WAL_PREFIX@, epoch);
    not_temporary(checkpoint);
    not_temporary(active_log);
    not_temporary(own);
    assert(checkpoint[7] == V2_CHECKPOINT_PREFIX@[7]);
    assert(checkpoint[13] == V2_CHECKPOINT_PREFIX@[13]);
    assert(active_log[7] == V2_WAL_PREFIX@[7]);
    assert(active_log[13] == V2_WAL_PREFIX@[13]);
    differs_from_prefix(checkpoint, V2_WAL_PREFIX@, 13);
    differs_from_prefix(checkpoint, LEGACY_WAL_PREFIX@, 7);
    differs_from_prefix(active_log, V2_CHECKPOINT_PREFIX@, 13);
    differs_from_prefix(active_log, LEGACY_WAL_PREFIX@, 7);
    differs_from_prefix(own, V2_CHECKPOINT_PREFIX@, 7);
    differs_from_prefix(own, V2_WAL_PREFIX@, 7);
    differs_from_prefix(own, LEGACY_WAL_PREFIX@, 7);
}

proof fn not_temporary(name: Seq<char>)
    requires
        name.len() > 0,
        name.last() != 'p',
    ensures
        !has_suffix(name, TMP_SUFFIX@),
{
    reveal_strlit(".tmp");
    if has_suffix(name, TMP_SUFFIX@) {
        assert(name.skip(name.len() - 4).last() == name.last());
        assert(TMP_SUFFIX@.last() == 'p');
    }
}

proof fn differs_from_prefix(name: Seq<char>, prefix: Seq<char>, at: int)
    requires
        0 <= at < prefix.len(),
        at < name.len(),
        name[at] != prefix[at],
    ensures
        epoch_in(name, prefix) is None,
{
    if prefix.len() <= name.len() {
        assert(name.take(prefix.len() as int)[at] == name[at]);
    }
}

/// The next generation is later than that of every file.
pub proof fn next_epoch_is_later(names: Seq<Seq<char>>, index: int)
    requires
        0 <= index < names.len(),
    ensures
        name_epoch(names[index]) matches Some(epoch) ==> epoch <= highest_epoch(names),
    decreases names.len(),
{
    if index < names.len() - 1 {
        next_epoch_is_later(names.drop_last(), index);
        assert(names.drop_last()[index] == names[index]);
    }
}

} // verus!
