//! What is read of a record does not depend on what follows it: a record that is cut short, or that
//! is followed by more bytes, is refused.
use vstd::prelude::*;

use crate::message::PendingView;
use crate::storage::bytes::Parse;
use crate::storage::bytes::parse_block;
use crate::storage::bytes::parse_bool;
use crate::storage::bytes::parse_count;
use crate::storage::bytes::parse_le;
use crate::storage::bytes::parse_opt_text;
use crate::storage::bytes::parse_opt_u32;
use crate::storage::bytes::parse_opt_u64;
use crate::storage::bytes::parse_take;
use crate::storage::bytes::parse_text;
use crate::storage::bytes::parse_u16;
use crate::storage::bytes::parse_u32;
use crate::storage::bytes::parse_u64;
use crate::storage::bytes::parse_u8;
use crate::storage::codec_laws::patch_restorable;
use crate::storage::codec_laws::written_patch_reads_back;
use crate::storage::patch_codec::CLIENT_PATCH;
use crate::storage::patch_codec::RETAINED_PATCH;
use crate::storage::patch_codec::patch_bytes;
use crate::storage::patch_codec::patch_fits;
use crate::storage::patch_codec::patch_readable;
use crate::storage::patch_decode::duplicate_identifier;
use crate::storage::patch_decode::parse_changes;
use crate::storage::patch_decode::parse_client_patch;
use crate::storage::patch_decode::parse_entries;
use crate::storage::patch_decode::parse_filters;
use crate::storage::patch_decode::parse_head;
use crate::storage::patch_decode::parse_id_entries;
use crate::storage::patch_decode::parse_ids;
use crate::storage::patch_decode::parse_offline;
use crate::storage::patch_decode::parse_offline_pending;
use crate::storage::patch_decode::parse_opt_session;
use crate::storage::patch_decode::parse_options;
use crate::storage::patch_decode::parse_pending;
use crate::storage::patch_decode::parse_qos;
use crate::storage::patch_decode::parse_queue;
use crate::storage::patch_decode::parse_retained_patch;
use crate::storage::patch_decode::parse_session;
use crate::storage::patch_decode::parse_subscription;
use crate::storage::patch_decode::parse_subscriptions;
use crate::storage::patch_decode::parse_table;
use crate::storage::patch_decode::parse_tables;
use crate::storage::patch_decode::parse_tagged;
use crate::storage::patch_decode::patch_of;
use crate::storage::snapshot::QueuedSnapshotView;
use crate::storage::snapshot::StoragePatchView;
use crate::storage::snapshot::SubscriptionSnapshotView;
use crate::storage::snapshot::patch_defect;

verus! {

/// What is read of some bytes is read of longer bytes too, and more is left.
pub open spec fn extends<T>(short: Parse<T>, long: Parse<T>, tail: Seq<u8>) -> bool {
    short matches Ok(found) ==> long == Ok::<(T, Seq<u8>), Seq<char>>((found.0, found.1 + tail))
}

/// Some bytes are read alike whatever follows.
pub proof fn take_extends(bytes: Seq<u8>, count: nat, tail: Seq<u8>)
    ensures
        extends(parse_take(bytes, count), parse_take(bytes + tail, count), tail),
{
    if count <= bytes.len() {
        assert((bytes + tail).take(count as int) =~= bytes.take(count as int));
        assert((bytes + tail).skip(count as int) =~= bytes.skip(count as int) + tail);
    }
}

/// A byte is read alike whatever follows.
pub proof fn u8_extends(bytes: Seq<u8>, tail: Seq<u8>)
    ensures
        extends(parse_u8(bytes), parse_u8(bytes + tail), tail),
{
    if bytes.len() > 0 {
        assert((bytes + tail).skip(1) =~= bytes.skip(1) + tail);
    }
}

/// A number is read alike whatever follows.
pub proof fn le_extends(bytes: Seq<u8>, width: nat, tail: Seq<u8>)
    ensures
        extends(parse_le(bytes, width), parse_le(bytes + tail, width), tail),
{
    reveal(parse_le);
    take_extends(bytes, width, tail);
}

/// A byte string is read alike whatever follows.
proof fn block_extends(bytes: Seq<u8>, tail: Seq<u8>)
    ensures
        extends(parse_block(bytes), parse_block(bytes + tail), tail),
{
    reveal(parse_block);
    le_extends(bytes, 4, tail);
    if let Ok((count, rest)) = parse_u32(bytes) {
        take_extends(rest, count as nat, tail);
    }
}

/// A count is read alike whatever follows.
proof fn count_extends(bytes: Seq<u8>, tail: Seq<u8>)
    ensures
        extends(parse_count(bytes), parse_count(bytes + tail), tail),
{
    reveal(parse_count);
    le_extends(bytes, 4, tail);
}

/// A text is read alike whatever follows.
proof fn text_extends(bytes: Seq<u8>, tail: Seq<u8>)
    ensures
        extends(parse_text(bytes), parse_text(bytes + tail), tail),
{
    reveal(parse_text);
    block_extends(bytes, tail);
}

/// A number that may be absent is read alike whatever follows.
proof fn opt_u32_extends(bytes: Seq<u8>, tail: Seq<u8>)
    ensures
        extends(parse_opt_u32(bytes), parse_opt_u32(bytes + tail), tail),
{
    reveal(parse_opt_u32);
    u8_extends(bytes, tail);
    if let Ok((_, r1)) = parse_bool(bytes) {
        le_extends(r1, 4, tail);
    }
}

/// A number that may be absent is read alike whatever follows.
proof fn opt_u64_extends(bytes: Seq<u8>, tail: Seq<u8>)
    ensures
        extends(parse_opt_u64(bytes), parse_opt_u64(bytes + tail), tail),
{
    reveal(parse_opt_u64);
    u8_extends(bytes, tail);
    if let Ok((_, r1)) = parse_bool(bytes) {
        le_extends(r1, 8, tail);
    }
}

/// A text that may be absent is read alike whatever follows.
proof fn opt_text_extends(bytes: Seq<u8>, tail: Seq<u8>)
    ensures
        extends(parse_opt_text(bytes), parse_opt_text(bytes + tail), tail),
{
    reveal(parse_opt_text);
    u8_extends(bytes, tail);
    if let Ok((_, r1)) = parse_bool(bytes) {
        text_extends(r1, tail);
    }
}

/// A session is read alike whatever follows.
proof fn session_extends(bytes: Seq<u8>, tail: Seq<u8>)
    ensures
        extends(parse_session(bytes), parse_session(bytes + tail), tail),
{
    reveal(parse_session);
    le_extends(bytes, 4, tail);
    if let Ok((_, r1)) = parse_u32(bytes) {
        opt_u64_extends(r1, tail);
        if let Ok((_, r2)) = parse_opt_u64(r1) {
            le_extends(r2, 2, tail);
            if let Ok((_, r3)) = parse_u16(r2) {
                le_extends(r3, 8, tail);
            }
        }
    }
}

/// A session that may be absent is read alike whatever follows.
proof fn opt_session_extends(bytes: Seq<u8>, tail: Seq<u8>)
    ensures
        extends(parse_opt_session(bytes), parse_opt_session(bytes + tail), tail),
{
    reveal(parse_opt_session);
    u8_extends(bytes, tail);
    if let Ok((_, r1)) = parse_bool(bytes) {
        session_extends(r1, tail);
    }
}

/// The options of a subscription are read alike whatever follows.
proof fn options_extends(bytes: Seq<u8>, tail: Seq<u8>)
    ensures
        extends(parse_options(bytes), parse_options(bytes + tail), tail),
{
    reveal(parse_options);
    u8_extends(bytes, tail);
    if let Ok((_, r1)) = parse_qos(bytes) {
        u8_extends(r1, tail);
        if let Ok((_, r2)) = parse_bool(r1) {
            u8_extends(r2, tail);
            if let Ok((_, r3)) = parse_bool(r2) {
                u8_extends(r3, tail);
            }
        }
    }
}

/// A subscription is read alike whatever follows.
proof fn subscription_extends(bytes: Seq<u8>, client_id: Seq<char>, tail: Seq<u8>)
    ensures
        extends(
            parse_subscription(bytes, client_id),
            parse_subscription(bytes + tail, client_id),
            tail,
        ),
{
    reveal(parse_subscription);
    text_extends(bytes, tail);
    if let Ok((_, r1)) = parse_text(bytes) {
        text_extends(r1, tail);
        if let Ok((_, r2)) = parse_text(r1) {
            opt_text_extends(r2, tail);
            if let Ok((_, r3)) = parse_opt_text(r2) {
                options_extends(r3, tail);
                if let Ok((_, r4)) = parse_options(r3) {
                    opt_u32_extends(r4, tail);
                }
            }
        }
    }
}

/// A publication is read alike whatever follows.
proof fn pending_extends(bytes: Seq<u8>, tail: Seq<u8>)
    ensures
        extends(parse_pending(bytes), parse_pending(bytes + tail), tail),
{
    reveal(parse_pending);
    opt_u64_extends(bytes, tail);
    if let Ok((_, r1)) = parse_opt_u64(bytes) {
        block_extends(r1, tail);
    }
}

/// Some subscriptions are read alike whatever follows.
proof fn subscriptions_extends(
    count: nat,
    bytes: Seq<u8>,
    client_id: Seq<char>,
    found: Seq<SubscriptionSnapshotView>,
    tail: Seq<u8>,
)
    ensures
        extends(
            parse_subscriptions(count, bytes, client_id, found),
            parse_subscriptions(count, bytes + tail, client_id, found),
            tail,
        ),
    decreases count,
{
    if count > 0 {
        subscription_extends(bytes, client_id, tail);
        if let Ok((subscription, rest)) = parse_subscription(bytes, client_id) {
            subscriptions_extends(
                (count - 1) as nat,
                rest,
                client_id,
                found.push(subscription),
                tail,
            );
        }
    }
}

/// Some filters are read alike whatever follows.
proof fn filters_extends(count: nat, bytes: Seq<u8>, found: Seq<Seq<char>>, tail: Seq<u8>)
    ensures
        extends(
            parse_filters(count, bytes, found),
            parse_filters(count, bytes + tail, found),
            tail,
        ),
    decreases count,
{
    if count > 0 {
        text_extends(bytes, tail);
        if let Ok((filter, rest)) = parse_text(bytes) {
            filters_extends((count - 1) as nat, rest, found.push(filter), tail);
        }
    }
}

/// Some publications of a queue are read alike whatever follows.
proof fn queue_extends(
    count: nat,
    bytes: Seq<u8>,
    found: Seq<QueuedSnapshotView>,
    tail: Seq<u8>,
)
    ensures
        extends(parse_queue(count, bytes, found), parse_queue(count, bytes + tail, found), tail),
    decreases count,
{
    if count > 0 {
        le_extends(bytes, 8, tail);
        if let Ok((sequence, rest)) = parse_u64(bytes) {
            pending_extends(rest, tail);
            if let Ok((pending, rest)) = parse_offline_pending(rest) {
                queue_extends(
                    (count - 1) as nat,
                    rest,
                    found.push(QueuedSnapshotView { sequence, pending }),
                    tail,
                );
            }
        }
    }
}

/// Some publications are read alike whatever follows.
proof fn entries_extends(
    count: nat,
    bytes: Seq<u8>,
    found: Map<u16, PendingView>,
    duplicate: Seq<char>,
    tail: Seq<u8>,
)
    ensures
        extends(
            parse_entries(count, bytes, found, duplicate),
            parse_entries(count, bytes + tail, found, duplicate),
            tail,
        ),
    decreases count,
{
    if count > 0 {
        le_extends(bytes, 2, tail);
        if let Ok((id, rest)) = parse_u16(bytes) {
            pending_extends(rest, tail);
            if let Ok((pending, rest)) = parse_pending(rest) {
                entries_extends(
                    (count - 1) as nat,
                    rest,
                    found.insert(id, pending),
                    duplicate,
                    tail,
                );
            }
        }
    }
}

/// Some identifiers are read alike whatever follows.
proof fn id_entries_extends(
    count: nat,
    bytes: Seq<u8>,
    found: Map<u16, ()>,
    duplicate: Seq<char>,
    tail: Seq<u8>,
)
    ensures
        extends(
            parse_id_entries(count, bytes, found, duplicate),
            parse_id_entries(count, bytes + tail, found, duplicate),
            tail,
        ),
    decreases count,
{
    if count > 0 {
        le_extends(bytes, 2, tail);
        if let Ok((id, rest)) = parse_u16(bytes) {
            id_entries_extends((count - 1) as nat, rest, found.insert(id, ()), duplicate, tail);
        }
    }
}

/// The changes of subscriptions are read alike whatever follows.
proof fn changes_extends(bytes: Seq<u8>, client_id: Seq<char>, tail: Seq<u8>)
    ensures
        extends(parse_changes(bytes, client_id), parse_changes(bytes + tail, client_id), tail),
{
    reveal(parse_changes);
    count_extends(bytes, tail);
    if let Ok((count, r1)) = parse_count(bytes) {
        subscriptions_extends(count, r1, client_id, Seq::empty(), tail);
        if let Ok((_, r2)) = parse_subscriptions(count, r1, client_id, Seq::empty()) {
            count_extends(r2, tail);
            if let Ok((count, r3)) = parse_count(r2) {
                filters_extends(count, r3, Seq::empty(), tail);
            }
        }
    }
}

/// The changes of a queue are read alike whatever follows.
proof fn offline_extends(bytes: Seq<u8>, tail: Seq<u8>)
    ensures
        extends(parse_offline(bytes), parse_offline(bytes + tail), tail),
{
    reveal(parse_offline);
    opt_u64_extends(bytes, tail);
    if let Ok((_, r1)) = parse_opt_u64(bytes) {
        count_extends(r1, tail);
        if let Ok((count, r2)) = parse_count(r1) {
            queue_extends(count, r2, Seq::empty(), tail);
        }
    }
}

/// A table is read alike whatever follows.
proof fn table_extends(bytes: Seq<u8>, duplicate: Seq<char>, tail: Seq<u8>)
    ensures
        extends(parse_table(bytes, duplicate), parse_table(bytes + tail, duplicate), tail),
{
    reveal(parse_table);
    count_extends(bytes, tail);
    if let Ok((count, rest)) = parse_count(bytes) {
        entries_extends(count, rest, Map::empty(), duplicate, tail);
    }
}

/// A set of identifiers is read alike whatever follows.
proof fn ids_extends(bytes: Seq<u8>, duplicate: Seq<char>, tail: Seq<u8>)
    ensures
        extends(parse_ids(bytes, duplicate), parse_ids(bytes + tail, duplicate), tail),
{
    reveal(parse_ids);
    count_extends(bytes, tail);
    if let Ok((count, rest)) = parse_count(bytes) {
        id_entries_extends(count, rest, Map::empty(), duplicate, tail);
    }
}

/// The changes of the outbound tables are read alike whatever follows.
proof fn tables_extends(bytes: Seq<u8>, tail: Seq<u8>)
    ensures
        extends(parse_tables(bytes), parse_tables(bytes + tail), tail),
{
    reveal(parse_tables);
    table_extends(bytes, duplicate_identifier(), tail);
    if let Ok((_, r1)) = parse_table(bytes, duplicate_identifier()) {
        ids_extends(r1, duplicate_identifier(), tail);
        if let Ok((_, r2)) = parse_ids(r1, duplicate_identifier()) {
            table_extends(r2, duplicate_identifier(), tail);
            if let Ok((_, r3)) = parse_table(r2, duplicate_identifier()) {
                ids_extends(r3, duplicate_identifier(), tail);
                if let Ok((_, r4)) = parse_ids(r3, duplicate_identifier()) {
                    ids_extends(r4, duplicate_identifier(), tail);
                    if let Ok((_, r5)) = parse_ids(r4, duplicate_identifier()) {
                        ids_extends(r5, duplicate_identifier(), tail);
                    }
                }
            }
        }
    }
}

/// The start of a client patch is read alike whatever follows.
proof fn head_extends(bytes: Seq<u8>, tail: Seq<u8>)
    ensures
        extends(parse_head(bytes), parse_head(bytes + tail), tail),
{
    reveal(parse_head);
    u8_extends(bytes, tail);
    if let Ok((_, r1)) = parse_u8(bytes) {
        u8_extends(r1, tail);
        if let Ok((_, r2)) = parse_u8(r1) {
            text_extends(r2, tail);
            if let Ok((_, r3)) = parse_text(r2) {
                opt_session_extends(r3, tail);
            }
        }
    }
}

/// A client patch is read alike whatever follows.
proof fn client_patch_extends(bytes: Seq<u8>, tail: Seq<u8>)
    ensures
        extends(parse_client_patch(bytes), parse_client_patch(bytes + tail), tail),
{
    reveal(parse_client_patch);
    head_extends(bytes, tail);
    if let Ok((head, r1)) = parse_head(bytes) {
        changes_extends(r1, head.2, tail);
        if let Ok((_, r2)) = parse_changes(r1, head.2) {
            offline_extends(r2, tail);
            if let Ok((_, r3)) = parse_offline(r2) {
                tables_extends(r3, tail);
            }
        }
    }
}

/// A retained patch is read alike whatever follows.
proof fn retained_patch_extends(bytes: Seq<u8>, tail: Seq<u8>)
    ensures
        extends(parse_retained_patch(bytes), parse_retained_patch(bytes + tail), tail),
{
    reveal(parse_retained_patch);
    text_extends(bytes, tail);
    if let Ok((_, r1)) = parse_text(bytes) {
        u8_extends(r1, tail);
        if let Ok((_, r2)) = parse_bool(r1) {
            opt_u64_extends(r2, tail);
            if let Ok((_, r3)) = parse_opt_u64(r2) {
                block_extends(r3, tail);
            }
        }
    }
}

/// A patch is read alike whatever follows.
proof fn tagged_extends(bytes: Seq<u8>, tail: Seq<u8>)
    ensures
        extends(parse_tagged(bytes), parse_tagged(bytes + tail), tail),
{
    u8_extends(bytes, tail);
    if let Ok((_, rest)) = parse_u8(bytes) {
        client_patch_extends(rest, tail);
        retained_patch_extends(rest, tail);
    }
}

/// Bytes that hold a patch hold none once more bytes follow, and none where they are cut short.
pub proof fn patch_has_one_length(bytes: Seq<u8>, tail: Seq<u8>, count: int)
    requires
        patch_of(bytes) is Ok,
        tail.len() > 0,
        0 <= count < bytes.len(),
    ensures
        patch_of(bytes + tail) is Err,
        patch_of(bytes.take(count)) is Err,
{
    tagged_extends(bytes, tail);
    let cut = bytes.take(count);
    let rest = bytes.skip(count);
    assert(cut + rest =~= bytes);
    tagged_extends(cut, rest);
    if let Ok((_, left)) = parse_tagged(cut) {
        assert((left + rest).len() > 0);
    }
}

/// A patch without defect that was written is refused once more bytes follow it, and where it is
/// cut short.
pub proof fn written_patch_has_one_length(
    patch: StoragePatchView,
    tail: Seq<u8>,
    count: int,
)
    requires
        patch_defect(patch) is None,
        patch_fits(patch),
        patch_readable(patch),
        patch_restorable(patch),
        tail.len() > 0,
        0 <= count < patch_bytes(patch).len(),
    ensures
        patch_of(patch_bytes(patch)) == Ok::<StoragePatchView, Seq<char>>(patch),
        patch_of(patch_bytes(patch) + tail) is Err,
        patch_of(patch_bytes(patch).take(count)) is Err,
{
    written_patch_reads_back(patch);
    patch_has_one_length(patch_bytes(patch), tail, count);
}

/// Bytes that start with no tag of a patch are refused.
pub proof fn unknown_tag_is_refused(bytes: Seq<u8>)
    requires
        bytes.len() > 0,
        bytes[0] != CLIENT_PATCH,
        bytes[0] != RETAINED_PATCH,
    ensures
        patch_of(bytes) == Err::<StoragePatchView, Seq<char>>("unknown PBIN2 frame tag"@),
{
}

} // verus!
