//! Writing a patch and reading it back.
use vstd::prelude::*;
use vstd::utf8::encode_utf8;

use crate::message::PendingView;
use crate::mqtt_codec::stored_form;
use crate::ordered_map::OrderedKey;
use crate::ordered_map::ascending;
use crate::ordered_map::entries_of;
use crate::ordered_map::has_key;
use crate::ordered_map::listed;
use crate::ordered_map::map_of;
use crate::ordered_map::map_of_insert;
use crate::packet::QoS;
use crate::retained_message::RetainedView;
use crate::storage::bytes::block_back;
use crate::storage::bytes::block_bytes;
use crate::storage::bytes::bool_back;
use crate::storage::bytes::bool_bytes;
use crate::storage::bytes::count_back;
use crate::storage::bytes::le;
use crate::storage::bytes::le_round_trip;
use crate::storage::bytes::opt_bytes;
use crate::storage::bytes::opt_text_back;
use crate::storage::bytes::opt_text_bytes;
use crate::storage::bytes::opt_u32_back;
use crate::storage::bytes::opt_u32_nat;
use crate::storage::bytes::opt_u64_back;
use crate::storage::bytes::opt_u64_nat;
use crate::storage::bytes::parse_opt_text;
use crate::storage::bytes::parse_text;
use crate::storage::bytes::text_back;
use crate::storage::bytes::text_bytes;
use crate::storage::bytes::text_fits;
use crate::storage::bytes::u16_back;
use crate::storage::bytes::u32_back;
use crate::storage::bytes::u64_back;
use crate::storage::bytes::u8_back;
use crate::storage::patch_codec::CLIENT_PATCH;
use crate::storage::patch_codec::RETAINED_PATCH;
use crate::storage::patch_codec::changes_bytes;
use crate::storage::patch_codec::client_patch_bytes;
use crate::storage::patch_codec::client_patch_fits;
use crate::storage::patch_codec::client_patch_readable;
use crate::storage::patch_codec::concat;
use crate::storage::patch_codec::concat_front;
use crate::storage::patch_codec::concat_length;
use crate::storage::patch_codec::entry_writer;
use crate::storage::patch_codec::few_identifiers;
use crate::storage::patch_codec::head_bytes;
use crate::storage::patch_codec::id_writer;
use crate::storage::patch_codec::ids_bytes;
use crate::storage::patch_codec::mode_byte;
use crate::storage::patch_codec::offline_bytes;
use crate::storage::patch_codec::opt_session_bytes;
use crate::storage::patch_codec::packet_block;
use crate::storage::patch_codec::packet_fits;
use crate::storage::patch_codec::packet_readable;
use crate::storage::patch_codec::packet_retained;
use crate::storage::patch_codec::patch_bytes;
use crate::storage::patch_codec::patch_fits;
use crate::storage::patch_codec::patch_readable;
use crate::storage::patch_codec::pending_bytes;
use crate::storage::patch_codec::queued_writer;
use crate::storage::patch_codec::retained_packet;
use crate::storage::patch_codec::retained_patch_bytes;
use crate::storage::patch_codec::session_bytes;
use crate::storage::patch_codec::subscription_bytes;
use crate::storage::patch_codec::subscription_fits;
use crate::storage::patch_codec::subscription_writer;
use crate::storage::patch_codec::table_bytes;
use crate::storage::patch_codec::tables_bytes;
use crate::storage::patch_codec::text_writer;
use crate::storage::patch_codec::unit_map;
use crate::storage::patch_decode::TablesView;
use crate::storage::patch_decode::duplicate_identifier;
use crate::storage::patch_decode::has_sequence;
use crate::storage::patch_decode::parse_changes;
use crate::storage::patch_decode::parse_client_patch;
use crate::storage::patch_decode::parse_entries;
use crate::storage::patch_decode::parse_filters;
use crate::storage::patch_decode::parse_head;
use crate::storage::patch_decode::parse_id_entries;
use crate::storage::patch_decode::parse_ids;
use crate::storage::patch_decode::parse_offline;
use crate::storage::patch_decode::parse_opt_session;
use crate::storage::patch_decode::parse_options;
use crate::storage::patch_decode::parse_pending;
use crate::storage::patch_decode::parse_queue;
use crate::storage::patch_decode::parse_retained_patch;
use crate::storage::patch_decode::parse_session;
use crate::storage::patch_decode::parse_subscription;
use crate::storage::patch_decode::parse_subscriptions;
use crate::storage::patch_decode::parse_table;
use crate::storage::patch_decode::parse_tables;
use crate::storage::patch_decode::patch_of;
use crate::storage::snapshot::ClientPatchMode;
use crate::storage::snapshot::ClientPatchView;
use crate::storage::snapshot::QueuedSnapshotView;
use crate::storage::snapshot::RetainedPatchView;
use crate::storage::snapshot::SessionSnapshot;
use crate::storage::snapshot::StoragePatchView;
use crate::storage::snapshot::SubscriptionSnapshotView;
use crate::storage::snapshot::client_patch_defect;
use crate::storage::snapshot::has_filter;
use crate::storage::snapshot::patch_defect;
use crate::storage::snapshot::sound_upserts;
use crate::storage::snapshot::valid_offline;
use crate::storage::snapshot::valid_outbound;

verus! {

/// Bytes joined from the left are the bytes joined from the right.
proof fn join2(a: Seq<u8>, b: Seq<u8>, tail: Seq<u8>)
    ensures
        a + b + tail == a + (b + tail),
{
    assert(a + b + tail =~= a + (b + tail));
}

/// Bytes joined from the left are the bytes joined from the right.
proof fn join4(a: Seq<u8>, b: Seq<u8>, c: Seq<u8>, d: Seq<u8>, tail: Seq<u8>)
    ensures
        a + b + c + d + tail == a + (b + (c + (d + tail))),
{
    assert(a + b + c + d + tail =~= a + (b + (c + (d + tail))));
}

/// Bytes joined from the left are the bytes joined from the right.
proof fn join6(
    a: Seq<u8>,
    b: Seq<u8>,
    c: Seq<u8>,
    d: Seq<u8>,
    e: Seq<u8>,
    f: Seq<u8>,
    tail: Seq<u8>,
)
    ensures
        a + b + c + d + e + f + tail == a + (b + (c + (d + (e + (f + tail))))),
{
    assert(a + b + c + d + e + f + tail =~= a + (b + (c + (d + (e + (f + tail))))));
}

/// Bytes joined from the left are the bytes joined from the right.
proof fn join8(
    a: Seq<u8>,
    b: Seq<u8>,
    c: Seq<u8>,
    d: Seq<u8>,
    e: Seq<u8>,
    f: Seq<u8>,
    g: Seq<u8>,
    h: Seq<u8>,
    tail: Seq<u8>,
)
    ensures
        a + b + c + d + e + f + g + h + tail == a + (b + (c + (d + (e + (f + (g + (h + tail))))))),
{
    join4(e, f, g, h, tail);
    assert(a + b + c + d + e + f + g + h + tail =~= a + b + c + d + (e + f + g + h + tail));
    join4(a, b, c, d, e + (f + (g + (h + tail))));
}

proof fn session_back(session: SessionSnapshot, tail: Seq<u8>)
    ensures
        parse_session(session_bytes(session) + tail) == Ok::<(SessionSnapshot, Seq<u8>), Seq<char>>(
            (session, tail),
        ),
{
    reveal(parse_session);
    reveal(session_bytes);
    let r3 = le(session.next_offline_sequence as nat, 8) + tail;
    let r2 = le(session.next_packet_id as nat, 2) + r3;
    let r1 = opt_bytes(opt_u64_nat(session.expires_at_ms), 8) + r2;
    join4(
        le(session.session_expiry_interval as nat, 4),
        opt_bytes(opt_u64_nat(session.expires_at_ms), 8),
        le(session.next_packet_id as nat, 2),
        le(session.next_offline_sequence as nat, 8),
        tail,
    );
    u32_back(session.session_expiry_interval, r1);
    opt_u64_back(session.expires_at_ms, r2);
    u16_back(session.next_packet_id, r3);
    u64_back(session.next_offline_sequence, tail);
}

proof fn opt_session_back(session: Option<SessionSnapshot>, tail: Seq<u8>)
    ensures
        parse_opt_session(opt_session_bytes(session) + tail) == Ok::<
            (Option<SessionSnapshot>, Seq<u8>),
            Seq<char>,
        >((session, tail)),
{
    reveal(parse_opt_session);
    match session {
        Some(inner) => {
            let rest = session_bytes(inner) + tail;
            assert(opt_session_bytes(session) + tail =~= bool_bytes(true) + rest);
            bool_back(true, rest);
            session_back(inner, tail);
        },
        None => bool_back(false, tail),
    }
}

proof fn options_back(
    maximum_qos: QoS,
    no_local: bool,
    retain_as_published: bool,
    retain_handling: u8,
    tail: Seq<u8>,
)
    ensures
        parse_options(
            seq![maximum_qos.rank()] + (bool_bytes(no_local) + (bool_bytes(retain_as_published) + (
            seq![retain_handling] + tail))),
        ) == Ok::<((QoS, bool, bool, u8), Seq<u8>), Seq<char>>(
            ((maximum_qos, no_local, retain_as_published, retain_handling), tail),
        ),
{
    reveal(parse_options);
    let r3 = seq![retain_handling] + tail;
    let r2 = bool_bytes(retain_as_published) + r3;
    let r1 = bool_bytes(no_local) + r2;
    u8_back(maximum_qos.rank(), r1);
    bool_back(no_local, r2);
    bool_back(retain_as_published, r3);
    u8_back(retain_handling, tail);
}

proof fn subscription_back(subscription: SubscriptionSnapshotView, tail: Seq<u8>)
    requires
        subscription_fits(subscription),
    ensures
        parse_subscription(
            subscription_bytes(subscription) + tail,
            subscription.client_id,
        ) == Ok::<(SubscriptionSnapshotView, Seq<u8>), Seq<char>>((subscription, tail)),
{
    reveal(parse_subscription);
    reveal(subscription_bytes);
    let r7 = opt_bytes(opt_u32_nat(subscription.subscription_identifier), 4) + tail;
    let r3 = seq![subscription.maximum_qos.rank()] + (bool_bytes(subscription.no_local) + (
    bool_bytes(subscription.retain_as_published) + (seq![subscription.retain_handling] + r7)));
    let r2 = opt_text_bytes(subscription.shared_group) + r3;
    let r1 = text_bytes(subscription.match_filter) + r2;
    let r0 = text_bytes(subscription.filter) + r1;
    assert(subscription_bytes(subscription) + tail == r0) by {
        join8(
            text_bytes(subscription.filter),
            text_bytes(subscription.match_filter),
            opt_text_bytes(subscription.shared_group),
            seq![subscription.maximum_qos.rank()],
            bool_bytes(subscription.no_local),
            bool_bytes(subscription.retain_as_published),
            seq![subscription.retain_handling],
            opt_bytes(opt_u32_nat(subscription.subscription_identifier), 4),
            tail,
        );
    }
    assert(parse_text(r0) == Ok::<(Seq<char>, Seq<u8>), Seq<char>>((subscription.filter, r1))) by {
        text_back(subscription.filter, r1);
    }
    assert(parse_text(r1) == Ok::<(Seq<char>, Seq<u8>), Seq<char>>(
        (subscription.match_filter, r2),
    )) by {
        text_back(subscription.match_filter, r2);
    }
    assert(parse_opt_text(r2) == Ok::<(Option<Seq<char>>, Seq<u8>), Seq<char>>(
        (subscription.shared_group, r3),
    )) by {
        opt_text_back(subscription.shared_group, r3);
    }
    options_back(
        subscription.maximum_qos,
        subscription.no_local,
        subscription.retain_as_published,
        subscription.retain_handling,
        r7,
    );
    opt_u32_back(subscription.subscription_identifier, tail);
}

proof fn subscriptions_back(
    items: Seq<SubscriptionSnapshotView>,
    tail: Seq<u8>,
    client_id: Seq<char>,
    found: Seq<SubscriptionSnapshotView>,
)
    requires
        forall|i: int|
            0 <= i < items.len() ==> subscription_fits(#[trigger] items[i]) && items[i].client_id
                == client_id,
        forall|i: int, j: int|
            #![trigger items[i], items[j]]
            0 <= i < j < items.len() ==> items[i].filter != items[j].filter,
        forall|i: int| 0 <= i < items.len() ==> !has_filter(found, (#[trigger] items[i]).filter),
    ensures
        parse_subscriptions(
            items.len(),
            concat(items, subscription_writer()) + tail,
            client_id,
            found,
        ) == Ok::<(Seq<SubscriptionSnapshotView>, Seq<u8>), Seq<char>>((found + items, tail)),
    decreases items.len(),
{
    if items.len() == 0 {
        assert(concat(items, subscription_writer()) + tail =~= tail);
        assert(found + items =~= found);
    } else {
        let first = items[0];
        let others = items.drop_first();
        let rest = concat(others, subscription_writer()) + tail;
        concat_front(items, subscription_writer());
        join2(subscription_bytes(first), concat(others, subscription_writer()), tail);
        subscription_back(first, rest);
        let next = found.push(first);
        assert forall|i: int| 0 <= i < others.len() implies !has_filter(
            next,
            (#[trigger] others[i]).filter,
        ) && subscription_fits(others[i]) && others[i].client_id == client_id by {
            assert(others[i] == items[i + 1]);
            if has_filter(next, others[i].filter) {
                let j = choose|j: int|
                    0 <= j < next.len() && (#[trigger] next[j]).filter == others[i].filter;
                if j < found.len() {
                    assert(found[j].filter == others[i].filter);
                    assert(has_filter(found, items[i + 1].filter));
                } else {
                    assert(items[0].filter != items[i + 1].filter);
                }
            }
        }
        assert forall|i: int, j: int|
            #![trigger others[i], others[j]]
            0 <= i < j < others.len() implies others[i].filter != others[j].filter by {
            assert(items[i + 1].filter != items[j + 1].filter);
        }
        subscriptions_back(others, tail, client_id, next);
        assert(next + others =~= found + items);
    }
}

proof fn filters_back(items: Seq<Seq<char>>, tail: Seq<u8>, found: Seq<Seq<char>>)
    requires
        forall|i: int| 0 <= i < items.len() ==> text_fits(#[trigger] items[i]),
        (found + items).no_duplicates(),
    ensures
        parse_filters(items.len(), concat(items, text_writer()) + tail, found) == Ok::<
            (Seq<Seq<char>>, Seq<u8>),
            Seq<char>,
        >((found + items, tail)),
    decreases items.len(),
{
    if items.len() == 0 {
        assert(concat(items, text_writer()) + tail =~= tail);
        assert(found + items =~= found);
    } else {
        let first = items[0];
        let others = items.drop_first();
        let rest = concat(others, text_writer()) + tail;
        concat_front(items, text_writer());
        assert(concat(items, text_writer()) + tail =~= text_bytes(first) + rest);
        assert(text_fits(items[0]));
        text_back(first, rest);
        assert(!found.contains(first)) by {
            if found.contains(first) {
                let i = found.index_of(first);
                assert((found + items)[i] == (found + items)[found.len() as int]);
            }
        }
        assert forall|i: int| 0 <= i < others.len() implies text_fits(#[trigger] others[i]) by {
            assert(others[i] == items[i + 1]);
        }
        assert(found.push(first) + others =~= found + items);
        filters_back(others, tail, found.push(first));
    }
}

proof fn pending_back(pending: PendingView, tail: Seq<u8>)
    requires
        packet_fits(pending.packet),
        packet_readable(pending.packet),
    ensures
        parse_pending(pending_bytes(pending) + tail) == Ok::<(PendingView, Seq<u8>), Seq<char>>(
            (PendingView { packet: stored_form(pending.packet), ..pending }, tail),
        ),
{
    reveal(parse_pending);
    reveal(pending_bytes);
    let rest = block_bytes(packet_block(pending.packet)) + tail;
    assert(pending_bytes(pending) + tail =~= opt_bytes(opt_u64_nat(pending.expires_at_ms), 8)
        + rest);
    opt_u64_back(pending.expires_at_ms, rest);
    block_back(packet_block(pending.packet), tail);
}

proof fn queue_back(
    items: Seq<QueuedSnapshotView>,
    tail: Seq<u8>,
    found: Seq<QueuedSnapshotView>,
)
    requires
        forall|i: int|
            0 <= i < items.len() ==> packet_fits((#[trigger] items[i]).pending.packet)
                && packet_readable(items[i].pending.packet) && valid_offline(items[i].pending),
        forall|i: int, j: int|
            #![trigger items[i], items[j]]
            0 <= i < j < items.len() ==> items[i].sequence < items[j].sequence,
        forall|i: int|
            0 <= i < items.len() ==> !has_sequence(found, (#[trigger] items[i]).sequence),
    ensures
        parse_queue(items.len(), concat(items, queued_writer()) + tail, found) == Ok::<
            (Seq<QueuedSnapshotView>, Seq<u8>),
            Seq<char>,
        >((found + items, tail)),
    decreases items.len(),
{
    if items.len() == 0 {
        assert(concat(items, queued_writer()) + tail =~= tail);
        assert(found + items =~= found);
    } else {
        let first = items[0];
        let others = items.drop_first();
        let rest = concat(others, queued_writer()) + tail;
        concat_front(items, queued_writer());
        assert(concat(items, queued_writer()) + tail =~= le(first.sequence as nat, 8) + (
        pending_bytes(first.pending) + rest));
        u64_back(first.sequence, pending_bytes(first.pending) + rest);
        pending_back(first.pending, rest);
        assert(!has_sequence(found, items[0].sequence));
        let next = found.push(first);
        assert forall|i: int| 0 <= i < others.len() implies !has_sequence(
            next,
            (#[trigger] others[i]).sequence,
        ) && packet_fits(others[i].pending.packet) && packet_readable(others[i].pending.packet)
            && valid_offline(others[i].pending) by {
            assert(others[i] == items[i + 1]);
            if has_sequence(next, others[i].sequence) {
                let j = choose|j: int|
                    0 <= j < next.len() && (#[trigger] next[j]).sequence == others[i].sequence;
                if j < found.len() {
                    assert(found[j].sequence == others[i].sequence);
                    assert(has_sequence(found, items[i + 1].sequence));
                } else {
                    assert(items[0].sequence < items[i + 1].sequence);
                }
            }
        }
        assert forall|i: int, j: int|
            #![trigger others[i], others[j]]
            0 <= i < j < others.len() implies others[i].sequence < others[j].sequence by {
            assert(items[i + 1].sequence < items[j + 1].sequence);
        }
        queue_back(others, tail, next);
        assert(next + others =~= found + items);
    }
}

/// The entries before a position and the one at it make up the entries before the next.
proof fn map_of_prefix<W>(entries: Seq<(u16, W)>, count: int)
    requires
        ascending::<u16, W>(entries),
        0 <= count < entries.len(),
    ensures
        map_of(entries.take(count + 1)) == map_of(entries.take(count)).insert(
            entries[count].0,
            entries[count].1,
        ),
        !map_of(entries.take(count)).dom().contains(entries[count].0),
{
    let before = entries.take(count);
    let after = entries.take(count + 1);
    assert(after =~= before.insert(count, entries[count]));
    assert forall|i: int, j: int|
        #![trigger before[i], before[j]]
        0 <= i < j < before.len() implies u16::before(before[i].0, before[j].0) by {
        assert(u16::before(entries[i].0, entries[j].0));
    }
    assert forall|i: int, j: int|
        #![trigger after[i], after[j]]
        0 <= i < j < after.len() implies u16::before(after[i].0, after[j].0) by {
        assert(u16::before(entries[i].0, entries[j].0));
    }
    assert(!has_key(before, entries[count].0)) by {
        if has_key(before, entries[count].0) {
            let i = crate::ordered_map::key_index(before, entries[count].0);
            assert(u16::before(entries[i].0, entries[count].0));
        }
    }
    map_of_insert::<u16, W>(before, count, entries[count].0, entries[count].1);
}

proof fn entries_back(
    entries: Seq<(u16, PendingView)>,
    count: nat,
    tail: Seq<u8>,
    duplicate: Seq<char>,
)
    requires
        ascending::<u16, PendingView>(entries),
        count <= entries.len(),
        forall|i: int|
            0 <= i < entries.len() ==> packet_fits((#[trigger] entries[i]).1.packet)
                && packet_readable(entries[i].1.packet) && stored_form(entries[i].1.packet)
                == entries[i].1.packet,
    ensures
        parse_entries(
            (entries.len() - count) as nat,
            concat(entries.skip(count as int), entry_writer()) + tail,
            map_of(entries.take(count as int)),
            duplicate,
        ) == Ok::<(Map<u16, PendingView>, Seq<u8>), Seq<char>>((map_of(entries), tail)),
    decreases entries.len() - count,
{
    let items = entries.skip(count as int);
    if count == entries.len() {
        assert(concat(items, entry_writer()) + tail =~= tail);
        assert(entries.take(count as int) =~= entries);
    } else {
        let first = items[0];
        assert(first == entries[count as int]);
        let others = items.drop_first();
        assert(others =~= entries.skip(count as int + 1));
        let rest = concat(others, entry_writer()) + tail;
        concat_front(items, entry_writer());
        assert(concat(items, entry_writer()) + tail =~= le(first.0 as nat, 2) + (pending_bytes(
            first.1,
        ) + rest));
        u16_back(first.0, pending_bytes(first.1) + rest);
        pending_back(first.1, rest);
        map_of_prefix(entries, count as int);
        entries_back(entries, count + 1, tail, duplicate);
    }
}

proof fn table_back(table: Map<u16, PendingView>, tail: Seq<u8>, duplicate: Seq<char>, qos: QoS)
    requires
        listed::<u16, PendingView>(table),
        forall|id: u16| #[trigger]
            table.dom().contains(id) ==> packet_fits(table[id].packet) && packet_readable(
                table[id].packet,
            ) && valid_outbound(id, table[id], qos),
    ensures
        parse_table(table_bytes(table) + tail, duplicate) == Ok::<
            (Map<u16, PendingView>, Seq<u8>),
            Seq<char>,
        >((table, tail)),
{
    reveal(parse_table);
    reveal(table_bytes);
    let entries = entries_of::<u16, PendingView>(table);
    assert forall|i: int| 0 <= i < entries.len() implies packet_fits(
        (#[trigger] entries[i]).1.packet,
    ) && packet_readable(entries[i].1.packet) && stored_form(entries[i].1.packet)
        == entries[i].1.packet by {
        crate::ordered_map::map_of_entry::<u16, PendingView>(entries, i);
        assert(table.dom().contains(entries[i].0));
    }
    few_identifiers(entries);
    let rest = concat(entries, entry_writer()) + tail;
    assert forall|i: int| 0 <= i < entries.len() implies entry_writer()(
        #[trigger] entries[i],
    ).len() > 0 by {
        le_round_trip(entries[i].0 as nat, 2);
    }
    concat_length(entries, entry_writer());
    assert(table_bytes(table) + tail =~= le(entries.len(), 4) + rest);
    count_back(entries.len(), rest);
    entries_back(entries, 0, tail, duplicate);
    assert(entries.skip(0) =~= entries);
    assert(map_of(entries.take(0)) =~= Map::<u16, PendingView>::empty());
}

proof fn id_entries_back(
    entries: Seq<(u16, ())>,
    count: nat,
    tail: Seq<u8>,
    duplicate: Seq<char>,
)
    requires
        ascending::<u16, ()>(entries),
        count <= entries.len(),
    ensures
        parse_id_entries(
            (entries.len() - count) as nat,
            concat(entries.skip(count as int), id_writer()) + tail,
            map_of(entries.take(count as int)),
            duplicate,
        ) == Ok::<(Map<u16, ()>, Seq<u8>), Seq<char>>((map_of(entries), tail)),
    decreases entries.len() - count,
{
    let items = entries.skip(count as int);
    if count == entries.len() {
        assert(concat(items, id_writer()) + tail =~= tail);
        assert(entries.take(count as int) =~= entries);
    } else {
        let first = items[0];
        assert(first == entries[count as int]);
        let others = items.drop_first();
        assert(others =~= entries.skip(count as int + 1));
        let rest = concat(others, id_writer()) + tail;
        concat_front(items, id_writer());
        assert(concat(items, id_writer()) + tail =~= le(first.0 as nat, 2) + rest);
        u16_back(first.0, rest);
        map_of_prefix(entries, count as int);
        id_entries_back(entries, count + 1, tail, duplicate);
    }
}

proof fn ids_back(ids: Set<u16>, tail: Seq<u8>, duplicate: Seq<char>)
    requires
        listed::<u16, ()>(unit_map(ids)),
    ensures
        parse_ids(ids_bytes(ids) + tail, duplicate) == Ok::<(Map<u16, ()>, Seq<u8>), Seq<char>>(
            (unit_map(ids), tail),
        ),
        unit_map(ids).dom() == ids,
{
    reveal(parse_ids);
    reveal(ids_bytes);
    let entries = entries_of::<u16, ()>(unit_map(ids));
    few_identifiers(entries);
    let rest = concat(entries, id_writer()) + tail;
    assert forall|i: int| 0 <= i < entries.len() implies id_writer()(
        #[trigger] entries[i],
    ).len() > 0 by {
        le_round_trip(entries[i].0 as nat, 2);
    }
    concat_length(entries, id_writer());
    assert(ids_bytes(ids) + tail =~= le(entries.len(), 4) + rest);
    count_back(entries.len(), rest);
    id_entries_back(entries, 0, tail, duplicate);
    assert(entries.skip(0) =~= entries);
    assert(map_of(entries.take(0)) =~= Map::<u16, ()>::empty());
    assert(unit_map(ids).dom() =~= ids);
}

/// The tables of a client patch are finite.
pub open spec fn patch_listed(patch: ClientPatchView) -> bool {
    &&& listed::<u16, PendingView>(patch.qos1_upserts)
    &&& listed::<u16, ()>(unit_map(patch.qos1_deletes))
    &&& listed::<u16, PendingView>(patch.qos2_publish_upserts)
    &&& listed::<u16, ()>(unit_map(patch.qos2_publish_deletes))
    &&& listed::<u16, ()>(unit_map(patch.pubrel_add))
    &&& listed::<u16, ()>(unit_map(patch.pubrel_remove))
}

proof fn tables_back(patch: ClientPatchView, tail: Seq<u8>)
    requires
        client_patch_defect(patch) is None,
        client_patch_fits(patch),
        client_patch_readable(patch),
        patch_listed(patch),
    ensures
        parse_tables(tables_bytes(patch) + tail) == Ok::<(TablesView, Seq<u8>), Seq<char>>(
            (
                TablesView {
                    qos1_upserts: patch.qos1_upserts,
                    qos1_deletes: patch.qos1_deletes,
                    qos2_publish_upserts: patch.qos2_publish_upserts,
                    qos2_publish_deletes: patch.qos2_publish_deletes,
                    pubrel_add: patch.pubrel_add,
                    pubrel_remove: patch.pubrel_remove,
                },
                tail,
            ),
        ),
{
    reveal(parse_tables);
    reveal(tables_bytes);
    let duplicate = duplicate_identifier();
    let r5 = ids_bytes(patch.pubrel_remove) + tail;
    let r4 = ids_bytes(patch.pubrel_add) + r5;
    let r3 = ids_bytes(patch.qos2_publish_deletes) + r4;
    let r2 = table_bytes(patch.qos2_publish_upserts) + r3;
    let r1 = ids_bytes(patch.qos1_deletes) + r2;
    join6(
        table_bytes(patch.qos1_upserts),
        ids_bytes(patch.qos1_deletes),
        table_bytes(patch.qos2_publish_upserts),
        ids_bytes(patch.qos2_publish_deletes),
        ids_bytes(patch.pubrel_add),
        ids_bytes(patch.pubrel_remove),
        tail,
    );
    table_back(patch.qos1_upserts, r1, duplicate, QoS::AtLeastOnce);
    ids_back(patch.qos1_deletes, r2, duplicate);
    table_back(patch.qos2_publish_upserts, r3, duplicate, QoS::ExactlyOnce);
    ids_back(patch.qos2_publish_deletes, r4, duplicate);
    ids_back(patch.pubrel_add, r5, duplicate);
    ids_back(patch.pubrel_remove, tail, duplicate);
}

proof fn head_back(patch: ClientPatchView, tail: Seq<u8>)
    requires
        client_patch_defect(patch) is None,
        client_patch_fits(patch),
    ensures
        parse_head(head_bytes(patch) + tail) == Ok::<
            ((u8, ClientPatchMode, Seq<char>, Option<SessionSnapshot>), Seq<u8>),
            Seq<char>,
        >(((patch.version, patch.mode, patch.client_id, patch.session), tail)),
{
    reveal(parse_head);
    reveal(head_bytes);
    let r3 = opt_session_bytes(patch.session) + tail;
    let r2 = text_bytes(patch.client_id) + r3;
    let r1 = seq![mode_byte(patch.mode)] + r2;
    join4(
        seq![patch.version],
        seq![mode_byte(patch.mode)],
        text_bytes(patch.client_id),
        opt_session_bytes(patch.session),
        tail,
    );
    u8_back(patch.version, r1);
    u8_back(mode_byte(patch.mode), r2);
    text_back(patch.client_id, r3);
    opt_session_back(patch.session, tail);
}

proof fn changes_back(patch: ClientPatchView, tail: Seq<u8>)
    requires
        client_patch_defect(patch) is None,
        client_patch_fits(patch),
    ensures
        parse_changes(changes_bytes(patch) + tail, patch.client_id) == Ok::<
            ((Seq<SubscriptionSnapshotView>, Seq<Seq<char>>), Seq<u8>),
            Seq<char>,
        >(((patch.subscription_upserts, patch.subscription_deletes), tail)),
{
    reveal(parse_changes);
    reveal(changes_bytes);
    let upserts = patch.subscription_upserts;
    let deletes = patch.subscription_deletes;
    let r3 = concat(deletes, text_writer()) + tail;
    let r2 = le(deletes.len(), 4) + r3;
    let r1 = concat(upserts, subscription_writer()) + r2;
    assert(changes_bytes(patch) + tail =~= le(upserts.len(), 4) + r1);
    sound_upserts(upserts, patch.client_id);
    assert forall|i: int| 0 <= i < upserts.len() implies subscription_writer()(
        #[trigger] upserts[i],
    ).len() > 0 by {
        reveal(subscription_bytes);
        le_round_trip(encode_utf8(upserts[i].filter).len(), 4);
    }
    concat_length(upserts, subscription_writer());
    count_back(upserts.len(), r1);
    subscriptions_back(upserts, r2, patch.client_id, Seq::empty());
    assert(Seq::<SubscriptionSnapshotView>::empty() + upserts =~= upserts);
    assert forall|i: int| 0 <= i < deletes.len() implies text_writer()(
        #[trigger] deletes[i],
    ).len() > 0 by {
        le_round_trip(encode_utf8(deletes[i]).len(), 4);
    }
    concat_length(deletes, text_writer());
    count_back(deletes.len(), r3);
    assert(Seq::<Seq<char>>::empty() + deletes =~= deletes);
    filters_back(deletes, tail, Seq::empty());
}

proof fn offline_back(patch: ClientPatchView, tail: Seq<u8>)
    requires
        client_patch_defect(patch) is None,
        client_patch_fits(patch),
        client_patch_readable(patch),
    ensures
        parse_offline(offline_bytes(patch) + tail) == Ok::<
            ((Option<u64>, Seq<QueuedSnapshotView>), Seq<u8>),
            Seq<char>,
        >(((patch.offline_remove_through, patch.offline_append), tail)),
{
    reveal(parse_offline);
    reveal(offline_bytes);
    let appends = patch.offline_append;
    let r2 = concat(appends, queued_writer()) + tail;
    let r1 = le(appends.len(), 4) + r2;
    assert(offline_bytes(patch) + tail =~= opt_bytes(
        opt_u64_nat(patch.offline_remove_through),
        8,
    ) + r1);
    opt_u64_back(patch.offline_remove_through, r1);
    assert forall|i: int| 0 <= i < appends.len() implies queued_writer()(
        #[trigger] appends[i],
    ).len() > 0 by {
        le_round_trip(appends[i].sequence as nat, 8);
    }
    concat_length(appends, queued_writer());
    count_back(appends.len(), r2);
    queue_back(appends, tail, Seq::empty());
    assert(Seq::<QueuedSnapshotView>::empty() + appends =~= appends);
}

/// The message is as a retained message is made.
pub open spec fn made_retained(message: RetainedView) -> bool {
    message == packet_retained(retained_packet(message), message.expires_at_ms)
}

/// The patch is one that reads back: its tables are finite, and its retained message is as a
/// retained message is made.
pub open spec fn patch_restorable(patch: StoragePatchView) -> bool {
    match patch {
        StoragePatchView::Client(patch) => patch_listed(patch),
        StoragePatchView::Retained(patch) => patch.message matches Some(message) ==> made_retained(
            message,
        ),
    }
}

proof fn client_patch_back(patch: ClientPatchView)
    requires
        client_patch_defect(patch) is None,
        client_patch_fits(patch),
        client_patch_readable(patch),
        patch_listed(patch),
    ensures
        parse_client_patch(client_patch_bytes(patch)) == Ok::<
            (ClientPatchView, Seq<u8>),
            Seq<char>,
        >((patch, Seq::empty())),
{
    reveal(parse_client_patch);
    reveal(client_patch_bytes);
    let nothing = Seq::<u8>::empty();
    let r3 = tables_bytes(patch) + nothing;
    let r2 = offline_bytes(patch) + r3;
    let r1 = changes_bytes(patch) + r2;
    let r0 = head_bytes(patch) + r1;
    assert(client_patch_bytes(patch) == r0) by {
        join4(
            head_bytes(patch),
            changes_bytes(patch),
            offline_bytes(patch),
            tables_bytes(patch),
            nothing,
        );
        assert(client_patch_bytes(patch) + nothing =~= client_patch_bytes(patch));
    }
    head_back(patch, r1);
    changes_back(patch, r2);
    offline_back(patch, r3);
    tables_back(patch, nothing);
}

proof fn retained_patch_back(patch: RetainedPatchView)
    requires
        patch_fits(StoragePatchView::Retained(patch)),
        patch_readable(StoragePatchView::Retained(patch)),
        patch_restorable(StoragePatchView::Retained(patch)),
        patch_defect(StoragePatchView::Retained(patch)) is None,
    ensures
        parse_retained_patch(retained_patch_bytes(patch)) == Ok::<
            (RetainedPatchView, Seq<u8>),
            Seq<char>,
        >((patch, Seq::empty())),
{
    reveal(parse_retained_patch);
    reveal(retained_patch_bytes);
    let nothing = Seq::<u8>::empty();
    match patch.message {
        Some(message) => {
            let block = packet_block(retained_packet(message));
            let r3 = block_bytes(block) + nothing;
            let r2 = opt_bytes(opt_u64_nat(message.expires_at_ms), 8) + r3;
            let r1 = bool_bytes(true) + r2;
            let r0 = text_bytes(patch.topic_name) + r1;
            assert(retained_patch_bytes(patch) =~= r0);
            text_back(patch.topic_name, r1);
            bool_back(true, r2);
            opt_u64_back(message.expires_at_ms, r3);
            block_back(block, nothing);
        },
        None => {
            let r1 = bool_bytes(false) + nothing;
            let r0 = text_bytes(patch.topic_name) + r1;
            assert(retained_patch_bytes(patch) =~= r0);
            text_back(patch.topic_name, r1);
            bool_back(false, nothing);
        },
    }
}

/// A patch without defect that was written reads back as the same patch.
pub proof fn written_patch_reads_back(patch: StoragePatchView)
    requires
        patch_defect(patch) is None,
        patch_fits(patch),
        patch_readable(patch),
        patch_restorable(patch),
    ensures
        patch_of(patch_bytes(patch)) == Ok::<StoragePatchView, Seq<char>>(patch),
{
    match patch {
        StoragePatchView::Client(inner) => {
            u8_back(CLIENT_PATCH, client_patch_bytes(inner));
            client_patch_back(inner);
        },
        StoragePatchView::Retained(inner) => {
            u8_back(RETAINED_PATCH, retained_patch_bytes(inner));
            retained_patch_back(inner);
        },
    }
}

} // verus!
