//! The binary form of patches.
use vstd::prelude::*;

use crate::message::PendingView;
use crate::mqtt_codec::decode_publish;
use crate::mqtt_codec::encode_publish;
use crate::mqtt_codec::exact_publish;
use crate::mqtt_codec::publish_bytes;
use crate::mqtt_codec::stored_form;
use crate::ordered_map::IdSet;
use crate::ordered_map::OrderedKey;
use crate::ordered_map::OrderedMap;
use crate::ordered_map::ascending;
use crate::ordered_map::entries_of;
use crate::packet::PublishPacket;
use crate::packet::PublishView;
use crate::packet::QoS;
use crate::packet::qos_to_u8;
use crate::retained_message::retained_view;
use crate::retained_message::RetainedMessage;
use crate::retained_message::RetainedView;
use crate::storage::bytes::Writer;
use crate::storage::bytes::block_bytes;
use crate::storage::bytes::bool_bytes;
use crate::storage::bytes::le;
use crate::storage::bytes::opt_bytes;
use crate::storage::bytes::opt_text_bytes;
use crate::storage::bytes::opt_text_fits;
use crate::storage::bytes::opt_u32_nat;
use crate::storage::bytes::opt_u64_nat;
use crate::storage::bytes::text_bytes;
use crate::storage::bytes::text_fits;
use crate::storage::snapshot::ClientPatch;
use crate::storage::snapshot::ClientPatchMode;
use crate::storage::snapshot::ClientPatchView;
use crate::storage::snapshot::PendingSnapshot;
use crate::storage::snapshot::QueuedSnapshotView;
use crate::storage::snapshot::RetainedPatchView;
use crate::storage::snapshot::SessionSnapshot;
use crate::storage::snapshot::StoragePatch;
use crate::storage::snapshot::StoragePatchView;
use crate::storage::snapshot::SubscriptionSnapshot;
use crate::storage::snapshot::SubscriptionSnapshotView;
use crate::value::Value;

verus! {

/// The tag of client patches.
pub const CLIENT_PATCH: u8 = 1;

/// The tag of retained patches.
pub const RETAINED_PATCH: u8 = 2;

/// The bytes of some items, one after the other.
pub open spec fn concat<T>(items: Seq<T>, bytes: spec_fn(T) -> Seq<u8>) -> Seq<u8>
    decreases items.len(),
{
    if items.len() == 0 {
        Seq::empty()
    } else {
        concat(items.drop_last(), bytes) + bytes(items.last())
    }
}

/// The bytes of some items start with those of the first.
pub proof fn concat_front<T>(items: Seq<T>, bytes: spec_fn(T) -> Seq<u8>)
    requires
        items.len() > 0,
    ensures
        concat(items, bytes) == bytes(items[0]) + concat(items.drop_first(), bytes),
    decreases items.len(),
{
    if items.len() == 1 {
        assert(items.drop_last() =~= Seq::<T>::empty());
        assert(items.drop_first() =~= Seq::<T>::empty());
        assert(concat(items, bytes) =~= bytes(items[0]) + concat(items.drop_first(), bytes));
    } else {
        concat_front(items.drop_last(), bytes);
        assert(items.drop_last().drop_first() =~= items.drop_first().drop_last());
        assert(concat(items, bytes) =~= bytes(items[0]) + concat(items.drop_first(), bytes));
    }
}

/// Items of at least one byte each have at least as many bytes as they are.
pub proof fn concat_length<T>(items: Seq<T>, bytes: spec_fn(T) -> Seq<u8>)
    requires
        forall|i: int| 0 <= i < items.len() ==> bytes(#[trigger] items[i]).len() > 0,
    ensures
        concat(items, bytes).len() >= items.len(),
    decreases items.len(),
{
    if items.len() > 0 {
        let front = items.drop_last();
        assert forall|i: int| 0 <= i < front.len() implies bytes(#[trigger] front[i]).len() > 0 by {
            assert(front[i] == items[i]);
        }
        concat_length(front, bytes);
        assert(bytes(items[items.len() - 1]).len() > 0);
    }
}

/// Items with their number before them.
pub open spec fn list_bytes<T>(items: Seq<T>, bytes: spec_fn(T) -> Seq<u8>) -> Seq<u8> {
    le(items.len(), 4) + concat(items, bytes)
}

/// The bytes of a stored session.
#[verifier::opaque]
pub open spec fn session_bytes(session: SessionSnapshot) -> Seq<u8> {
    le(session.session_expiry_interval as nat, 4) + opt_bytes(
        opt_u64_nat(session.expires_at_ms),
        8,
    ) + le(session.next_packet_id as nat, 2) + le(session.next_offline_sequence as nat, 8)
}

/// The bytes of a stored subscription; the client's are elsewhere.
#[verifier::opaque]
pub open spec fn subscription_bytes(subscription: SubscriptionSnapshotView) -> Seq<u8> {
    text_bytes(subscription.filter) + text_bytes(subscription.match_filter) + opt_text_bytes(
        subscription.shared_group,
    ) + seq![subscription.maximum_qos.rank()] + bool_bytes(subscription.no_local) + bool_bytes(
        subscription.retain_as_published,
    ) + seq![subscription.retain_handling] + opt_bytes(
        opt_u32_nat(subscription.subscription_identifier),
        4,
    )
}

/// The texts of a stored subscription are short enough.
pub open spec fn subscription_fits(subscription: SubscriptionSnapshotView) -> bool {
    &&& text_fits(subscription.filter)
    &&& text_fits(subscription.match_filter)
    &&& opt_text_fits(subscription.shared_group)
}

/// The wire form of a stored publication.
pub open spec fn packet_block(packet: PublishView) -> Seq<u8> {
    publish_bytes(stored_form(packet))->0
}

/// A publication has a wire form, and one whose length can be written.
pub open spec fn packet_fits(packet: PublishView) -> bool {
    publish_bytes(stored_form(packet)) matches Some(block) && block.len() <= u32::MAX
}

/// The wire form of a publication reads as the publication.
pub open spec fn packet_readable(packet: PublishView) -> bool {
    exact_publish(packet_block(packet)) == Some(stored_form(packet))
}

/// The bytes of a stored publication.
#[verifier::opaque]
pub open spec fn pending_bytes(pending: PendingView) -> Seq<u8> {
    opt_bytes(opt_u64_nat(pending.expires_at_ms), 8) + block_bytes(packet_block(pending.packet))
}

/// The bytes of a stored publication of an offline queue.
pub open spec fn queued_bytes(queued: QueuedSnapshotView) -> Seq<u8> {
    le(queued.sequence as nat, 8) + pending_bytes(queued.pending)
}

/// The bytes of a stored publication under its identifier.
pub open spec fn entry_bytes(entry: (u16, PendingView)) -> Seq<u8> {
    le(entry.0 as nat, 2) + pending_bytes(entry.1)
}

/// The bytes of an identifier.
pub open spec fn id_bytes(entry: (u16, ())) -> Seq<u8> {
    le(entry.0 as nat, 2)
}

/// `subscription_bytes` as a function value.
pub open spec fn subscription_writer() -> spec_fn(SubscriptionSnapshotView) -> Seq<u8> {
    |subscription: SubscriptionSnapshotView| subscription_bytes(subscription)
}

/// `text_bytes` as a function value.
pub open spec fn text_writer() -> spec_fn(Seq<char>) -> Seq<u8> {
    |text: Seq<char>| text_bytes(text)
}

/// `queued_bytes` as a function value.
pub open spec fn queued_writer() -> spec_fn(QueuedSnapshotView) -> Seq<u8> {
    |queued: QueuedSnapshotView| queued_bytes(queued)
}

/// `entry_bytes` as a function value.
pub open spec fn entry_writer() -> spec_fn((u16, PendingView)) -> Seq<u8> {
    |entry: (u16, PendingView)| entry_bytes(entry)
}

/// `id_bytes` as a function value.
pub open spec fn id_writer() -> spec_fn((u16, ())) -> Seq<u8> {
    |entry: (u16, ())| id_bytes(entry)
}

/// A set as a map to nothing.
pub open spec fn unit_map(set: Set<u16>) -> Map<u16, ()> {
    Map::new(|id: u16| set.contains(id), |id: u16| ())
}

/// The bytes of a table of publications.
#[verifier::opaque]
pub open spec fn table_bytes(table: Map<u16, PendingView>) -> Seq<u8> {
    list_bytes(entries_of::<u16, PendingView>(table), entry_writer())
}

/// The bytes of a set of identifiers.
#[verifier::opaque]
pub open spec fn ids_bytes(ids: Set<u16>) -> Seq<u8> {
    list_bytes(entries_of::<u16, ()>(unit_map(ids)), id_writer())
}

/// The byte that stands for a mode.
pub open spec fn mode_byte(mode: ClientPatchMode) -> u8 {
    match mode {
        ClientPatchMode::Merge => 1,
        ClientPatchMode::Reset => 2,
        ClientPatchMode::Delete => 3,
    }
}

/// The bytes of a session that may be absent.
pub open spec fn opt_session_bytes(session: Option<SessionSnapshot>) -> Seq<u8> {
    match session {
        Some(session) => bool_bytes(true) + session_bytes(session),
        None => bool_bytes(false),
    }
}

/// The start of a client patch: its version, mode, client and session.
#[verifier::opaque]
pub open spec fn head_bytes(patch: ClientPatchView) -> Seq<u8> {
    seq![patch.version] + seq![mode_byte(patch.mode)] + text_bytes(patch.client_id)
        + opt_session_bytes(patch.session)
}

/// The subscriptions that a client patch changes.
#[verifier::opaque]
pub open spec fn changes_bytes(patch: ClientPatchView) -> Seq<u8> {
    list_bytes(patch.subscription_upserts, subscription_writer()) + list_bytes(
        patch.subscription_deletes,
        text_writer(),
    )
}

/// The offline queue's changes of a client patch.
#[verifier::opaque]
pub open spec fn offline_bytes(patch: ClientPatchView) -> Seq<u8> {
    opt_bytes(opt_u64_nat(patch.offline_remove_through), 8) + list_bytes(
        patch.offline_append,
        queued_writer(),
    )
}

/// The outbound tables' changes of a client patch.
#[verifier::opaque]
pub open spec fn tables_bytes(patch: ClientPatchView) -> Seq<u8> {
    table_bytes(patch.qos1_upserts) + ids_bytes(patch.qos1_deletes) + table_bytes(
        patch.qos2_publish_upserts,
    ) + ids_bytes(patch.qos2_publish_deletes) + ids_bytes(patch.pubrel_add) + ids_bytes(
        patch.pubrel_remove,
    )
}

/// The bytes of a client patch, behind its tag.
#[verifier::opaque]
pub open spec fn client_patch_bytes(patch: ClientPatchView) -> Seq<u8> {
    head_bytes(patch) + changes_bytes(patch) + offline_bytes(patch) + tables_bytes(patch)
}

/// The publication that stands for a retained message.
pub open spec fn retained_packet(message: RetainedView) -> PublishView {
    PublishView {
        dup: false,
        qos: message.qos,
        retain: true,
        topic_name: message.topic_name,
        packet_id: if message.qos == QoS::AtMostOnce {
            None
        } else {
            Some(1)
        },
        properties: message.properties,
        payload: message.payload,
    }
}

/// The retained message that a publication stands for.
pub open spec fn packet_retained(packet: PublishView, expires_at_ms: Option<u64>) -> RetainedView {
    RetainedView {
        expires_at_ms,
        ..retained_view(packet.qos, packet.topic_name, packet.properties, packet.payload, None)
    }
}

/// The bytes of a retained patch, behind its tag.
#[verifier::opaque]
pub open spec fn retained_patch_bytes(patch: RetainedPatchView) -> Seq<u8> {
    text_bytes(patch.topic_name) + match patch.message {
        Some(message) => bool_bytes(true) + opt_bytes(opt_u64_nat(message.expires_at_ms), 8)
            + block_bytes(packet_block(retained_packet(message))),
        None => bool_bytes(false),
    }
}

/// The bytes of a patch.
pub open spec fn patch_bytes(patch: StoragePatchView) -> Seq<u8> {
    match patch {
        StoragePatchView::Client(patch) => seq![CLIENT_PATCH] + client_patch_bytes(patch),
        StoragePatchView::Retained(patch) => seq![RETAINED_PATCH] + retained_patch_bytes(patch),
    }
}

/// Every publication of a table fits.
pub open spec fn table_fits(table: Map<u16, PendingView>) -> bool {
    forall|id: u16| #[trigger] table.dom().contains(id) ==> packet_fits(table[id].packet)
}

/// Every publication of a table reads as itself.
pub open spec fn table_readable(table: Map<u16, PendingView>) -> bool {
    forall|id: u16| #[trigger] table.dom().contains(id) ==> packet_readable(table[id].packet)
}

/// A client patch can be written: every length fits, and every publication has a wire form.
pub open spec fn client_patch_fits(patch: ClientPatchView) -> bool {
    &&& text_fits(patch.client_id)
    &&& patch.subscription_upserts.len() <= u32::MAX
    &&& forall|i: int|
        0 <= i < patch.subscription_upserts.len() ==> subscription_fits(
            #[trigger] patch.subscription_upserts[i],
        )
    &&& patch.subscription_deletes.len() <= u32::MAX
    &&& forall|i: int|
        0 <= i < patch.subscription_deletes.len() ==> text_fits(
            #[trigger] patch.subscription_deletes[i],
        )
    &&& patch.offline_append.len() <= u32::MAX
    &&& forall|i: int|
        0 <= i < patch.offline_append.len() ==> packet_fits(
            (#[trigger] patch.offline_append[i]).pending.packet,
        )
    &&& table_fits(patch.qos1_upserts)
    &&& table_fits(patch.qos2_publish_upserts)
}

/// Every publication of a client patch reads as itself.
pub open spec fn client_patch_readable(patch: ClientPatchView) -> bool {
    &&& forall|i: int|
        0 <= i < patch.offline_append.len() ==> packet_readable(
            (#[trigger] patch.offline_append[i]).pending.packet,
        )
    &&& table_readable(patch.qos1_upserts)
    &&& table_readable(patch.qos2_publish_upserts)
}

/// A patch can be written.
pub open spec fn patch_fits(patch: StoragePatchView) -> bool {
    match patch {
        StoragePatchView::Client(patch) => client_patch_fits(patch),
        StoragePatchView::Retained(patch) => text_fits(patch.topic_name) && (
        patch.message matches Some(message) ==> packet_fits(retained_packet(message))),
    }
}

/// Every publication of a patch reads as itself.
pub open spec fn patch_readable(patch: StoragePatchView) -> bool {
    match patch {
        StoragePatchView::Client(patch) => client_patch_readable(patch),
        StoragePatchView::Retained(patch) => patch.message matches Some(message)
            ==> packet_readable(retained_packet(message)),
    }
}

fn encode_session(writer: &mut Writer, session: &SessionSnapshot)
    ensures
        final(writer).bytes@ == old(writer).bytes@ + session_bytes(*session),
{
    proof {
        reveal(session_bytes);
    }
    let ghost before = writer.bytes@;
    writer.u32(session.session_expiry_interval);
    writer.opt_u64(session.expires_at_ms);
    writer.u16(session.next_packet_id);
    writer.u64(session.next_offline_sequence);
    assert(writer.bytes@ =~= before + session_bytes(*session));
}

fn encode_subscription(writer: &mut Writer, subscription: &SubscriptionSnapshot) -> (result: bool)
    ensures
        result == subscription_fits(subscription.deep_view()),
        result ==> final(writer).bytes@ == old(writer).bytes@ + subscription_bytes(
            subscription.deep_view(),
        ),
{
    proof {
        reveal(subscription_bytes);
    }
    let ghost before = writer.bytes@;
    if !writer.string(subscription.filter.as_str()) || !writer.string(
        subscription.match_filter.as_str(),
    ) || !writer.opt_string(&subscription.shared_group) {
        return false;
    }
    writer.u8(qos_to_u8(subscription.maximum_qos));
    writer.bool(subscription.no_local);
    writer.bool(subscription.retain_as_published);
    writer.u8(subscription.retain_handling);
    writer.opt_u32(subscription.subscription_identifier);
    assert(writer.bytes@ =~= before + subscription_bytes(subscription.deep_view()));
    true
}

fn encode_packet(writer: &mut Writer, packet: &PublishPacket) -> (result: bool)
    ensures
        result == packet_fits(packet.deep_view()),
        result ==> packet_readable(packet.deep_view()) && final(writer).bytes@
            == old(writer).bytes@ + block_bytes(packet_block(packet.deep_view())),
{
    match encode_publish(packet) {
        Some(block) => {
            assert(block.deep_view() =~= block@);
            writer.block(block.as_slice())
        },
        None => false,
    }
}

fn encode_pending(writer: &mut Writer, pending: &PendingSnapshot) -> (result: bool)
    ensures
        result == packet_fits(pending.deep_view().packet),
        result ==> packet_readable(pending.deep_view().packet) && final(writer).bytes@
            == old(writer).bytes@ + pending_bytes(pending.deep_view()),
{
    proof {
        reveal(pending_bytes);
    }
    let ghost before = writer.bytes@;
    writer.opt_u64(pending.expires_at_ms);
    if !encode_packet(writer, &pending.packet) {
        return false;
    }
    assert(writer.bytes@ =~= before + pending_bytes(pending.deep_view()));
    true
}

/// Ascending identifiers are no more than there are identifiers.
pub proof fn few_identifiers<W>(entries: Seq<(u16, W)>)
    requires
        ascending::<u16, W>(entries),
    ensures
        entries.len() <= 65_536,
        forall|i: int| 0 <= i < entries.len() ==> (#[trigger] entries[i]).0 >= i,
    decreases entries.len(),
{
    if entries.len() > 0 {
        let front = entries.drop_last();
        let last = entries.len() - 1;
        assert forall|i: int, j: int|
            #![trigger front[i], front[j]]
            0 <= i < j < front.len() implies u16::before(front[i].0, front[j].0) by {
            assert(u16::before(entries[i].0, entries[j].0));
        }
        few_identifiers(front);
        assert forall|i: int| 0 <= i < entries.len() implies (#[trigger] entries[i]).0 >= i by {
            if i < last {
                assert(front[i] == entries[i]);
            } else if last > 0 {
                assert(front[last - 1].0 >= last - 1);
                assert(u16::before(entries[last - 1].0, entries[last].0));
            }
        }
        assert(entries[last].0 >= last);
    }
}

fn encode_pending_map(writer: &mut Writer, values: &OrderedMap<u16, PendingSnapshot>) -> (result:
    bool)
    ensures
        result == table_fits(values.deep_view()),
        result ==> table_readable(values.deep_view()) && final(writer).bytes@
            == old(writer).bytes@ + table_bytes(values.deep_view()),
{
    proof {
        reveal(table_bytes);
    }
    let count: usize = values.len();
    let ghost list = values.entries();
    let ghost before = writer.bytes@;
    proof {
        few_identifiers(list);
    }
    writer.len(count);
    let ghost start = writer.bytes@;
    let mut index: usize = 0;
    assert(start =~= start + concat(list.take(0), entry_writer()));
    while index < count
        invariant
            index <= count == list.len(),
            list == values.entries(),
            writer.bytes@ == start + concat(list.take(index as int), entry_writer()),
            forall|i: int|
                0 <= i < index ==> packet_fits((#[trigger] list[i]).1.packet) && packet_readable(
                    list[i].1.packet,
                ),
        decreases count - index,
    {
        let ghost done = concat(list.take(index as int), entry_writer());
        let id: u16 = *values.key_at(index);
        let pending: &PendingSnapshot = values.value_at(index);
        proof {
            assert(list.take(index + 1).drop_last() =~= list.take(index as int));
            assert(list.take(index + 1).last() == list[index as int]);
        }
        writer.u16(id);
        if !encode_pending(writer, pending) {
            assert(values.deep_view().dom().contains(id));
            return false;
        }
        assert(writer.bytes@ =~= start + (done + entry_bytes(list[index as int])));
        index += 1;
    }
    proof {
        assert(list.take(index as int) =~= list);
        assert(writer.bytes@ =~= before + table_bytes(values.deep_view()));
        assert forall|id: u16| #[trigger] values.deep_view().dom().contains(id) implies packet_fits(
            values.deep_view()[id].packet,
        ) && packet_readable(values.deep_view()[id].packet) by {
            crate::ordered_map::key_has_entry(list, id);
        }
    }
    true
}

fn encode_u16_set(writer: &mut Writer, values: &IdSet)
    ensures
        final(writer).bytes@ == old(writer).bytes@ + ids_bytes(values.deep_view().dom()),
{
    proof {
        reveal(ids_bytes);
    }
    let count: usize = values.len();
    let ghost list = values.entries();
    let ghost before = writer.bytes@;
    proof {
        few_identifiers(list);
        assert(values.deep_view() =~= unit_map(values.deep_view().dom()));
    }
    writer.len(count);
    let ghost start = writer.bytes@;
    let mut index: usize = 0;
    assert(start =~= start + concat(list.take(0), id_writer()));
    while index < count
        invariant
            index <= count == list.len(),
            list == values.entries(),
            writer.bytes@ == start + concat(list.take(index as int), id_writer()),
        decreases count - index,
    {
        let ghost done = concat(list.take(index as int), id_writer());
        proof {
            assert(list.take(index + 1).drop_last() =~= list.take(index as int));
            assert(list.take(index + 1).last() == list[index as int]);
        }
        writer.u16(*values.key_at(index));
        assert(writer.bytes@ =~= start + (done + id_bytes(list[index as int])));
        index += 1;
    }
    proof {
        assert(list.take(index as int) =~= list);
        assert(writer.bytes@ =~= before + ids_bytes(values.deep_view().dom()));
    }
}

fn encode_head(writer: &mut Writer, patch: &ClientPatch) -> (result: bool)
    ensures
        result == text_fits(patch.deep_view().client_id),
        result ==> final(writer).bytes@ == old(writer).bytes@ + head_bytes(patch.deep_view()),
{
    proof {
        reveal(head_bytes);
    }
    let ghost before = writer.bytes@;
    writer.u8(patch.version);
    writer.u8(match patch.mode {
        ClientPatchMode::Merge => 1,
        ClientPatchMode::Reset => 2,
        ClientPatchMode::Delete => 3,
    });
    if !writer.string(patch.client_id.as_str()) {
        return false;
    }
    writer.bool(patch.session.is_some());
    if let Some(session) = &patch.session {
        encode_session(writer, session);
    }
    assert(writer.bytes@ =~= before + head_bytes(patch.deep_view()));
    true
}

fn encode_changes(writer: &mut Writer, patch: &ClientPatch) -> (result: bool)
    ensures
        result ==> final(writer).bytes@ == old(writer).bytes@ + changes_bytes(patch.deep_view()),
        result <==> {
            let view = patch.deep_view();
            &&& view.subscription_upserts.len() <= u32::MAX
            &&& forall|i: int|
                0 <= i < view.subscription_upserts.len() ==> subscription_fits(
                    #[trigger] view.subscription_upserts[i],
                )
            &&& view.subscription_deletes.len() <= u32::MAX
            &&& forall|i: int|
                0 <= i < view.subscription_deletes.len() ==> text_fits(
                    #[trigger] view.subscription_deletes[i],
                )
        },
{
    proof {
        reveal(changes_bytes);
    }
    let ghost upserts = patch.deep_view().subscription_upserts;
    let ghost deletes = patch.deep_view().subscription_deletes;
    let ghost before = writer.bytes@;
    if !writer.len(patch.subscription_upserts.len()) {
        return false;
    }
    let ghost start = writer.bytes@;
    let mut index: usize = 0;
    assert(start =~= start + concat(upserts.take(0), subscription_writer()));
    while index < patch.subscription_upserts.len()
        invariant
            index <= patch.subscription_upserts.len(),
            upserts == patch.subscription_upserts.deep_view(),
            upserts == patch.deep_view().subscription_upserts,
            writer.bytes@ == start + concat(upserts.take(index as int), subscription_writer()),
            forall|i: int| 0 <= i < index ==> subscription_fits(#[trigger] upserts[i]),
        decreases patch.subscription_upserts.len() - index,
    {
        let ghost done = concat(upserts.take(index as int), subscription_writer());
        proof {
            assert(upserts.take(index + 1).drop_last() =~= upserts.take(index as int));
            assert(upserts.take(index + 1).last() == upserts[index as int]);
            assert(upserts[index as int]
                == patch.subscription_upserts@[index as int].deep_view());
        }
        if !encode_subscription(writer, &patch.subscription_upserts[index]) {
            return false;
        }
        assert(writer.bytes@ =~= start + (done + subscription_bytes(upserts[index as int])));
        index += 1;
    }
    assert(upserts.take(index as int) =~= upserts);
    assert(writer.bytes@ =~= before + list_bytes(upserts, subscription_writer()));
    let ghost middle = writer.bytes@;
    if !writer.len(patch.subscription_deletes.len()) {
        return false;
    }
    let ghost start = writer.bytes@;
    let mut index: usize = 0;
    assert(start =~= start + concat(deletes.take(0), text_writer()));
    while index < patch.subscription_deletes.len()
        invariant
            index <= patch.subscription_deletes.len(),
            deletes == patch.subscription_deletes.deep_view(),
            deletes == patch.deep_view().subscription_deletes,
            writer.bytes@ == start + concat(deletes.take(index as int), text_writer()),
            forall|i: int| 0 <= i < index ==> text_fits(#[trigger] deletes[i]),
        decreases patch.subscription_deletes.len() - index,
    {
        let ghost done = concat(deletes.take(index as int), text_writer());
        proof {
            assert(deletes.take(index + 1).drop_last() =~= deletes.take(index as int));
            assert(deletes.take(index + 1).last() == deletes[index as int]);
            assert(deletes[index as int] == patch.subscription_deletes@[index as int]@);
        }
        if !writer.string(patch.subscription_deletes[index].as_str()) {
            return false;
        }
        assert(writer.bytes@ =~= start + (done + text_bytes(deletes[index as int])));
        index += 1;
    }
    assert(deletes.take(index as int) =~= deletes);
    assert(writer.bytes@ =~= middle + list_bytes(deletes, text_writer()));
    assert(writer.bytes@ =~= before + changes_bytes(patch.deep_view()));
    true
}

fn encode_offline(writer: &mut Writer, patch: &ClientPatch) -> (result: bool)
    ensures
        result ==> final(writer).bytes@ == old(writer).bytes@ + offline_bytes(patch.deep_view()),
        result ==> forall|i: int|
            0 <= i < patch.deep_view().offline_append.len() ==> packet_readable(
                (#[trigger] patch.deep_view().offline_append[i]).pending.packet,
            ),
        result <==> {
            let view = patch.deep_view();
            &&& view.offline_append.len() <= u32::MAX
            &&& forall|i: int|
                0 <= i < view.offline_append.len() ==> packet_fits(
                    (#[trigger] view.offline_append[i]).pending.packet,
                )
        },
{
    proof {
        reveal(offline_bytes);
    }
    let ghost appends = patch.deep_view().offline_append;
    let ghost before = writer.bytes@;
    writer.opt_u64(patch.offline_remove_through);
    if !writer.len(patch.offline_append.len()) {
        return false;
    }
    let ghost start = writer.bytes@;
    let mut index: usize = 0;
    assert(start =~= start + concat(appends.take(0), queued_writer()));
    while index < patch.offline_append.len()
        invariant
            index <= patch.offline_append.len(),
            appends == patch.offline_append.deep_view(),
            appends == patch.deep_view().offline_append,
            writer.bytes@ == start + concat(appends.take(index as int), queued_writer()),
            forall|i: int|
                0 <= i < index ==> packet_fits((#[trigger] appends[i]).pending.packet)
                    && packet_readable(appends[i].pending.packet),
        decreases patch.offline_append.len() - index,
    {
        let ghost done = concat(appends.take(index as int), queued_writer());
        proof {
            assert(appends.take(index + 1).drop_last() =~= appends.take(index as int));
            assert(appends.take(index + 1).last() == appends[index as int]);
            assert(appends[index as int] == patch.offline_append@[index as int].deep_view());
        }
        writer.u64(patch.offline_append[index].sequence);
        if !encode_pending(writer, &patch.offline_append[index].pending) {
            return false;
        }
        assert(writer.bytes@ =~= start + (done + queued_bytes(appends[index as int])));
        index += 1;
    }
    assert(appends.take(index as int) =~= appends);
    assert(writer.bytes@ =~= before + offline_bytes(patch.deep_view()));
    true
}

fn encode_client_patch(writer: &mut Writer, patch: &ClientPatch) -> (result: bool)
    ensures
        result == client_patch_fits(patch.deep_view()),
        result ==> client_patch_readable(patch.deep_view()) && final(writer).bytes@
            == old(writer).bytes@ + client_patch_bytes(patch.deep_view()),
{
    proof {
        reveal(client_patch_bytes);
        reveal(tables_bytes);
    }
    let ghost before = writer.bytes@;
    if !encode_head(writer, patch) || !encode_changes(writer, patch) || !encode_offline(
        writer,
        patch,
    ) {
        return false;
    }
    if !encode_pending_map(writer, &patch.qos1_upserts) {
        return false;
    }
    encode_u16_set(writer, &patch.qos1_deletes);
    if !encode_pending_map(writer, &patch.qos2_publish_upserts) {
        return false;
    }
    encode_u16_set(writer, &patch.qos2_publish_deletes);
    encode_u16_set(writer, &patch.pubrel_add);
    encode_u16_set(writer, &patch.pubrel_remove);
    assert(writer.bytes@ =~= before + client_patch_bytes(patch.deep_view()));
    true
}

/// The publication that stands for a retained message.
fn retained_publish(message: &RetainedMessage) -> (result: PublishPacket)
    ensures
        result.deep_view() == retained_packet(message.deep_view()),
{
    PublishPacket {
        dup: false,
        qos: message.qos,
        retain: true,
        topic_name: message.topic_name.dup(),
        packet_id: if message.qos == QoS::AtMostOnce {
            None
        } else {
            Some(1)
        },
        properties: message.properties.dup(),
        payload: message.payload.dup(),
    }
}

/// The wire form under which a retained message is stored.
pub fn encode_retained(message: &RetainedMessage) -> (result: Option<Vec<u8>>)
    ensures
        result.deep_view() == publish_bytes(retained_packet(message.deep_view())),
        result matches Some(bytes) ==> exact_publish(bytes@) == Some(
            retained_packet(message.deep_view()),
        ),
{
    encode_publish(&retained_publish(message))
}

/// The retained message that is stored as some bytes.
pub fn decode_retained(packet: &[u8]) -> (result: Option<RetainedMessage>)
    ensures
        match result {
            Some(message) => exact_publish(packet@) matches Some(publish) && message.deep_view()
                == packet_retained(publish, None),
            None => exact_publish(packet@) is None,
        },
{
    match decode_publish(packet) {
        Some(publish) => Some(
            RetainedMessage::new(
                publish.qos,
                publish.topic_name,
                publish.properties,
                publish.payload,
                None,
            ),
        ),
        None => None,
    }
}

/// The bytes of a patch, where it can be written. Every publication that is written reads as
/// itself.
pub fn encode_patch(patch: &StoragePatch) -> (result: Option<Vec<u8>>)
    ensures
        result is Some <==> patch_fits(patch.deep_view()),
        result matches Some(bytes) ==> bytes@ == patch_bytes(patch.deep_view())
            && patch_readable(patch.deep_view()),
{
    proof {
        reveal(retained_patch_bytes);
    }
    let mut writer: Writer = Writer::new();
    match patch {
        StoragePatch::Client(patch) => {
            writer.u8(CLIENT_PATCH);
            if !encode_client_patch(&mut writer, patch) {
                return None;
            }
            assert(writer.bytes@ =~= seq![CLIENT_PATCH] + client_patch_bytes(patch.deep_view()));
        },
        StoragePatch::Retained(patch) => {
            writer.u8(RETAINED_PATCH);
            if !writer.string(patch.topic_name.as_str()) {
                return None;
            }
            writer.bool(patch.message.is_some());
            if let Some(message) = &patch.message {
                writer.opt_u64(message.expires_at_ms);
                if !encode_packet(&mut writer, &retained_publish(message)) {
                    return None;
                }
            }
            assert(writer.bytes@ =~= seq![RETAINED_PATCH] + retained_patch_bytes(
                patch.deep_view(),
            ));
        },
    }
    Some(writer.bytes)
}

} // verus!
