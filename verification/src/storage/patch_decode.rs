//! Reading patches back from their binary form.
use vstd::prelude::*;

use crate::message::PendingPublish;
use crate::message::PendingView;
use crate::mqtt_codec::decode_publish;
use crate::mqtt_codec::exact_publish;
use crate::ordered_map::IdSet;
use crate::ordered_map::OrderedMap;
use crate::ordered_map::TextSet;
use crate::ordered_map::keys_meet;
use crate::ordered_map::set_model_injective;
use crate::packet::PublishView;
use crate::packet::QoS;
use crate::packet::qos_from_u8;
use crate::retained_message::RetainedMessage;
use crate::retained_message::RetainedView;
use crate::storage::bytes::Parse;
use crate::storage::bytes::Reader;
use crate::storage::bytes::parse_block;
use crate::storage::bytes::parse_bool;
use crate::storage::bytes::parse_count;
use crate::storage::bytes::parse_opt_text;
use crate::storage::bytes::parse_opt_u32;
use crate::storage::bytes::parse_opt_u64;
use crate::storage::bytes::parse_text;
use crate::storage::bytes::parse_u16;
use crate::storage::bytes::parse_u32;
use crate::storage::bytes::parse_u64;
use crate::storage::bytes::parse_u8;
use crate::storage::bytes::read_as;
use crate::storage::patch_codec::CLIENT_PATCH;
use crate::storage::patch_codec::RETAINED_PATCH;
use crate::storage::patch_codec::decode_retained;
use crate::storage::patch_codec::mode_byte;
use crate::storage::patch_codec::packet_retained;
use crate::storage::snapshot::CLIENT_PATCH_VERSION;
use crate::storage::snapshot::ClientPatch;
use crate::storage::snapshot::ClientPatchMode;
use crate::storage::snapshot::ClientPatchView;
use crate::storage::snapshot::PendingSnapshot;
use crate::storage::snapshot::QueuedSnapshot;
use crate::storage::snapshot::QueuedSnapshotView;
use crate::storage::snapshot::RetainedPatch;
use crate::storage::snapshot::RetainedPatchView;
use crate::storage::snapshot::SessionSnapshot;
use crate::storage::snapshot::StoragePatch;
use crate::storage::snapshot::StoragePatchView;
use crate::storage::snapshot::SubscriptionSnapshot;
use crate::storage::snapshot::SubscriptionSnapshotView;
use crate::storage::snapshot::client_patch_defect;
use crate::storage::snapshot::has_filter;
use crate::storage::snapshot::patch_defect;
use crate::value::Value;

verus! {

/// Reads a stored session.
#[verifier::opaque]
pub open spec fn parse_session(bytes: Seq<u8>) -> Parse<SessionSnapshot> {
    match parse_u32(bytes) {
        Err(error) => Err(error),
        Ok((session_expiry_interval, rest)) => match parse_opt_u64(rest) {
            Err(error) => Err(error),
            Ok((expires_at_ms, rest)) => match parse_u16(rest) {
                Err(error) => Err(error),
                Ok((next_packet_id, rest)) => match parse_u64(rest) {
                    Err(error) => Err(error),
                    Ok((next_offline_sequence, rest)) => Ok(
                        (
                            SessionSnapshot {
                                session_expiry_interval,
                                expires_at_ms,
                                next_packet_id,
                                next_offline_sequence,
                            },
                            rest,
                        ),
                    ),
                },
            },
        },
    }
}

/// Reads a session that may be absent.
#[verifier::opaque]
pub open spec fn parse_opt_session(bytes: Seq<u8>) -> Parse<Option<SessionSnapshot>> {
    match parse_bool(bytes) {
        Err(error) => Err(error),
        Ok((false, rest)) => Ok((None, rest)),
        Ok((true, rest)) => match parse_session(rest) {
            Err(error) => Err(error),
            Ok((session, rest)) => Ok((Some(session), rest)),
        },
    }
}

/// The quality of service that a number stands for.
pub open spec fn qos_of(value: u8) -> QoS {
    if value == 0 {
        QoS::AtMostOnce
    } else if value == 1 {
        QoS::AtLeastOnce
    } else {
        QoS::ExactlyOnce
    }
}

/// Reads a quality of service.
pub open spec fn parse_qos(bytes: Seq<u8>) -> Parse<QoS> {
    match parse_u8(bytes) {
        Err(error) => Err(error),
        Ok((value, rest)) => if value <= 2 {
            Ok((qos_of(value), rest))
        } else {
            Err("invalid PBIN QoS"@)
        },
    }
}

/// Reads the options of a stored subscription.
#[verifier::opaque]
pub open spec fn parse_options(bytes: Seq<u8>) -> Parse<(QoS, bool, bool, u8)> {
    match parse_qos(bytes) {
        Err(error) => Err(error),
        Ok((maximum_qos, rest)) => match parse_bool(rest) {
            Err(error) => Err(error),
            Ok((no_local, rest)) => match parse_bool(rest) {
                Err(error) => Err(error),
                Ok((retain_as_published, rest)) => match parse_u8(rest) {
                    Err(error) => Err(error),
                    Ok((retain_handling, rest)) => Ok(
                        ((maximum_qos, no_local, retain_as_published, retain_handling), rest),
                    ),
                },
            },
        },
    }
}

/// Reads a stored subscription of a client.
#[verifier::opaque]
pub open spec fn parse_subscription(
    bytes: Seq<u8>,
    client_id: Seq<char>,
) -> Parse<SubscriptionSnapshotView> {
    match parse_text(bytes) {
        Err(error) => Err(error),
        Ok((filter, rest)) => match parse_text(rest) {
            Err(error) => Err(error),
            Ok((match_filter, rest)) => match parse_opt_text(rest) {
                Err(error) => Err(error),
                Ok((shared_group, rest)) => match parse_options(rest) {
                    Err(error) => Err(error),
                    Ok((options, rest)) => match parse_opt_u32(rest) {
                        Err(error) => Err(error),
                        Ok((subscription_identifier, rest)) => Ok(
                            (
                                SubscriptionSnapshotView {
                                    client_id,
                                    filter,
                                    match_filter,
                                    shared_group,
                                    maximum_qos: options.0,
                                    no_local: options.1,
                                    retain_as_published: options.2,
                                    retain_handling: options.3,
                                    subscription_identifier,
                                },
                                rest,
                            ),
                        ),
                    },
                },
            },
        },
    }
}

/// Reads some stored subscriptions, each under another filter.
pub open spec fn parse_subscriptions(
    count: nat,
    bytes: Seq<u8>,
    client_id: Seq<char>,
    found: Seq<SubscriptionSnapshotView>,
) -> Parse<Seq<SubscriptionSnapshotView>>
    decreases count,
{
    if count == 0 {
        Ok((found, bytes))
    } else {
        match parse_subscription(bytes, client_id) {
            Err(error) => Err(error),
            Ok((subscription, rest)) => if has_filter(found, subscription.filter) {
                Err("duplicate subscription upsert"@)
            } else {
                parse_subscriptions(
                    (count - 1) as nat,
                    rest,
                    client_id,
                    found.push(subscription),
                )
            },
        }
    }
}

/// Reads some filters, each another.
pub open spec fn parse_filters(count: nat, bytes: Seq<u8>, found: Seq<Seq<char>>) -> Parse<
    Seq<Seq<char>>,
>
    decreases count,
{
    if count == 0 {
        Ok((found, bytes))
    } else {
        match parse_text(bytes) {
            Err(error) => Err(error),
            Ok((filter, rest)) => if found.contains(filter) {
                Err("duplicate subscription delete"@)
            } else {
                parse_filters((count - 1) as nat, rest, found.push(filter))
            },
        }
    }
}

/// Some subscription is both put and removed.
pub open spec fn changes_conflict(
    upserts: Seq<SubscriptionSnapshotView>,
    deletes: Seq<Seq<char>>,
) -> bool {
    exists|i: int| 0 <= i < deletes.len() && has_filter(upserts, #[trigger] deletes[i])
}

/// Reads the subscriptions that a client patch changes.
#[verifier::opaque]
pub open spec fn parse_changes(bytes: Seq<u8>, client_id: Seq<char>) -> Parse<
    (Seq<SubscriptionSnapshotView>, Seq<Seq<char>>),
> {
    match parse_count(bytes) {
        Err(error) => Err(error),
        Ok((count, rest)) => match parse_subscriptions(count, rest, client_id, Seq::empty()) {
            Err(error) => Err(error),
            Ok((upserts, rest)) => match parse_count(rest) {
                Err(error) => Err(error),
                Ok((count, rest)) => match parse_filters(count, rest, Seq::empty()) {
                    Err(error) => Err(error),
                    Ok((deletes, rest)) => if changes_conflict(upserts, deletes) {
                        Err("subscription is both upserted and deleted"@)
                    } else {
                        Ok(((upserts, deletes), rest))
                    },
                },
            },
        },
    }
}

/// Reads a stored publication.
#[verifier::opaque]
pub open spec fn parse_pending(bytes: Seq<u8>) -> Parse<PendingView> {
    match parse_opt_u64(bytes) {
        Err(error) => Err(error),
        Ok((expires_at_ms, rest)) => match parse_block(rest) {
            Err(error) => Err(error),
            Ok((block, rest)) => match exact_publish(block) {
                Some(packet) => Ok((PendingView { packet, expires_at_ms }, rest)),
                None => Err("invalid outbound MQTT packet"@),
            },
        },
    }
}

/// Reads a stored publication of an offline queue: it has no packet identifier.
pub open spec fn parse_offline_pending(bytes: Seq<u8>) -> Parse<PendingView> {
    match parse_pending(bytes) {
        Err(error) => Err(error),
        Ok((pending, rest)) => Ok(
            (
                PendingView {
                    packet: PublishView { packet_id: None, ..pending.packet },
                    ..pending
                },
                rest,
            ),
        ),
    }
}

/// Some publication has the number.
pub open spec fn has_sequence(queue: Seq<QueuedSnapshotView>, sequence: u64) -> bool {
    exists|i: int| 0 <= i < queue.len() && (#[trigger] queue[i]).sequence == sequence
}

/// Reads some publications of an offline queue, each under another number.
pub open spec fn parse_queue(
    count: nat,
    bytes: Seq<u8>,
    found: Seq<QueuedSnapshotView>,
) -> Parse<Seq<QueuedSnapshotView>>
    decreases count,
{
    if count == 0 {
        Ok((found, bytes))
    } else {
        match parse_u64(bytes) {
            Err(error) => Err(error),
            Ok((sequence, rest)) => if has_sequence(found, sequence) {
                Err("duplicate offline sequence"@)
            } else {
                match parse_offline_pending(rest) {
                    Err(error) => Err(error),
                    Ok((pending, rest)) => parse_queue(
                        (count - 1) as nat,
                        rest,
                        found.push(QueuedSnapshotView { sequence, pending }),
                    ),
                }
            },
        }
    }
}

/// Reads the offline queue's changes of a client patch.
#[verifier::opaque]
pub open spec fn parse_offline(bytes: Seq<u8>) -> Parse<(Option<u64>, Seq<QueuedSnapshotView>)> {
    match parse_opt_u64(bytes) {
        Err(error) => Err(error),
        Ok((through, rest)) => match parse_count(rest) {
            Err(error) => Err(error),
            Ok((count, rest)) => match parse_queue(count, rest, Seq::empty()) {
                Err(error) => Err(error),
                Ok((appends, rest)) => Ok(((through, appends), rest)),
            },
        },
    }
}

/// Reads some publications, each under another identifier.
pub open spec fn parse_entries(
    count: nat,
    bytes: Seq<u8>,
    found: Map<u16, PendingView>,
    duplicate: Seq<char>,
) -> Parse<Map<u16, PendingView>>
    decreases count,
{
    if count == 0 {
        Ok((found, bytes))
    } else {
        match parse_u16(bytes) {
            Err(error) => Err(error),
            Ok((id, rest)) => match parse_pending(rest) {
                Err(error) => Err(error),
                Ok((pending, rest)) => if found.dom().contains(id) {
                    Err(duplicate)
                } else {
                    parse_entries((count - 1) as nat, rest, found.insert(id, pending), duplicate)
                },
            },
        }
    }
}

/// Reads a table of publications.
#[verifier::opaque]
pub open spec fn parse_table(bytes: Seq<u8>, duplicate: Seq<char>) -> Parse<
    Map<u16, PendingView>,
> {
    match parse_count(bytes) {
        Err(error) => Err(error),
        Ok((count, rest)) => parse_entries(count, rest, Map::empty(), duplicate),
    }
}

/// Reads some identifiers, each another.
pub open spec fn parse_id_entries(
    count: nat,
    bytes: Seq<u8>,
    found: Map<u16, ()>,
    duplicate: Seq<char>,
) -> Parse<Map<u16, ()>>
    decreases count,
{
    if count == 0 {
        Ok((found, bytes))
    } else {
        match parse_u16(bytes) {
            Err(error) => Err(error),
            Ok((id, rest)) => if found.dom().contains(id) {
                Err(duplicate)
            } else {
                parse_id_entries((count - 1) as nat, rest, found.insert(id, ()), duplicate)
            },
        }
    }
}

/// Reads a set of identifiers.
#[verifier::opaque]
pub open spec fn parse_ids(bytes: Seq<u8>, duplicate: Seq<char>) -> Parse<Map<u16, ()>> {
    match parse_count(bytes) {
        Err(error) => Err(error),
        Ok((count, rest)) => parse_id_entries(count, rest, Map::empty(), duplicate),
    }
}

/// What a table with an identifier twice is called.
pub open spec fn duplicate_identifier() -> Seq<char> {
    "duplicate packet identifier"@
}

/// The outbound tables' changes of a client patch.
pub struct PatchTables {
    pub qos1_upserts: OrderedMap<u16, PendingSnapshot>,
    pub qos1_deletes: IdSet,
    pub qos2_publish_upserts: OrderedMap<u16, PendingSnapshot>,
    pub qos2_publish_deletes: IdSet,
    pub pubrel_add: IdSet,
    pub pubrel_remove: IdSet,
}

/// What a `PatchTables` stands for.
pub struct TablesView {
    pub qos1_upserts: Map<u16, PendingView>,
    pub qos1_deletes: Set<u16>,
    pub qos2_publish_upserts: Map<u16, PendingView>,
    pub qos2_publish_deletes: Set<u16>,
    pub pubrel_add: Set<u16>,
    pub pubrel_remove: Set<u16>,
}

impl DeepView for PatchTables {
    type V = TablesView;

    open spec fn deep_view(&self) -> TablesView {
        TablesView {
            qos1_upserts: self.qos1_upserts.deep_view(),
            qos1_deletes: self.qos1_deletes.deep_view().dom(),
            qos2_publish_upserts: self.qos2_publish_upserts.deep_view(),
            qos2_publish_deletes: self.qos2_publish_deletes.deep_view().dom(),
            pubrel_add: self.pubrel_add.deep_view().dom(),
            pubrel_remove: self.pubrel_remove.deep_view().dom(),
        }
    }
}

impl Value for PatchTables {
    fn dup(&self) -> (copy: Self) {
        PatchTables {
            qos1_upserts: self.qos1_upserts.dup(),
            qos1_deletes: self.qos1_deletes.dup(),
            qos2_publish_upserts: self.qos2_publish_upserts.dup(),
            qos2_publish_deletes: self.qos2_publish_deletes.dup(),
            pubrel_add: self.pubrel_add.dup(),
            pubrel_remove: self.pubrel_remove.dup(),
        }
    }

    fn same(&self, other: &Self) -> (result: bool) {
        proof {
            set_model_injective(self.qos1_deletes.deep_view(), other.qos1_deletes.deep_view());
            set_model_injective(
                self.qos2_publish_deletes.deep_view(),
                other.qos2_publish_deletes.deep_view(),
            );
            set_model_injective(self.pubrel_add.deep_view(), other.pubrel_add.deep_view());
            set_model_injective(self.pubrel_remove.deep_view(), other.pubrel_remove.deep_view());
        }
        self.qos1_upserts.same(&other.qos1_upserts)
            && self.qos1_deletes.same(&other.qos1_deletes)
            && self.qos2_publish_upserts.same(&other.qos2_publish_upserts)
            && self.qos2_publish_deletes.same(&other.qos2_publish_deletes)
            && self.pubrel_add.same(&other.pubrel_add)
            && self.pubrel_remove.same(&other.pubrel_remove)
    }
}

/// Some identifier is both put and removed.
pub open spec fn tables_conflict(tables: TablesView) -> bool {
    ||| !tables.qos1_upserts.dom().disjoint(tables.qos1_deletes)
    ||| !tables.qos2_publish_upserts.dom().disjoint(tables.qos2_publish_deletes)
    ||| !tables.pubrel_add.disjoint(tables.pubrel_remove)
}

/// Reads the outbound tables' changes of a client patch.
#[verifier::opaque]
pub open spec fn parse_tables(bytes: Seq<u8>) -> Parse<TablesView> {
    match parse_table(bytes, duplicate_identifier()) {
        Err(error) => Err(error),
        Ok((qos1_upserts, rest)) => match parse_ids(rest, duplicate_identifier()) {
            Err(error) => Err(error),
            Ok((qos1_deletes, rest)) => match parse_table(rest, duplicate_identifier()) {
                Err(error) => Err(error),
                Ok((qos2_publish_upserts, rest)) => match parse_ids(rest, duplicate_identifier()) {
                    Err(error) => Err(error),
                    Ok((qos2_publish_deletes, rest)) => match parse_ids(
                        rest,
                        duplicate_identifier(),
                    ) {
                        Err(error) => Err(error),
                        Ok((pubrel_add, rest)) => match parse_ids(rest, duplicate_identifier()) {
                            Err(error) => Err(error),
                            Ok((pubrel_remove, rest)) => {
                                let tables = TablesView {
                                    qos1_upserts,
                                    qos1_deletes: qos1_deletes.dom(),
                                    qos2_publish_upserts,
                                    qos2_publish_deletes: qos2_publish_deletes.dom(),
                                    pubrel_add: pubrel_add.dom(),
                                    pubrel_remove: pubrel_remove.dom(),
                                };
                                if tables_conflict(tables) {
                                    Err("client patch has conflicting operations"@)
                                } else {
                                    Ok((tables, rest))
                                }
                            },
                        },
                    },
                },
            },
        },
    }
}

/// Reads the start of a client patch: its version, mode, client and session.
#[verifier::opaque]
pub open spec fn parse_head(bytes: Seq<u8>) -> Parse<
    (u8, ClientPatchMode, Seq<char>, Option<SessionSnapshot>),
> {
    match parse_u8(bytes) {
        Err(error) => Err(error),
        Ok((version, rest)) => if version != CLIENT_PATCH_VERSION {
            Err("unsupported client patch version"@)
        } else {
            match parse_u8(rest) {
                Err(error) => Err(error),
                Ok((mode, rest)) => if mode == 0 || mode > 3 {
                    Err("unknown client patch mode"@)
                } else {
                    match parse_text(rest) {
                        Err(error) => Err(error),
                        Ok((client_id, rest)) => match parse_opt_session(rest) {
                            Err(error) => Err(error),
                            Ok((session, rest)) => Ok(
                                (
                                    (
                                        version,
                                        if mode == 1 {
                                            ClientPatchMode::Merge
                                        } else if mode == 2 {
                                            ClientPatchMode::Reset
                                        } else {
                                            ClientPatchMode::Delete
                                        },
                                        client_id,
                                        session,
                                    ),
                                    rest,
                                ),
                            ),
                        },
                    }
                },
            }
        },
    }
}

/// Reads a client patch, behind its tag. A patch with a defect is refused.
#[verifier::opaque]
pub open spec fn parse_client_patch(bytes: Seq<u8>) -> Parse<ClientPatchView> {
    match parse_head(bytes) {
        Err(error) => Err(error),
        Ok((head, rest)) => match parse_changes(rest, head.2) {
            Err(error) => Err(error),
            Ok((changes, rest)) => match parse_offline(rest) {
                Err(error) => Err(error),
                Ok((offline, rest)) => match parse_tables(rest) {
                    Err(error) => Err(error),
                    Ok((tables, rest)) => {
                        let patch = ClientPatchView {
                            version: head.0,
                            client_id: head.2,
                            mode: head.1,
                            session: head.3,
                            subscription_upserts: changes.0,
                            subscription_deletes: changes.1,
                            offline_remove_through: offline.0,
                            offline_append: offline.1,
                            qos1_upserts: tables.qos1_upserts,
                            qos1_deletes: tables.qos1_deletes,
                            qos2_publish_upserts: tables.qos2_publish_upserts,
                            qos2_publish_deletes: tables.qos2_publish_deletes,
                            pubrel_add: tables.pubrel_add,
                            pubrel_remove: tables.pubrel_remove,
                        };
                        match client_patch_defect(patch) {
                            Some(defect) => Err(defect),
                            None => Ok((patch, rest)),
                        }
                    },
                },
            },
        },
    }
}

/// Reads a stored retained message.
pub open spec fn parse_retained(bytes: Seq<u8>, topic_name: Seq<char>) -> Parse<RetainedView> {
    match parse_opt_u64(bytes) {
        Err(error) => Err(error),
        Ok((expires_at_ms, rest)) => match parse_block(rest) {
            Err(error) => Err(error),
            Ok((block, rest)) => match exact_publish(block) {
                None => Err("invalid retained MQTT packet"@),
                Some(packet) => if packet.topic_name != topic_name {
                    Err("retained patch topic does not match packet"@)
                } else {
                    Ok((packet_retained(packet, expires_at_ms), rest))
                },
            },
        },
    }
}

/// Reads a retained patch, behind its tag.
#[verifier::opaque]
pub open spec fn parse_retained_patch(bytes: Seq<u8>) -> Parse<RetainedPatchView> {
    match parse_text(bytes) {
        Err(error) => Err(error),
        Ok((topic_name, rest)) => match parse_bool(rest) {
            Err(error) => Err(error),
            Ok((false, rest)) => Ok((RetainedPatchView { topic_name, message: None }, rest)),
            Ok((true, rest)) => match parse_retained(rest, topic_name) {
                Err(error) => Err(error),
                Ok((message, rest)) => Ok(
                    (RetainedPatchView { topic_name, message: Some(message) }, rest),
                ),
            },
        },
    }
}

/// Reads a patch, tag first.
pub open spec fn parse_tagged(bytes: Seq<u8>) -> Parse<StoragePatchView> {
    match parse_u8(bytes) {
        Err(error) => Err(error),
        Ok((tag, rest)) => if tag == CLIENT_PATCH {
            match parse_client_patch(rest) {
                Err(error) => Err(error),
                Ok((patch, rest)) => Ok((StoragePatchView::Client(patch), rest)),
            }
        } else if tag == RETAINED_PATCH {
            match parse_retained_patch(rest) {
                Err(error) => Err(error),
                Ok((patch, rest)) => Ok((StoragePatchView::Retained(patch), rest)),
            }
        } else {
            Err("unknown PBIN2 frame tag"@)
        },
    }
}

/// The patch that some bytes hold: all of them, and a patch without defect.
pub open spec fn patch_of(bytes: Seq<u8>) -> Result<StoragePatchView, Seq<char>> {
    match parse_tagged(bytes) {
        Err(error) => Err(error),
        Ok((patch, rest)) => if rest.len() > 0 {
            Err("PBIN record contains trailing bytes"@)
        } else {
            match patch_defect(patch) {
                Some(defect) => Err(defect),
                None => Ok(patch),
            }
        },
    }
}

/// Reads a stored session.
pub(crate) fn decode_session(
    reader: &mut Reader<'_>,
) -> (result: Result<SessionSnapshot, &'static str>)
    requires
        old(reader).inside(),
    ensures
        final(reader).inside(),
        read_as(result, final(reader).rest(), parse_session(old(reader).rest())),
{
    proof {
        reveal(parse_session);
    }
    let session_expiry_interval: u32 = reader.u32()?;
    let expires_at_ms: Option<u64> = reader.opt_u64()?;
    let next_packet_id: u16 = reader.u16()?;
    let next_offline_sequence: u64 = reader.u64()?;
    Ok(
        SessionSnapshot {
            session_expiry_interval,
            expires_at_ms,
            next_packet_id,
            next_offline_sequence,
        },
    )
}

/// Reads a session that may be absent.
pub(crate) fn decode_opt_session(
    reader: &mut Reader<'_>,
) -> (result: Result<Option<SessionSnapshot>, &'static str>)
    requires
        old(reader).inside(),
    ensures
        final(reader).inside(),
        read_as(result, final(reader).rest(), parse_opt_session(old(reader).rest())),
{
    proof {
        reveal(parse_opt_session);
    }
    if reader.bool()? {
        Ok(Some(decode_session(reader)?))
    } else {
        Ok(None)
    }
}

/// Reads a quality of service.
pub(crate) fn decode_qos(reader: &mut Reader<'_>) -> (result: Result<QoS, &'static str>)
    requires
        old(reader).inside(),
    ensures
        final(reader).inside(),
        read_as(result, final(reader).rest(), parse_qos(old(reader).rest())),
{
    let value: u8 = reader.u8()?;
    match qos_from_u8(value) {
        Some(qos) => Ok(qos),
        None => Err("invalid PBIN QoS"),
    }
}

/// Reads the options of a stored subscription.
pub(crate) fn decode_options(
    reader: &mut Reader<'_>,
) -> (result: Result<(QoS, bool, bool, u8), &'static str>)
    requires
        old(reader).inside(),
    ensures
        final(reader).inside(),
        read_as(result, final(reader).rest(), parse_options(old(reader).rest())),
{
    proof {
        reveal(parse_options);
    }
    let maximum_qos: QoS = decode_qos(reader)?;
    let no_local: bool = reader.bool()?;
    let retain_as_published: bool = reader.bool()?;
    let retain_handling: u8 = reader.u8()?;
    Ok((maximum_qos, no_local, retain_as_published, retain_handling))
}

/// Reads a stored subscription of a client.
pub(crate) fn decode_subscription(
    reader: &mut Reader<'_>,
    client_id: &str,
) -> (result: Result<SubscriptionSnapshot, &'static str>)
    requires
        old(reader).inside(),
    ensures
        final(reader).inside(),
        read_as(result, final(reader).rest(), parse_subscription(old(reader).rest(), client_id@)),
{
    proof {
        reveal(parse_subscription);
    }
    let filter: String = reader.string()?;
    let match_filter: String = reader.string()?;
    let shared_group: Option<String> = reader.opt_string()?;
    let options: (QoS, bool, bool, u8) = decode_options(reader)?;
    let subscription_identifier: Option<u32> = reader.opt_u32()?;
    Ok(
        SubscriptionSnapshot {
            client_id: client_id.to_owned(),
            filter,
            match_filter,
            shared_group,
            maximum_qos: options.0,
            no_local: options.1,
            retain_as_published: options.2,
            retain_handling: options.3,
            subscription_identifier,
        },
    )
}

/// The set holds the filters of the subscriptions.
spec fn filters_collected(
    set: Map<Seq<char>, ()>,
    subscriptions: Seq<SubscriptionSnapshotView>,
) -> bool {
    forall|filter: Seq<char>| #[trigger]
        set.dom().contains(filter) <==> has_filter(subscriptions, filter)
}

/// Reads some stored subscriptions of a client, and collects their filters.
fn decode_subscriptions(
    reader: &mut Reader<'_>,
    client_id: &str,
    filters: &mut TextSet,
) -> (result: Result<Vec<SubscriptionSnapshot>, &'static str>)
    requires
        old(reader).inside(),
        old(filters).deep_view() == Map::<Seq<char>, ()>::empty(),
    ensures
        final(reader).inside(),
        read_as(
            result,
            final(reader).rest(),
            match parse_count(old(reader).rest()) {
                Err(error) => Err(error),
                Ok((count, rest)) => parse_subscriptions(count, rest, client_id@, Seq::empty()),
            },
        ),
        result matches Ok(found) ==> filters_collected(
            final(filters).deep_view(),
            found.deep_view(),
        ),
{
    let count: usize = reader.count()?;
    let mut found: Vec<SubscriptionSnapshot> = Vec::new();
    let ghost start = reader.rest();
    let mut left: usize = count;
    assert(found.deep_view() =~= Seq::<SubscriptionSnapshotView>::empty());
    while left > 0
        invariant
            reader.inside(),
            parse_subscriptions(count as nat, start, client_id@, Seq::empty())
                == parse_subscriptions(
                left as nat,
                reader.rest(),
                client_id@,
                found.deep_view(),
            ),
            parse_count(old(reader).rest()) == Ok::<(nat, Seq<u8>), Seq<char>>(
                (count as nat, start),
            ),
            filters_collected(filters.deep_view(), found.deep_view()),
        decreases left,
    {
        let subscription: SubscriptionSnapshot = decode_subscription(reader, client_id)?;
        let ghost before = found.deep_view();
        let ghost collected = filters.deep_view();
        let ghost view = subscription.deep_view();
        if filters.insert(subscription.filter.dup(), ()).is_some() {
            assert(collected.dom().contains(view.filter));
            return Err("duplicate subscription upsert");
        }
        found.push(subscription);
        proof {
            assert(!collected.dom().contains(view.filter));
            let after = before.push(view);
            assert(found.deep_view() =~= after);
            assert forall|filter: Seq<char>| #[trigger]
                filters.deep_view().dom().contains(filter) <==> has_filter(after, filter) by {
                if has_filter(before, filter) {
                    assert(collected.dom().contains(filter));
                    let i = choose|i: int|
                        0 <= i < before.len() && (#[trigger] before[i]).filter == filter;
                    assert(after[i].filter == filter);
                }
                if has_filter(after, filter) {
                    let i = choose|i: int|
                        0 <= i < after.len() && (#[trigger] after[i]).filter == filter;
                    if i < before.len() {
                        assert(before[i].filter == filter);
                        assert(collected.dom().contains(filter));
                    }
                }
                assert(after[before.len() as int].filter == view.filter);
            }
        }
        left = left - 1;
    }
    Ok(found)
}

/// Reads some filters, and collects them.
fn decode_filters(reader: &mut Reader<'_>, filters: &mut TextSet) -> (result: Result<
    Vec<String>,
    &'static str,
>)
    requires
        old(reader).inside(),
        old(filters).deep_view() == Map::<Seq<char>, ()>::empty(),
    ensures
        final(reader).inside(),
        read_as(
            result,
            final(reader).rest(),
            match parse_count(old(reader).rest()) {
                Err(error) => Err(error),
                Ok((count, rest)) => parse_filters(count, rest, Seq::empty()),
            },
        ),
        result matches Ok(found) ==> forall|filter: Seq<char>| #[trigger]
            final(filters).deep_view().dom().contains(filter) <==> found.deep_view().contains(
                filter,
            ),
{
    let count: usize = reader.count()?;
    let mut found: Vec<String> = Vec::new();
    let ghost start = reader.rest();
    let mut left: usize = count;
    assert(found.deep_view() =~= Seq::<Seq<char>>::empty());
    while left > 0
        invariant
            reader.inside(),
            parse_filters(count as nat, start, Seq::empty()) == parse_filters(
                left as nat,
                reader.rest(),
                found.deep_view(),
            ),
            parse_count(old(reader).rest()) == Ok::<(nat, Seq<u8>), Seq<char>>(
                (count as nat, start),
            ),
            forall|filter: Seq<char>| #[trigger]
                filters.deep_view().dom().contains(filter) <==> found.deep_view().contains(filter),
        decreases left,
    {
        let filter: String = reader.string()?;
        let ghost before = found.deep_view();
        let ghost collected = filters.deep_view();
        let ghost view = filter@;
        if filters.insert(filter.dup(), ()).is_some() {
            assert(collected.dom().contains(view));
            return Err("duplicate subscription delete");
        }
        found.push(filter);
        proof {
            assert(!collected.dom().contains(view));
            let after = before.push(view);
            assert(found.deep_view() =~= after);
            assert forall|filter: Seq<char>| #[trigger]
                filters.deep_view().dom().contains(filter) <==> after.contains(filter) by {
                if before.contains(filter) {
                    assert(collected.dom().contains(filter));
                    let i = before.index_of(filter);
                    assert(after[i] == filter);
                }
                if after.contains(filter) {
                    let i = after.index_of(filter);
                    if i < before.len() {
                        assert(before[i] == filter);
                        assert(collected.dom().contains(filter));
                    }
                }
                assert(after[before.len() as int] == view);
            }
        }
        left = left - 1;
    }
    Ok(found)
}

/// Reads the subscriptions that a client patch changes.
fn decode_changes(
    reader: &mut Reader<'_>,
    client_id: &str,
) -> (result: Result<(Vec<SubscriptionSnapshot>, Vec<String>), &'static str>)
    requires
        old(reader).inside(),
    ensures
        final(reader).inside(),
        read_as(result, final(reader).rest(), parse_changes(old(reader).rest(), client_id@)),
{
    proof {
        reveal(parse_changes);
    }
    let mut upserted: TextSet = TextSet::new();
    let upserts: Vec<SubscriptionSnapshot> = decode_subscriptions(
        reader,
        client_id,
        &mut upserted,
    )?;
    let mut deleted: TextSet = TextSet::new();
    let deletes: Vec<String> = decode_filters(reader, &mut deleted)?;
    let meet: bool = keys_meet(&upserted, &deleted);
    proof {
        let puts = upserts.deep_view();
        let gone = deletes.deep_view();
        if meet {
            let filter = choose|filter: Seq<char>|
                upserted.deep_view().dom().contains(filter) && deleted.deep_view().dom().contains(
                    filter,
                );
            assert(gone.contains(filter));
            assert(has_filter(puts, gone[gone.index_of(filter)]));
        } else if changes_conflict(puts, gone) {
            let i = choose|i: int| 0 <= i < gone.len() && has_filter(puts, #[trigger] gone[i]);
            assert(gone.contains(gone[i]));
            assert(upserted.deep_view().dom().contains(gone[i]));
            assert(deleted.deep_view().dom().contains(gone[i]));
        }
    }
    if meet {
        return Err("subscription is both upserted and deleted");
    }
    Ok((upserts, deletes))
}

/// Reads a stored publication.
pub(crate) fn decode_pending(
    reader: &mut Reader<'_>,
) -> (result: Result<PendingSnapshot, &'static str>)
    requires
        old(reader).inside(),
    ensures
        final(reader).inside(),
        read_as(result, final(reader).rest(), parse_pending(old(reader).rest())),
{
    proof {
        reveal(parse_pending);
    }
    let expires_at_ms: Option<u64> = reader.opt_u64()?;
    let block: &[u8] = reader.block()?;
    match decode_publish(block) {
        Some(packet) => Ok(PendingPublish { packet, expires_at_ms }),
        None => Err("invalid outbound MQTT packet"),
    }
}

/// Reads a stored publication of an offline queue.
pub(crate) fn decode_offline_pending(
    reader: &mut Reader<'_>,
) -> (result: Result<PendingSnapshot, &'static str>)
    requires
        old(reader).inside(),
    ensures
        final(reader).inside(),
        read_as(result, final(reader).rest(), parse_offline_pending(old(reader).rest())),
{
    let mut pending: PendingSnapshot = decode_pending(reader)?;
    pending.packet.packet_id = None;
    Ok(pending)
}

/// Reads the publications that are appended to an offline queue.
fn decode_queue(reader: &mut Reader<'_>) -> (result: Result<Vec<QueuedSnapshot>, &'static str>)
    requires
        old(reader).inside(),
    ensures
        final(reader).inside(),
        read_as(result, final(reader).rest(), match parse_count(old(reader).rest()) {
            Err(error) => Err(error),
            Ok((count, rest)) => parse_queue(count, rest, Seq::empty()),
        }),
{
    let count: usize = reader.count()?;
    let mut found: Vec<QueuedSnapshot> = Vec::new();
    let mut numbers: OrderedMap<u64, ()> = OrderedMap::new();
    let ghost start = reader.rest();
    let mut left: usize = count;
    assert(found.deep_view() =~= Seq::<QueuedSnapshotView>::empty());
    while left > 0
        invariant
            reader.inside(),
            parse_queue(count as nat, start, Seq::empty()) == parse_queue(
                left as nat,
                reader.rest(),
                found.deep_view(),
            ),
            parse_count(old(reader).rest()) == Ok::<(nat, Seq<u8>), Seq<char>>(
                (count as nat, start),
            ),
            forall|sequence: u64| #[trigger]
                numbers.deep_view().dom().contains(sequence) <==> has_sequence(
                    found.deep_view(),
                    sequence,
                ),
        decreases left,
    {
        let sequence: u64 = reader.u64()?;
        let ghost before = found.deep_view();
        let ghost collected = numbers.deep_view();
        if numbers.insert(sequence, ()).is_some() {
            assert(collected.dom().contains(sequence));
            return Err("duplicate offline sequence");
        }
        assert(!collected.dom().contains(sequence));
        let pending: PendingSnapshot = decode_offline_pending(reader)?;
        let ghost view = QueuedSnapshotView { sequence, pending: pending.deep_view() };
        found.push(QueuedSnapshot { sequence, pending });
        proof {
            let after = before.push(view);
            assert(found.deep_view() =~= after);
            assert forall|number: u64| #[trigger]
                numbers.deep_view().dom().contains(number) <==> has_sequence(after, number) by {
                if has_sequence(before, number) {
                    assert(collected.dom().contains(number));
                    let i = choose|i: int|
                        0 <= i < before.len() && (#[trigger] before[i]).sequence == number;
                    assert(after[i].sequence == number);
                }
                if has_sequence(after, number) {
                    let i = choose|i: int|
                        0 <= i < after.len() && (#[trigger] after[i]).sequence == number;
                    if i < before.len() {
                        assert(before[i].sequence == number);
                        assert(collected.dom().contains(number));
                    }
                }
                assert(after[before.len() as int].sequence == sequence);
            }
        }
        left = left - 1;
    }
    Ok(found)
}

/// Reads a table of publications.
pub(crate) fn decode_pending_map(
    reader: &mut Reader<'_>,
    duplicate: &'static str,
) -> (result: Result<OrderedMap<u16, PendingSnapshot>, &'static str>)
    requires
        old(reader).inside(),
    ensures
        final(reader).inside(),
        read_as(result, final(reader).rest(), parse_table(old(reader).rest(), duplicate@)),
{
    proof {
        reveal(parse_table);
    }
    let count: usize = reader.count()?;
    let mut found: OrderedMap<u16, PendingSnapshot> = OrderedMap::new();
    let mut left: usize = count;
    while left > 0
        invariant
            reader.inside(),
            parse_table(old(reader).rest(), duplicate@) == parse_entries(
                left as nat,
                reader.rest(),
                found.deep_view(),
                duplicate@,
            ),
        decreases left,
    {
        let id: u16 = reader.u16()?;
        let pending: PendingSnapshot = decode_pending(reader)?;
        if found.insert(id, pending).is_some() {
            return Err(duplicate);
        }
        left = left - 1;
    }
    Ok(found)
}

/// Reads a set of identifiers.
pub(crate) fn decode_u16_set(
    reader: &mut Reader<'_>,
    duplicate: &'static str,
) -> (result: Result<IdSet, &'static str>)
    requires
        old(reader).inside(),
    ensures
        final(reader).inside(),
        read_as(result, final(reader).rest(), parse_ids(old(reader).rest(), duplicate@)),
{
    proof {
        reveal(parse_ids);
    }
    let count: usize = reader.count()?;
    let mut found: IdSet = OrderedMap::new();
    let mut left: usize = count;
    while left > 0
        invariant
            reader.inside(),
            parse_ids(old(reader).rest(), duplicate@) == parse_id_entries(
                left as nat,
                reader.rest(),
                found.deep_view(),
                duplicate@,
            ),
        decreases left,
    {
        let id: u16 = reader.u16()?;
        if found.insert(id, ()).is_some() {
            return Err(duplicate);
        }
        left = left - 1;
    }
    Ok(found)
}

/// Reads the outbound tables' changes of a client patch.
fn decode_tables(reader: &mut Reader<'_>) -> (result: Result<PatchTables, &'static str>)
    requires
        old(reader).inside(),
    ensures
        final(reader).inside(),
        read_as(result, final(reader).rest(), parse_tables(old(reader).rest())),
{
    proof {
        reveal(parse_tables);
    }
    let duplicate: &'static str = "duplicate packet identifier";
    let qos1_upserts: OrderedMap<u16, PendingSnapshot> = decode_pending_map(reader, duplicate)?;
    let qos1_deletes: IdSet = decode_u16_set(reader, duplicate)?;
    let qos2_publish_upserts: OrderedMap<u16, PendingSnapshot> = decode_pending_map(
        reader,
        duplicate,
    )?;
    let qos2_publish_deletes: IdSet = decode_u16_set(reader, duplicate)?;
    let pubrel_add: IdSet = decode_u16_set(reader, duplicate)?;
    let pubrel_remove: IdSet = decode_u16_set(reader, duplicate)?;
    if keys_meet(&qos1_upserts, &qos1_deletes) || keys_meet(
        &qos2_publish_upserts,
        &qos2_publish_deletes,
    ) || keys_meet(&pubrel_add, &pubrel_remove) {
        return Err("client patch has conflicting operations");
    }
    Ok(
        PatchTables {
            qos1_upserts,
            qos1_deletes,
            qos2_publish_upserts,
            qos2_publish_deletes,
            pubrel_add,
            pubrel_remove,
        },
    )
}

/// Reads the start of a client patch.
fn decode_head(
    reader: &mut Reader<'_>,
) -> (result: Result<(u8, ClientPatchMode, String, Option<SessionSnapshot>), &'static str>)
    requires
        old(reader).inside(),
    ensures
        final(reader).inside(),
        read_as(result, final(reader).rest(), parse_head(old(reader).rest())),
{
    proof {
        reveal(parse_head);
    }
    let version: u8 = reader.u8()?;
    if version != CLIENT_PATCH_VERSION {
        return Err("unsupported client patch version");
    }
    let mode_byte: u8 = reader.u8()?;
    let mode: ClientPatchMode = match mode_byte {
        1 => ClientPatchMode::Merge,
        2 => ClientPatchMode::Reset,
        3 => ClientPatchMode::Delete,
        _ => return Err("unknown client patch mode"),
    };
    let client_id: String = reader.string()?;
    let session: Option<SessionSnapshot> = decode_opt_session(reader)?;
    Ok((version, mode, client_id, session))
}

/// Reads a client patch, behind its tag.
fn decode_client_patch(reader: &mut Reader<'_>) -> (result: Result<ClientPatch, &'static str>)
    requires
        old(reader).inside(),
    ensures
        final(reader).inside(),
        read_as(result, final(reader).rest(), parse_client_patch(old(reader).rest())),
{
    proof {
        reveal(parse_client_patch);
        reveal(parse_offline);
    }
    let head: (u8, ClientPatchMode, String, Option<SessionSnapshot>) = decode_head(reader)?;
    let changes: (Vec<SubscriptionSnapshot>, Vec<String>) = decode_changes(
        reader,
        head.2.as_str(),
    )?;
    let offline_remove_through: Option<u64> = reader.opt_u64()?;
    let offline_append: Vec<QueuedSnapshot> = decode_queue(reader)?;
    let tables: PatchTables = decode_tables(reader)?;
    let patch: ClientPatch = ClientPatch {
        version: head.0,
        client_id: head.2,
        mode: head.1,
        session: head.3,
        subscription_upserts: changes.0,
        subscription_deletes: changes.1,
        offline_remove_through,
        offline_append,
        qos1_upserts: tables.qos1_upserts,
        qos1_deletes: tables.qos1_deletes,
        qos2_publish_upserts: tables.qos2_publish_upserts,
        qos2_publish_deletes: tables.qos2_publish_deletes,
        pubrel_add: tables.pubrel_add,
        pubrel_remove: tables.pubrel_remove,
    };
    match patch.validate() {
        Ok(()) => Ok(patch),
        Err(defect) => Err(defect),
    }
}

/// Reads a retained patch, behind its tag.
fn decode_retained_patch(reader: &mut Reader<'_>) -> (result: Result<RetainedPatch, &'static str>)
    requires
        old(reader).inside(),
    ensures
        final(reader).inside(),
        read_as(result, final(reader).rest(), parse_retained_patch(old(reader).rest())),
{
    proof {
        reveal(parse_retained_patch);
    }
    let topic_name: String = reader.string()?;
    if !reader.bool()? {
        return Ok(RetainedPatch { topic_name, message: None });
    }
    let expires_at_ms: Option<u64> = reader.opt_u64()?;
    let block: &[u8] = reader.block()?;
    let mut message: RetainedMessage = match decode_retained(block) {
        Some(message) => message,
        None => return Err("invalid retained MQTT packet"),
    };
    if !message.topic_name.same(&topic_name) {
        return Err("retained patch topic does not match packet");
    }
    message.expires_at_ms = expires_at_ms;
    Ok(RetainedPatch { topic_name, message: Some(message) })
}

/// The patch that some bytes hold.
pub fn decode_patch(payload: &[u8]) -> (result: Result<StoragePatch, &'static str>)
    ensures
        match result {
            Ok(patch) => patch_of(payload@) == Ok::<StoragePatchView, Seq<char>>(
                patch.deep_view(),
            ),
            Err(message) => patch_of(payload@) == Err::<StoragePatchView, Seq<char>>(message@),
        },
{
    let mut reader: Reader<'_> = Reader::new(payload);
    let tag: u8 = reader.u8()?;
    let patch: StoragePatch = if tag == CLIENT_PATCH {
        StoragePatch::Client(decode_client_patch(&mut reader)?)
    } else if tag == RETAINED_PATCH {
        StoragePatch::Retained(decode_retained_patch(&mut reader)?)
    } else {
        return Err("unknown PBIN2 frame tag");
    };
    reader.finish()?;
    match patch.validate() {
        Ok(()) => Ok(patch),
        Err(defect) => Err(defect),
    }
}

} // verus!
