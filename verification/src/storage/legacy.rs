//! Logs in the first binary format: whole records instead of patches.
use std::collections::VecDeque;
use vstd::prelude::*;

use crate::message::PendingView;
use crate::mqtt_codec::exact_publish;
use crate::ordered_map::IdSet;
use crate::ordered_map::OrderedMap;
use crate::retained_message::RetainedMessage;
use crate::retained_message::RetainedView;
use crate::session::QueuedPublish;
use crate::session::SessionEntry;
use crate::session::SessionView;
use crate::session::new_session;
use crate::storage::bytes::Parse;
use crate::storage::bytes::Reader;
use crate::storage::bytes::parse_block;
use crate::storage::bytes::parse_count;
use crate::storage::bytes::parse_opt_u64;
use crate::storage::bytes::parse_text;
use crate::storage::bytes::parse_u16;
use crate::storage::bytes::parse_u32;
use crate::storage::bytes::parse_u8;
use crate::storage::bytes::read_as;
use crate::storage::delta::lookup;
use crate::storage::frames::FrameRead;
use crate::storage::frames::FrameView;
use crate::storage::frames::ReplayMode;
use crate::storage::frames::crc32;
use crate::storage::frames::crc32_of;
use crate::storage::frames::parse_frame;
use crate::storage::frames::parse_header;
use crate::storage::frames::read_frame;
use crate::storage::frames::read_header;
use crate::storage::frames::reported;
use crate::storage::offline_state::OfflineState;
use crate::storage::offline_state::OfflineView;
use crate::storage::offline_state::nobody_known;
use crate::storage::patch_codec::decode_retained;
use crate::storage::patch_codec::packet_retained;
use crate::storage::patch_decode::decode_offline_pending;
use crate::storage::patch_decode::decode_pending_map;
use crate::storage::patch_decode::decode_subscription;
use crate::storage::patch_decode::decode_u16_set;
use crate::storage::patch_decode::parse_ids;
use crate::storage::patch_decode::parse_offline_pending;
use crate::storage::patch_decode::parse_subscription;
use crate::storage::patch_decode::parse_table;
use crate::storage::projection::restored_subscription;
use crate::storage::snapshot::PendingSnapshot;
use crate::storage::snapshot::QueuedSnapshot;
use crate::storage::snapshot::QueuedSnapshotView;
use crate::storage::snapshot::SessionSnapshot;
use crate::storage::snapshot::SubscriptionSnapshot;
use crate::storage::snapshot::SubscriptionSnapshotView;
use crate::subscription::SubscriptionEntry;
use crate::subscription::find_subscription;
use crate::subscription::remove_client_subscriptions;
use crate::subscription::remove_held_subscriptions;
use crate::subscription::subscription_position;
use crate::subscription::subscription_position_is_first;
use crate::subscription::without_client;
use crate::subscription::without_held;
use crate::value::Value;

verus! {

/// How a log in the first format starts.
pub const V1_MAGIC: [u8; 6] = [0x50, 0x42, 0x49, 0x4e, 0x31, 0x0a];

pub const V1_SESSION_UPSERT: u8 = 1;
pub const V1_SESSION_DELETE: u8 = 2;
pub const V1_SUBSCRIPTION_UPSERT: u8 = 3;
pub const V1_SUBSCRIPTION_DELETE: u8 = 4;
pub const V1_RETAINED_UPSERT: u8 = 5;
pub const V1_RETAINED_DELETE: u8 = 6;
pub const V1_OFFLINE_REPLACE: u8 = 7;
pub const V1_OUTBOUND_REPLACE: u8 = 8;

/// The publications that a client has not acknowledged.
pub struct V1Outbound {
    pub qos1: OrderedMap<u16, PendingSnapshot>,
    pub qos2_publish: OrderedMap<u16, PendingSnapshot>,
    pub qos2_pubrel: IdSet,
}

/// What a `V1Outbound` stands for.
pub struct V1OutboundView {
    pub qos1: Map<u16, PendingView>,
    pub qos2_publish: Map<u16, PendingView>,
    pub qos2_pubrel: Set<u16>,
}

impl DeepView for V1Outbound {
    type V = V1OutboundView;

    open spec fn deep_view(&self) -> V1OutboundView {
        V1OutboundView {
            qos1: self.qos1.deep_view(),
            qos2_publish: self.qos2_publish.deep_view(),
            qos2_pubrel: self.qos2_pubrel.deep_view().dom(),
        }
    }
}

/// A record.
pub enum V1Record {
    SessionUpsert { client_id: String, session: SessionSnapshot },
    SessionDelete { client_id: String },
    SubscriptionUpsert(SubscriptionSnapshot),
    SubscriptionDelete { client_id: String, filter: String },
    RetainedUpsert { topic_name: String, message: RetainedMessage },
    RetainedDelete { topic_name: String },
    OfflineReplace { client_id: String, queue: Vec<PendingSnapshot> },
    OutboundReplace { client_id: String, outbound: V1Outbound },
}

/// What a `V1Record` stands for.
pub enum V1RecordView {
    SessionUpsert { client_id: Seq<char>, session: SessionSnapshot },
    SessionDelete { client_id: Seq<char> },
    SubscriptionUpsert(SubscriptionSnapshotView),
    SubscriptionDelete { client_id: Seq<char>, filter: Seq<char> },
    RetainedUpsert { topic_name: Seq<char>, message: RetainedView },
    RetainedDelete { topic_name: Seq<char> },
    OfflineReplace { client_id: Seq<char>, queue: Seq<PendingView> },
    OutboundReplace { client_id: Seq<char>, outbound: V1OutboundView },
}

impl DeepView for V1Record {
    type V = V1RecordView;

    open spec fn deep_view(&self) -> V1RecordView {
        match *self {
            V1Record::SessionUpsert { client_id, session } => V1RecordView::SessionUpsert {
                client_id: client_id@,
                session,
            },
            V1Record::SessionDelete { client_id } => V1RecordView::SessionDelete {
                client_id: client_id@,
            },
            V1Record::SubscriptionUpsert(subscription) => V1RecordView::SubscriptionUpsert(
                subscription.deep_view(),
            ),
            V1Record::SubscriptionDelete { client_id, filter } => {
                V1RecordView::SubscriptionDelete { client_id: client_id@, filter: filter@ }
            },
            V1Record::RetainedUpsert { topic_name, message } => V1RecordView::RetainedUpsert {
                topic_name: topic_name@,
                message: message.deep_view(),
            },
            V1Record::RetainedDelete { topic_name } => V1RecordView::RetainedDelete {
                topic_name: topic_name@,
            },
            V1Record::OfflineReplace { client_id, queue } => V1RecordView::OfflineReplace {
                client_id: client_id@,
                queue: queue.deep_view(),
            },
            V1Record::OutboundReplace { client_id, outbound } => V1RecordView::OutboundReplace {
                client_id: client_id@,
                outbound: outbound.deep_view(),
            },
        }
    }
}

/// Reads a session that is put.
#[verifier::opaque]
pub open spec fn parse_v1_session(bytes: Seq<u8>) -> Parse<SessionSnapshot> {
    match parse_u32(bytes) {
        Err(error) => Err(error),
        Ok((session_expiry_interval, rest)) => match parse_opt_u64(rest) {
            Err(error) => Err(error),
            Ok((expires_at_ms, rest)) => match parse_u16(rest) {
                Err(error) => Err(error),
                Ok((next_packet_id, rest)) => Ok(
                    (
                        SessionSnapshot {
                            session_expiry_interval,
                            expires_at_ms,
                            next_packet_id,
                            next_offline_sequence: 0,
                        },
                        rest,
                    ),
                ),
            },
        },
    }
}

/// Reads a retained message.
#[verifier::opaque]
pub open spec fn parse_v1_retained(bytes: Seq<u8>) -> Parse<RetainedView> {
    match parse_opt_u64(bytes) {
        Err(error) => Err(error),
        Ok((expires_at_ms, rest)) => match parse_block(rest) {
            Err(error) => Err(error),
            Ok((block, rest)) => match exact_publish(block) {
                Some(publish) => Ok((packet_retained(publish, expires_at_ms), rest)),
                None => Err("invalid PBIN1 retained packet"@),
            },
        },
    }
}

/// Reads some publications of an offline queue.
pub open spec fn parse_v1_pendings(count: nat, bytes: Seq<u8>, found: Seq<PendingView>) -> Parse<
    Seq<PendingView>,
>
    decreases count,
{
    if count == 0 {
        Ok((found, bytes))
    } else {
        match parse_offline_pending(bytes) {
            Err(error) => Err(error),
            Ok((pending, rest)) => parse_v1_pendings(
                (count - 1) as nat,
                rest,
                found.push(pending),
            ),
        }
    }
}

/// Reads an offline queue.
#[verifier::opaque]
pub open spec fn parse_v1_queue(bytes: Seq<u8>) -> Parse<Seq<PendingView>> {
    match parse_count(bytes) {
        Err(error) => Err(error),
        Ok((count, rest)) => parse_v1_pendings(count, rest, Seq::empty()),
    }
}

/// Reads the publications that a client has not acknowledged.
#[verifier::opaque]
pub open spec fn parse_v1_outbound(bytes: Seq<u8>) -> Parse<V1OutboundView> {
    match parse_table(bytes, "duplicate PBIN1 QoS1 packet identifier"@) {
        Err(error) => Err(error),
        Ok((qos1, rest)) => match parse_table(
            rest,
            "duplicate PBIN1 QoS2 packet identifier"@,
        ) {
            Err(error) => Err(error),
            Ok((qos2_publish, rest)) => match parse_ids(
                rest,
                "duplicate PBIN1 PUBREL packet identifier"@,
            ) {
                Err(error) => Err(error),
                Ok((released, rest)) => Ok(
                    (V1OutboundView { qos1, qos2_publish, qos2_pubrel: released.dom() }, rest),
                ),
            },
        },
    }
}

/// Reads what is behind a record's tag and its first text.
pub open spec fn parse_v1_body(tag: u8, name: Seq<char>, bytes: Seq<u8>) -> Parse<V1RecordView> {
    if tag == V1_SESSION_UPSERT {
        match parse_v1_session(bytes) {
            Err(error) => Err(error),
            Ok((session, rest)) => Ok(
                (V1RecordView::SessionUpsert { client_id: name, session }, rest),
            ),
        }
    } else if tag == V1_SESSION_DELETE {
        Ok((V1RecordView::SessionDelete { client_id: name }, bytes))
    } else if tag == V1_SUBSCRIPTION_UPSERT {
        match parse_subscription(bytes, name) {
            Err(error) => Err(error),
            Ok((subscription, rest)) => Ok(
                (V1RecordView::SubscriptionUpsert(subscription), rest),
            ),
        }
    } else if tag == V1_SUBSCRIPTION_DELETE {
        match parse_text(bytes) {
            Err(error) => Err(error),
            Ok((filter, rest)) => Ok(
                (V1RecordView::SubscriptionDelete { client_id: name, filter }, rest),
            ),
        }
    } else if tag == V1_RETAINED_UPSERT {
        match parse_v1_retained(bytes) {
            Err(error) => Err(error),
            Ok((message, rest)) => Ok(
                (V1RecordView::RetainedUpsert { topic_name: name, message }, rest),
            ),
        }
    } else if tag == V1_RETAINED_DELETE {
        Ok((V1RecordView::RetainedDelete { topic_name: name }, bytes))
    } else if tag == V1_OFFLINE_REPLACE {
        match parse_v1_queue(bytes) {
            Err(error) => Err(error),
            Ok((queue, rest)) => Ok(
                (V1RecordView::OfflineReplace { client_id: name, queue }, rest),
            ),
        }
    } else {
        match parse_v1_outbound(bytes) {
            Err(error) => Err(error),
            Ok((outbound, rest)) => Ok(
                (V1RecordView::OutboundReplace { client_id: name, outbound }, rest),
            ),
        }
    }
}

/// The record that some bytes hold: all of them.
pub open spec fn v1_record_of(bytes: Seq<u8>) -> Result<V1RecordView, Seq<char>> {
    match parse_u8(bytes) {
        Err(error) => Err(error),
        Ok((tag, rest)) => if tag < V1_SESSION_UPSERT || tag > V1_OUTBOUND_REPLACE {
            Err("unknown PBIN1 record tag"@)
        } else {
            match parse_text(rest) {
                Err(error) => Err(error),
                Ok((name, rest)) => match parse_v1_body(tag, name, rest) {
                    Err(error) => Err(error),
                    Ok((record, rest)) => if rest.len() > 0 {
                        Err("PBIN record contains trailing bytes"@)
                    } else {
                        Ok(record)
                    },
                },
            }
        },
    }
}

fn decode_v1_session(reader: &mut Reader<'_>) -> (result: Result<SessionSnapshot, &'static str>)
    requires
        old(reader).inside(),
    ensures
        final(reader).inside(),
        read_as(result, final(reader).rest(), parse_v1_session(old(reader).rest())),
{
    proof {
        reveal(parse_v1_session);
    }
    let session_expiry_interval: u32 = reader.u32()?;
    let expires_at_ms: Option<u64> = reader.opt_u64()?;
    let next_packet_id: u16 = reader.u16()?;
    Ok(
        SessionSnapshot {
            session_expiry_interval,
            expires_at_ms,
            next_packet_id,
            next_offline_sequence: 0,
        },
    )
}

fn decode_v1_retained(reader: &mut Reader<'_>) -> (result: Result<RetainedMessage, &'static str>)
    requires
        old(reader).inside(),
    ensures
        final(reader).inside(),
        read_as(result, final(reader).rest(), parse_v1_retained(old(reader).rest())),
{
    proof {
        reveal(parse_v1_retained);
    }
    let expires_at_ms: Option<u64> = reader.opt_u64()?;
    let block: &[u8] = reader.block()?;
    let mut message: RetainedMessage = match decode_retained(block) {
        Some(message) => message,
        None => return Err("invalid PBIN1 retained packet"),
    };
    message.expires_at_ms = expires_at_ms;
    Ok(message)
}

fn decode_v1_queue(reader: &mut Reader<'_>) -> (result: Result<
    Vec<PendingSnapshot>,
    &'static str,
>)
    requires
        old(reader).inside(),
    ensures
        final(reader).inside(),
        read_as(result, final(reader).rest(), parse_v1_queue(old(reader).rest())),
{
    proof {
        reveal(parse_v1_queue);
    }
    let count: usize = reader.count()?;
    let mut found: Vec<PendingSnapshot> = Vec::new();
    let mut left: usize = count;
    assert(found.deep_view() =~= Seq::<PendingView>::empty());
    while left > 0
        invariant
            reader.inside(),
            parse_v1_queue(old(reader).rest()) == parse_v1_pendings(
                left as nat,
                reader.rest(),
                found.deep_view(),
            ),
        decreases left,
    {
        let ghost before = found.deep_view();
        let pending: PendingSnapshot = decode_offline_pending(reader)?;
        let ghost view = pending.deep_view();
        found.push(pending);
        assert(found.deep_view() =~= before.push(view));
        left = left - 1;
    }
    Ok(found)
}

fn decode_v1_outbound(reader: &mut Reader<'_>) -> (result: Result<V1Outbound, &'static str>)
    requires
        old(reader).inside(),
    ensures
        final(reader).inside(),
        read_as(result, final(reader).rest(), parse_v1_outbound(old(reader).rest())),
{
    proof {
        reveal(parse_v1_outbound);
    }
    let qos1: OrderedMap<u16, PendingSnapshot> = decode_pending_map(
        reader,
        "duplicate PBIN1 QoS1 packet identifier",
    )?;
    let qos2_publish: OrderedMap<u16, PendingSnapshot> = decode_pending_map(
        reader,
        "duplicate PBIN1 QoS2 packet identifier",
    )?;
    let qos2_pubrel: IdSet = decode_u16_set(reader, "duplicate PBIN1 PUBREL packet identifier")?;
    Ok(V1Outbound { qos1, qos2_publish, qos2_pubrel })
}

fn decode_v1_body(reader: &mut Reader<'_>, tag: u8, name: String) -> (result: Result<
    V1Record,
    &'static str,
>)
    requires
        old(reader).inside(),
        V1_SESSION_UPSERT <= tag <= V1_OUTBOUND_REPLACE,
    ensures
        final(reader).inside(),
        read_as(result, final(reader).rest(), parse_v1_body(tag, name@, old(reader).rest())),
{
    Ok(
        match tag {
            1 => V1Record::SessionUpsert { client_id: name, session: decode_v1_session(reader)? },
            2 => V1Record::SessionDelete { client_id: name },
            3 => V1Record::SubscriptionUpsert(decode_subscription(reader, name.as_str())?),
            4 => V1Record::SubscriptionDelete { client_id: name, filter: reader.string()? },
            5 => V1Record::RetainedUpsert {
                topic_name: name,
                message: decode_v1_retained(reader)?,
            },
            6 => V1Record::RetainedDelete { topic_name: name },
            7 => V1Record::OfflineReplace { client_id: name, queue: decode_v1_queue(reader)? },
            _ => V1Record::OutboundReplace {
                client_id: name,
                outbound: decode_v1_outbound(reader)?,
            },
        },
    )
}

/// The record that some bytes hold.
pub fn decode_v1_record(payload: &[u8]) -> (result: Result<V1Record, &'static str>)
    ensures
        match result {
            Ok(record) => v1_record_of(payload@) == Ok::<V1RecordView, Seq<char>>(
                record.deep_view(),
            ),
            Err(message) => v1_record_of(payload@) == Err::<V1RecordView, Seq<char>>(message@),
        },
{
    let mut reader: Reader<'_> = Reader::new(payload);
    let tag: u8 = reader.u8()?;
    if tag < V1_SESSION_UPSERT || tag > V1_OUTBOUND_REPLACE {
        return Err("unknown PBIN1 record tag");
    }
    let name: String = reader.string()?;
    let record: V1Record = decode_v1_body(&mut reader, tag, name)?;
    reader.finish()?;
    Ok(record)
}

/// A queue numbered from zero.
pub open spec fn numbered(queue: Seq<PendingView>) -> Seq<QueuedSnapshotView> {
    Seq::new(
        queue.len(),
        |i: int| QueuedSnapshotView { sequence: i as u64, pending: queue[i] },
    )
}

/// A session with its own fields as a record says.
pub open spec fn session_put(session: Option<SessionView>, record: SessionSnapshot) -> SessionView {
    let base = match session {
        Some(session) => session,
        None => new_session(record.session_expiry_interval, record.expires_at_ms),
    };
    SessionView {
        session_expiry_interval: record.session_expiry_interval,
        expires_at_ms: record.expires_at_ms,
        next_packet_id: record.next_packet_id,
        ..base
    }
}

/// What a record adds: a change to a session that is not there adds nothing.
pub open spec fn recorded(state: OfflineView, record: V1RecordView) -> OfflineView {
    match record {
        V1RecordView::SessionUpsert { client_id, session } => OfflineView {
            sessions: state.sessions.insert(
                client_id,
                session_put(lookup(state.sessions, client_id), session),
            ),
            ..state
        },
        V1RecordView::SessionDelete { client_id } => OfflineView {
            sessions: state.sessions.remove(client_id),
            subscriptions: without_client(state.subscriptions, client_id),
            ..state
        },
        V1RecordView::SubscriptionUpsert(snapshot) => {
            let entry = restored_subscription(snapshot);
            OfflineView {
                subscriptions: match subscription_position(
                    state.subscriptions,
                    entry.client_id,
                    entry.filter,
                ) {
                    Some(index) => state.subscriptions.update(index, entry),
                    None => state.subscriptions.push(entry),
                },
                ..state
            }
        },
        V1RecordView::SubscriptionDelete { client_id, filter } => OfflineView {
            subscriptions: without_held(state.subscriptions, client_id, filter),
            ..state
        },
        V1RecordView::RetainedUpsert { topic_name, message } => OfflineView {
            retained: state.retained.insert(topic_name, message),
            ..state
        },
        V1RecordView::RetainedDelete { topic_name } => OfflineView {
            retained: state.retained.remove(topic_name),
            ..state
        },
        V1RecordView::OfflineReplace { client_id, queue } => match lookup(
            state.sessions,
            client_id,
        ) {
            None => state,
            Some(session) => OfflineView {
                sessions: state.sessions.insert(
                    client_id,
                    SessionView {
                        offline_queue: numbered(queue),
                        next_offline_sequence: queue.len() as u64,
                        ..session
                    },
                ),
                ..state
            },
        },
        V1RecordView::OutboundReplace { client_id, outbound } => match lookup(
            state.sessions,
            client_id,
        ) {
            None => state,
            Some(session) => OfflineView {
                sessions: state.sessions.insert(
                    client_id,
                    SessionView {
                        outbound_qos1: outbound.qos1,
                        outbound_qos2_publish: outbound.qos2_publish,
                        outbound_qos2_pubrel: outbound.qos2_pubrel,
                        ..session
                    },
                ),
                ..state
            },
        },
    }
}

impl OfflineState {
    /// Adds a record.
    pub fn apply_v1_record(&mut self, record: V1Record)
        ensures
            final(self).deep_view() == recorded(old(self).deep_view(), record.deep_view()),
    {
        let ghost before = self.deep_view();
        match record {
            V1Record::SessionUpsert { client_id, session } => {
                let ghost id = client_id@;
                let mut entry: SessionEntry = match self.sessions.remove(&client_id) {
                    Some(entry) => entry,
                    None => SessionEntry::disconnected(
                        session.session_expiry_interval,
                        session.expires_at_ms,
                    ),
                };
                entry.session_expiry_interval = session.session_expiry_interval;
                entry.expires_at_ms = session.expires_at_ms;
                entry.next_packet_id = session.next_packet_id;
                let ghost view = entry.deep_view();
                self.sessions.insert(client_id, entry);
                assert(before.sessions.remove(id).insert(id, view) =~= before.sessions.insert(
                    id,
                    view,
                ));
            },
            V1Record::SessionDelete { client_id } => {
                self.sessions.remove(&client_id);
                remove_client_subscriptions(&mut self.subscriptions, client_id.as_str());
            },
            V1Record::SubscriptionUpsert(snapshot) => {
                let entry: SubscriptionEntry = snapshot.into_subscription();
                let ghost view = entry.deep_view();
                proof {
                    subscription_position_is_first(
                        before.subscriptions,
                        view.client_id,
                        view.filter,
                    );
                    assert(before.subscriptions.len() == self.subscriptions@.len());
                }
                match find_subscription(
                    &self.subscriptions,
                    entry.client_id.as_str(),
                    entry.filter.as_str(),
                ) {
                    Some(index) => {
                        self.subscriptions[index] = entry;
                        assert(self.subscriptions.deep_view() =~= before.subscriptions.update(
                            index as int,
                            view,
                        ));
                    },
                    None => {
                        self.subscriptions.push(entry);
                        assert(self.subscriptions.deep_view() =~= before.subscriptions.push(view));
                    },
                }
            },
            V1Record::SubscriptionDelete { client_id, filter } => {
                remove_held_subscriptions(
                    &mut self.subscriptions,
                    client_id.as_str(),
                    filter.as_str(),
                );
            },
            V1Record::RetainedUpsert { topic_name, message } => {
                self.retained.insert(topic_name, message);
            },
            V1Record::RetainedDelete { topic_name } => {
                self.retained.remove(&topic_name);
            },
            V1Record::OfflineReplace { client_id, queue } => {
                let ghost id = client_id@;
                if let Some(mut entry) = self.sessions.remove(&client_id) {
                    let (list, count): (VecDeque<QueuedPublish>, u64) = number_queue(&queue);
                    entry.offline_queue = list;
                    entry.next_offline_sequence = count;
                    let ghost view = entry.deep_view();
                    self.sessions.insert(client_id, entry);
                    assert(before.sessions.remove(id).insert(id, view) =~= before.sessions.insert(
                        id,
                        view,
                    ));
                } else {
                    assert(before.sessions.remove(id) =~= before.sessions);
                }
            },
            V1Record::OutboundReplace { client_id, outbound } => {
                let ghost id = client_id@;
                if let Some(mut entry) = self.sessions.remove(&client_id) {
                    entry.outbound_qos1 = outbound.qos1;
                    entry.outbound_qos2_publish = outbound.qos2_publish;
                    entry.outbound_qos2_pubrel = outbound.qos2_pubrel;
                    let ghost view = entry.deep_view();
                    self.sessions.insert(client_id, entry);
                    assert(before.sessions.remove(id).insert(id, view) =~= before.sessions.insert(
                        id,
                        view,
                    ));
                } else {
                    assert(before.sessions.remove(id) =~= before.sessions);
                }
            },
        }
    }
}

/// A queue numbered from zero, and how many there are.
fn number_queue(queue: &Vec<PendingSnapshot>) -> (result: (VecDeque<QueuedPublish>, u64))
    ensures
        result.0.deep_view() == numbered(queue.deep_view()),
        result.1 == queue.deep_view().len() as u64,
{
    let mut list: VecDeque<QueuedPublish> = VecDeque::new();
    let mut index: usize = 0;
    while index < queue.len()
        invariant
            index <= queue@.len(),
            list@.len() == index,
            forall|i: int|
                0 <= i < index ==> (#[trigger] list@[i]).deep_view() == numbered(
                    queue.deep_view(),
                )[i],
        decreases queue@.len() - index,
    {
        list.push_back(QueuedSnapshot { sequence: index as u64, pending: queue[index].dup() });
        index += 1;
    }
    assert(list.deep_view() =~= numbered(queue.deep_view()));
    (list, queue.len() as u64)
}

/// Adds the records of a log, behind its start.
pub open spec fn v1_replayed(state: OfflineView, bytes: Seq<u8>, mode: ReplayMode) -> (
    OfflineView,
    Result<(), Seq<char>>,
)
    decreases bytes.len(),
{
    match parse_frame(bytes, mode, "PBIN1"@) {
        Err(error) => (state, Err(error)),
        Ok(FrameView::Complete(payload, checksum, rest)) => if crc32_of(payload) != checksum {
            (state, Err("PBIN1 frame checksum mismatch"@))
        } else {
            match v1_record_of(payload) {
                Err(error) => (state, Err(error)),
                Ok(record) => v1_replayed(recorded(state, record), rest, mode),
            }
        },
        Ok(_) => (state, Ok(())),
    }
}

/// Adds the records of a log.
pub open spec fn v1_replayed_log(state: OfflineView, bytes: Seq<u8>, mode: ReplayMode) -> (
    OfflineView,
    Result<(), Seq<char>>,
) {
    match parse_header(bytes, V1_MAGIC@, "PBIN1"@) {
        Err(error) => (state, Err(error)),
        Ok(rest) => v1_replayed(state, rest, mode),
    }
}

/// Adds the records of a log.
pub fn replay_v1_into(bytes: &[u8], state: &mut OfflineState, mode: ReplayMode) -> (result: Result<
    (),
    String,
>)
    ensures
        final(state).deep_view() == v1_replayed_log(old(state).deep_view(), bytes@, mode).0,
        reported(result, v1_replayed_log(old(state).deep_view(), bytes@, mode).1),
{
    let magic: [u8; 6] = V1_MAGIC;
    let mut rest: &[u8] = read_header(bytes, magic.as_slice(), "PBIN1")?;
    let ghost goal = v1_replayed_log(state.deep_view(), bytes@, mode);
    loop
        invariant
            goal == v1_replayed_log(old(state).deep_view(), bytes@, mode),
            goal == v1_replayed(state.deep_view(), rest@, mode),
        decreases rest@.len(),
    {
        match read_frame(rest, mode, "PBIN1")? {
            FrameRead::Complete(payload, checksum, behind) => {
                if crc32(payload) != checksum {
                    return Err("PBIN1 frame checksum mismatch".to_owned());
                }
                let record: V1Record = match decode_v1_record(payload) {
                    Ok(record) => record,
                    Err(defect) => return Err(defect.to_owned()),
                };
                state.apply_v1_record(record);
                rest = behind;
            },
            _ => return Ok(()),
        }
    }
}

/// What a log alone holds.
pub fn replay_v1_log(bytes: &[u8], mode: ReplayMode) -> (result: Result<OfflineState, String>)
    ensures
        match result {
            Ok(state) => v1_replayed_log(nobody_known(), bytes@, mode) == (
                state.deep_view(),
                Ok::<(), Seq<char>>(()),
            ),
            Err(message) => v1_replayed_log(nobody_known(), bytes@, mode).1 == Err::<
                (),
                Seq<char>,
            >(message@),
        },
{
    let mut state: OfflineState = OfflineState::new();
    match replay_v1_into(bytes, &mut state, mode) {
        Ok(()) => Ok(state),
        Err(message) => Err(message),
    }
}

} // verus!
