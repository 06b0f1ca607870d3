//! What the events of a log add up to, and how the log is written and read.
use vstd::prelude::*;
use vstd::string::StringExecFns;

use crate::ordered_map::OrderedMap;
use crate::storage::bytes::Writer;
use crate::storage::bytes::from_le;
use crate::storage::bytes::le;
use crate::storage::bytes::le_bounds;
use crate::storage::bytes::le_round_trip;
use crate::storage::frames::le_u32;
use crate::storage::frames::reported;
use crate::storage::log::BALANCED_COMMIT_RECORDS;
use crate::storage::log::CommitPolicy;
use crate::storage::log::flush_due;
use crate::text::bytes_copy;
use crate::text::bytes_eq;
use crate::value::Value;
use crate::vnext::durable_log::DurableLogEvent;
use crate::vnext::durable_log::EventView;
use crate::vnext::durable_log::InflightDirection;
use crate::vnext::durable_log::MAGIC;
use crate::vnext::durable_log::decode_event;
use crate::vnext::durable_log::encode_event;
use crate::vnext::durable_log::event_bytes;
use crate::vnext::durable_log::event_fits;
use crate::vnext::durable_log::event_of;
use crate::vnext::log_laws::written_event_reads_back;
use crate::vnext::routing::RouteSubscription;
use crate::vnext::routing::RouteView;

verus! {

/// What is known of a session.
#[derive(Clone, Copy, Debug, PartialEq, Eq, Structural)]
pub struct RecoveredSession {
    pub session_expiry_interval: u32,
    pub expires_at_ms: Option<u64>,
    pub next_packet_id: u16,
}

impl DeepView for RecoveredSession {
    type V = RecoveredSession;

    open spec fn deep_view(&self) -> RecoveredSession {
        *self
    }
}

impl Value for RecoveredSession {
    fn dup(&self) -> (copy: Self) {
        *self
    }

    fn same(&self, other: &Self) -> (result: bool) {
        *self == *other
    }
}

/// What is known of a retained message.
#[derive(Clone, Copy, Debug, PartialEq, Eq, Structural)]
pub struct RecoveredRetained {
    pub qos: u8,
    pub payload_len: u32,
    pub expires_at_ms: Option<u64>,
}

impl DeepView for RecoveredRetained {
    type V = RecoveredRetained;

    open spec fn deep_view(&self) -> RecoveredRetained {
        *self
    }
}

impl Value for RecoveredRetained {
    fn dup(&self) -> (copy: Self) {
        *self
    }

    fn same(&self, other: &Self) -> (result: bool) {
        *self == *other
    }
}

/// What is known of a publication in flight.
#[derive(Clone, Copy, Debug, PartialEq, Eq, Structural)]
pub struct RecoveredInflight {
    pub qos: u8,
    pub expires_at_ms: Option<u64>,
}

impl DeepView for RecoveredInflight {
    type V = RecoveredInflight;

    open spec fn deep_view(&self) -> RecoveredInflight {
        *self
    }
}

impl Value for RecoveredInflight {
    fn dup(&self) -> (copy: Self) {
        *self
    }

    fn same(&self, other: &Self) -> (result: bool) {
        *self == *other
    }
}

/// What the events of a log add up to.
pub struct RecoveredDurableState {
    pub sessions: OrderedMap<String, RecoveredSession>,
    pub subscriptions: OrderedMap<(String, String), RouteSubscription>,
    pub retained: OrderedMap<String, RecoveredRetained>,
    pub offline: OrderedMap<(String, u64), ()>,
    pub inflight: OrderedMap<((String, u16), InflightDirection), RecoveredInflight>,
}

/// What a `RecoveredDurableState` stands for.
pub struct DurableView {
    pub sessions: Map<Seq<char>, RecoveredSession>,
    pub subscriptions: Map<(Seq<char>, Seq<char>), RouteView>,
    pub retained: Map<Seq<char>, RecoveredRetained>,
    pub offline: Set<(Seq<char>, u64)>,
    pub inflight: Map<((Seq<char>, u16), InflightDirection), RecoveredInflight>,
}

impl DeepView for RecoveredDurableState {
    type V = DurableView;

    open spec fn deep_view(&self) -> DurableView {
        DurableView {
            sessions: self.sessions.deep_view(),
            subscriptions: self.subscriptions.deep_view(),
            retained: self.retained.deep_view(),
            offline: self.offline.deep_view().dom(),
            inflight: self.inflight.deep_view(),
        }
    }
}

/// Nothing happened.
pub open spec fn nothing_happened() -> DurableView {
    DurableView {
        sessions: Map::empty(),
        subscriptions: Map::empty(),
        retained: Map::empty(),
        offline: Set::empty(),
        inflight: Map::empty(),
    }
}

/// What is known after an event.
pub open spec fn happened(state: DurableView, event: EventView) -> DurableView {
    match event {
        EventView::SessionUpsert {
            client_id,
            session_expiry_interval,
            expires_at_ms,
            next_packet_id,
        } => DurableView {
            sessions: state.sessions.insert(
                client_id,
                RecoveredSession { session_expiry_interval, expires_at_ms, next_packet_id },
            ),
            ..state
        },
        EventView::SubscriptionUpsert {
            client_id,
            filter,
            match_filter,
            shared_group,
            subscription_identifier,
        } => DurableView {
            subscriptions: state.subscriptions.insert(
                (client_id, filter),
                RouteView {
                    client_id,
                    filter,
                    match_filter,
                    shared_group,
                    subscription_identifier,
                },
            ),
            ..state
        },
        EventView::SubscriptionDelete { client_id, filter } => DurableView {
            subscriptions: state.subscriptions.remove((client_id, filter)),
            ..state
        },
        EventView::RetainUpsert { topic_name, qos, payload_len, expires_at_ms } => DurableView {
            retained: state.retained.insert(
                topic_name,
                RecoveredRetained { qos, payload_len, expires_at_ms },
            ),
            ..state
        },
        EventView::RetainDelete { topic_name } => DurableView {
            retained: state.retained.remove(topic_name),
            ..state
        },
        EventView::OfflineEnqueue { client_id, sequence, .. } => DurableView {
            offline: state.offline.insert((client_id, sequence)),
            ..state
        },
        EventView::OfflineAck { client_id, sequence } => DurableView {
            offline: state.offline.remove((client_id, sequence)),
            ..state
        },
        EventView::InflightUpsert { client_id, packet_id, qos, direction, expires_at_ms } => {
            DurableView {
                inflight: state.inflight.insert(
                    ((client_id, packet_id), direction),
                    RecoveredInflight { qos, expires_at_ms },
                ),
                ..state
            }
        },
        EventView::InflightAck { client_id, packet_id, direction } => DurableView {
            inflight: state.inflight.remove(((client_id, packet_id), direction)),
            ..state
        },
    }
}

/// What is known after some events.
pub open spec fn all_happened(state: DurableView, events: Seq<EventView>) -> DurableView
    decreases events.len(),
{
    if events.len() == 0 {
        state
    } else {
        happened(all_happened(state, events.drop_last()), events.last())
    }
}

/// Each subscription is known by its client and its filter.
pub open spec fn keys_agree(state: DurableView) -> bool {
    forall|key: (Seq<char>, Seq<char>)| #[trigger]
        state.subscriptions.dom().contains(key) ==> key == (
            state.subscriptions[key].client_id,
            state.subscriptions[key].filter,
        )
}

impl RecoveredDurableState {
    /// Nothing happened.
    pub fn new() -> (result: Self)
        ensures
            result.deep_view() == nothing_happened(),
    {
        let result: RecoveredDurableState = RecoveredDurableState {
            sessions: OrderedMap::new(),
            subscriptions: OrderedMap::new(),
            retained: OrderedMap::new(),
            offline: OrderedMap::new(),
            inflight: OrderedMap::new(),
        };
        assert(result.deep_view().offline =~= Set::<(Seq<char>, u64)>::empty());
        result
    }

    /// Takes note of an event.
    pub fn apply(&mut self, event: DurableLogEvent)
        ensures
            final(self).deep_view() == happened(old(self).deep_view(), event.deep_view()),
    {
        let ghost before = self.deep_view();
        match event {
            DurableLogEvent::SessionUpsert {
                client_id,
                session_expiry_interval,
                expires_at_ms,
                next_packet_id,
            } => {
                self.sessions.insert(
                    client_id,
                    RecoveredSession { session_expiry_interval, expires_at_ms, next_packet_id },
                );
            },
            DurableLogEvent::SubscriptionUpsert {
                client_id,
                filter,
                match_filter,
                shared_group,
                subscription_identifier,
            } => {
                self.subscriptions.insert(
                    (client_id.dup(), filter.dup()),
                    RouteSubscription {
                        client_id,
                        filter,
                        match_filter,
                        shared_group,
                        subscription_identifier,
                    },
                );
            },
            DurableLogEvent::SubscriptionDelete { client_id, filter } => {
                self.subscriptions.remove(&(client_id, filter));
            },
            DurableLogEvent::RetainUpsert { topic_name, qos, payload_len, expires_at_ms } => {
                self.retained.insert(
                    topic_name,
                    RecoveredRetained { qos, payload_len, expires_at_ms },
                );
            },
            DurableLogEvent::RetainDelete { topic_name } => {
                self.retained.remove(&topic_name);
            },
            DurableLogEvent::OfflineEnqueue {
                client_id,
                sequence,
                packet_id: _,
                payload_len: _,
                expires_at_ms: _,
            } => {
                let key: (String, u64) = (client_id, sequence);
                let ghost view = key.deep_view();
                self.offline.insert(key, ());
                assert(self.deep_view().offline =~= before.offline.insert(view));
            },
            DurableLogEvent::OfflineAck { client_id, sequence } => {
                let key: (String, u64) = (client_id, sequence);
                let ghost view = key.deep_view();
                self.offline.remove(&key);
                assert(self.deep_view().offline =~= before.offline.remove(view));
            },
            DurableLogEvent::InflightUpsert {
                client_id,
                packet_id,
                qos,
                direction,
                expires_at_ms,
            } => {
                self.inflight.insert(
                    ((client_id, packet_id), direction),
                    RecoveredInflight { qos, expires_at_ms },
                );
            },
            DurableLogEvent::InflightAck { client_id, packet_id, direction } => {
                self.inflight.remove(&((client_id, packet_id), direction));
            },
        }
    }
}

/// A record of the log.
pub open spec fn record_bytes(payload: Seq<u8>) -> Seq<u8> {
    le(payload.len(), 4) + payload
}

/// What is known after the records of a log; one that is cut off at the end is left out.
pub open spec fn records_replayed(state: DurableView, bytes: Seq<u8>) -> Result<
    DurableView,
    Seq<char>,
>
    decreases bytes.len(),
{
    let length = from_le(bytes.take(4)) as int;
    if bytes.len() < 4 || bytes.len() < 4 + length {
        Ok(state)
    } else {
        match event_of(bytes.subrange(4, 4 + length)) {
            Err(message) => Err(message),
            Ok(event) => records_replayed(happened(state, event), bytes.skip(4 + length)),
        }
    }
}

/// What is known after a log; one that is cut off inside its start says nothing.
pub open spec fn log_replayed(bytes: Seq<u8>) -> Result<DurableView, Seq<char>> {
    if bytes.len() < MAGIC@.len() {
        Ok(nothing_happened())
    } else if bytes.take(MAGIC@.len() as int) != MAGIC@ {
        Err("invalid Pulse vNext WAL header"@)
    } else {
        records_replayed(nothing_happened(), bytes.skip(MAGIC@.len() as int))
    }
}

/// How a log starts.
pub fn log_start() -> (result: Vec<u8>)
    ensures
        result@ == MAGIC@,
{
    let magic: [u8; 7] = MAGIC;
    bytes_copy(magic.as_slice())
}

/// Bytes to write, and whether they must be on disk at once.
pub struct LogWrite {
    pub bytes: Vec<u8>,
    pub sync: bool,
}

/// What is known of the log in use.
#[derive(Clone, Copy, Debug, PartialEq, Eq, Structural)]
pub struct DurableLog {
    pub commit_policy: CommitPolicy,
    pub pending_balanced_records: usize,
}

impl DurableLog {
    /// A log that is opened.
    pub fn open(commit_policy: CommitPolicy) -> (result: Self)
        ensures
            result == (DurableLog { commit_policy, pending_balanced_records: 0 }),
    {
        DurableLog { commit_policy, pending_balanced_records: 0 }
    }

    /// What is written for an event: nothing where it has no binary form.
    pub fn append(&mut self, event: &DurableLogEvent) -> (result: Option<LogWrite>)
        requires
            old(self).commit_policy == CommitPolicy::Balanced
                ==> old(self).pending_balanced_records < usize::MAX,
        ensures
            match result {
                None => *final(self) == *old(self) && !(event_fits(
                    event.deep_view(),
                ) && event_bytes(
                    event.deep_view(),
                ).len() <= u32::MAX),
                Some(write) => {
                    &&& event_fits(event.deep_view())
                    &&& event_bytes(event.deep_view()).len() <= u32::MAX
                    &&& write.bytes@ == record_bytes(event_bytes(event.deep_view()))
                    &&& write.sync == flush_due(
                        old(self).commit_policy,
                        (old(self).pending_balanced_records + 1) as nat,
                    )
                    &&& *final(self) == (DurableLog {
                        pending_balanced_records: match old(self).commit_policy {
                            CommitPolicy::Balanced => if write.sync {
                                0
                            } else {
                                (old(self).pending_balanced_records + 1) as usize
                            },
                            _ => old(self).pending_balanced_records,
                        },
                        ..*old(self)
                    })
                },
            },
    {
        let mut payload: Vec<u8> = match encode_event(event) {
            Some(payload) => payload,
            None => return None,
        };
        let mut writer: Writer = Writer::new();
        if !writer.len(payload.len()) {
            return None;
        }
        let ghost body = payload@;
        let mut bytes: Vec<u8> = writer.bytes;
        bytes.append(&mut payload);
        assert(bytes@ =~= record_bytes(body));
        let sync: bool = match self.commit_policy {
            CommitPolicy::Strict => true,
            CommitPolicy::Balanced => {
                self.pending_balanced_records = self.pending_balanced_records + 1;
                if self.pending_balanced_records >= BALANCED_COMMIT_RECORDS {
                    self.pending_balanced_records = 0;
                    true
                } else {
                    false
                }
            },
            CommitPolicy::Fast => false,
        };
        Some(LogWrite { bytes, sync })
    }

    /// Takes note that the log is flushed. Returns whether it must be on disk.
    pub fn flush(&mut self) -> (sync: bool)
        ensures
            sync == (old(self).commit_policy != CommitPolicy::Fast),
            *final(self) == (DurableLog { pending_balanced_records: 0, ..*old(self) }),
    {
        self.pending_balanced_records = 0;
        self.commit_policy != CommitPolicy::Fast
    }

    /// What is known after a log.
    pub fn replay(bytes: &[u8]) -> (result: Result<RecoveredDurableState, String>)
        ensures
            reported(result, log_replayed(bytes@)),
    {
        let mut state: RecoveredDurableState = RecoveredDurableState::new();
        let magic: [u8; 7] = MAGIC;
        if bytes.len() < 7 {
            return Ok(state);
        }
        let head: &[u8] = vstd::slice::slice_subrange(bytes, 0, 7);
        assert(head@ =~= bytes@.take(7));
        if !bytes_eq(head, magic.as_slice()) {
            return Err("invalid Pulse vNext WAL header".to_owned());
        }
        let mut rest: &[u8] = vstd::slice::slice_subrange(bytes, 7, bytes.len());
        assert(rest@ =~= bytes@.skip(7));
        let ghost goal = log_replayed(bytes@);
        loop
            invariant
                goal == log_replayed(bytes@),
                goal == records_replayed(state.deep_view(), rest@),
            decreases rest@.len(),
        {
            let total: usize = rest.len();
            if total < 4 {
                return Ok(state);
            }
            let length_bytes: &[u8] = vstd::slice::slice_subrange(rest, 0, 4);
            assert(length_bytes@ =~= rest@.take(4));
            let length: usize = le_u32(length_bytes) as usize;
            if total - 4 < length {
                return Ok(state);
            }
            let payload: &[u8] = vstd::slice::slice_subrange(rest, 4, 4 + length);
            let event: DurableLogEvent = decode_event(payload)?;
            state.apply(event);
            let behind: &[u8] = vstd::slice::slice_subrange(rest, 4 + length, total);
            assert(behind@ =~= rest@.skip(4 + length));
            rest = behind;
        }
    }
}

/// The records of some events.
pub open spec fn records_of(events: Seq<EventView>) -> Seq<u8>
    decreases events.len(),
{
    if events.len() == 0 {
        Seq::empty()
    } else {
        record_bytes(event_bytes(events[0])) + records_of(events.drop_first())
    }
}

/// An event can be written as a record.
pub open spec fn recordable(event: EventView) -> bool {
    event_fits(event) && event_bytes(event).len() <= u32::MAX
}

/// The records of some events, and whatever is left over of a record that was cut off, give what is
/// known after the events.
pub proof fn records_replay(state: DurableView, events: Seq<EventView>, tail: Seq<u8>)
    requires
        forall|i: int| 0 <= i < events.len() ==> recordable(#[trigger] events[i]),
        cut_record(tail),
    ensures
        records_replayed(state, records_of(events) + tail) == Ok::<DurableView, Seq<char>>(
            all_happened(state, events),
        ),
    decreases events.len(),
{
    if events.len() == 0 {
        assert(records_of(events) + tail =~= tail);
    } else {
        let first = events[0];
        let others = events.drop_first();
        let payload = event_bytes(first);
        let behind = records_of(others) + tail;
        let bytes = records_of(events) + tail;
        assert(recordable(events[0]));
        assert(bytes =~= le(payload.len(), 4) + (payload + behind));
        le_bounds();
        le_round_trip(payload.len(), 4);
        assert(bytes.take(4) =~= le(payload.len(), 4));
        assert(bytes.subrange(4, 4 + payload.len() as int) =~= payload);
        assert(bytes.skip(4 + payload.len() as int) =~= behind);
        written_event_reads_back(first);
        assert forall|i: int| 0 <= i < others.len() implies recordable(#[trigger] others[i]) by {
            assert(others[i] == events[i + 1]);
        }
        records_replay(happened(state, first), others, tail);
        happened_first(state, events);
    }
}

/// What is left over of a record that was cut off, or nothing.
pub open spec fn cut_record(tail: Seq<u8>) -> bool {
    tail.len() < 4 || tail.len() < 4 + from_le(tail.take(4))
}

/// The first event can be taken note of first.
proof fn happened_first(state: DurableView, events: Seq<EventView>)
    requires
        events.len() > 0,
    ensures
        all_happened(state, events) == all_happened(
            happened(state, events[0]),
            events.drop_first(),
        ),
    decreases events.len(),
{
    if events.len() == 1 {
        assert(events.drop_last() =~= Seq::<EventView>::empty());
        assert(events.drop_first() =~= Seq::<EventView>::empty());
        assert(all_happened(state, events.drop_last()) == state);
    } else {
        happened_first(state, events.drop_last());
        assert(events.drop_last().drop_first() =~= events.drop_first().drop_last());
        assert(events.drop_first().last() == events.last());
        assert(events.drop_last()[0] == events[0]);
    }
}

/// A log that was written, whole or cut off inside its last record, gives what is known after the
/// events that are whole.
pub proof fn log_replays(events: Seq<EventView>, tail: Seq<u8>)
    requires
        forall|i: int| 0 <= i < events.len() ==> recordable(#[trigger] events[i]),
        cut_record(tail),
    ensures
        log_replayed(MAGIC@ + records_of(events) + tail) == Ok::<DurableView, Seq<char>>(
            all_happened(nothing_happened(), events),
        ),
{
    let bytes = MAGIC@ + records_of(events) + tail;
    assert(bytes.take(7) =~= MAGIC@);
    assert(bytes.skip(7) =~= records_of(events) + tail);
    records_replay(nothing_happened(), events, tail);
}

/// Each subscription that a log gives is known by its client and its filter.
pub proof fn replay_keeps_keys(state: DurableView, bytes: Seq<u8>)
    requires
        keys_agree(state),
    ensures
        records_replayed(state, bytes) matches Ok(after) ==> keys_agree(after),
    decreases bytes.len(),
{
    let length = from_le(bytes.take(4)) as int;
    if bytes.len() >= 4 && bytes.len() >= 4 + length {
        if let Ok(event) = event_of(bytes.subrange(4, 4 + length)) {
            let next = happened(state, event);
            assert(keys_agree(next));
            replay_keeps_keys(next, bytes.skip(4 + length));
        }
    }
}

} // verus!
