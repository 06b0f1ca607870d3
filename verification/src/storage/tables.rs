//! What is stored as rows of tables: the state that rows give, and the changes that patches make to
//! them.
use vstd::prelude::*;

use crate::message::PendingPublish;
use crate::message::PendingView;
use crate::mqtt_codec::decode_leading_publish;
use crate::mqtt_codec::decoded_publish;
use crate::mqtt_codec::encode_publish;
use crate::mqtt_codec::publish_bytes;
use crate::mqtt_codec::stored_form;
use crate::ordered_map::IdSet;
use crate::ordered_map::OrderedMap;
use crate::ordered_map::ascending;
use crate::ordered_map::entries_of;
use crate::ordered_map::key_has_entry;
use crate::ordered_map::map_of;
use crate::ordered_map::map_of_entry;
use crate::packet::PublishPacket;
use crate::packet::PublishView;
use crate::packet::QoS;
use crate::packet::SubscriptionOptions;
use crate::protocol::match_filter;
use crate::protocol::match_filter_of;
use crate::retained_message::RetainedMessage;
use crate::session::new_session;
use crate::session::SessionEntry;
use crate::session::SessionView;
use crate::storage::delta::lookup;
use crate::storage::offline_state::OfflineState;
use crate::storage::offline_state::OfflineView;
use crate::storage::patch_codec::packet_block;
use crate::storage::patch_codec::packet_retained;
use crate::storage::patch_codec::unit_map;
use crate::storage::snapshot::ClientPatch;
use crate::storage::snapshot::ClientPatchMode;
use crate::storage::snapshot::ClientPatchView;
use crate::storage::snapshot::PendingSnapshot;
use crate::storage::snapshot::QueuedSnapshot;
use crate::storage::snapshot::QueuedSnapshotView;
use crate::storage::snapshot::SessionSnapshot;
use crate::storage::snapshot::SubscriptionSnapshot;
use crate::storage::snapshot::SubscriptionSnapshotView;
use crate::subscription::EntryView;
use crate::subscription::SubscriptionEntry;
use crate::value::Value;

verus! {

/// A row of the table of sessions.
pub struct SessionRow {
    pub client_id: String,
    pub session_expiry_interval: u32,
    pub expires_at_ms: Option<i64>,
    pub next_packet_id: u16,
    pub next_offline_sequence: i64,
}

/// A row of the table of publications in flight.
pub struct InflightRow {
    pub client_id: String,
    pub packet_id: u16,
    pub qos: u8,
    pub packet: Vec<u8>,
    pub expires_at_ms: Option<i64>,
}

/// A row of the table of offline queues.
pub struct OfflineRow {
    pub client_id: String,
    pub sequence: i64,
    pub packet: Vec<u8>,
    pub expires_at_ms: Option<i64>,
}

/// A row of the table of subscriptions.
pub struct SubscriptionRow {
    pub client_id: String,
    pub filter: String,
    pub match_filter: String,
    pub shared_group: Option<String>,
    pub maximum_qos: u8,
    pub no_local: u8,
    pub retain_as_published: u8,
    pub retain_handling: u8,
    pub subscription_identifier: Option<u32>,
}

/// A row of the table of retained messages.
pub struct RetainedRow {
    pub topic_name: String,
    pub packet: Vec<u8>,
    pub expires_at_ms: Option<i64>,
}

/// A number of a row is out of range.
#[derive(Clone, Copy, Debug, PartialEq, Eq, Structural)]
pub struct OutOfRange {
    pub column: usize,
    pub value: i64,
}

/// The quality of service that a number of a row stands for: the lowest where it is none.
pub open spec fn row_qos(value: u8) -> QoS {
    if value == 1 {
        QoS::AtLeastOnce
    } else if value == 2 {
        QoS::ExactlyOnce
    } else {
        QoS::AtMostOnce
    }
}

/// The quality of service that a number of a row stands for.
pub fn qos_from_row(value: u8) -> (result: QoS)
    ensures
        result == row_qos(value),
{
    match value {
        1 => QoS::AtLeastOnce,
        2 => QoS::ExactlyOnce,
        _ => QoS::AtMostOnce,
    }
}

/// The number of a truth value.
pub fn bool_to_u8(value: bool) -> (result: u8)
    ensures
        result == (if value {
            1u8
        } else {
            0u8
        }),
{
    if value {
        1
    } else {
        0
    }
}

/// A moment as a row holds it: the same bits.
pub open spec fn row_moment(value: Option<i64>) -> Option<u64> {
    match value {
        Some(value) => Some(value as u64),
        None => None,
    }
}

/// A moment as a row holds it.
pub fn moment_from_row(value: Option<i64>) -> (result: Option<u64>)
    ensures
        result == row_moment(value),
{
    match value {
        Some(value) => Some(
            #[verifier::truncate]
            (value as u64),
        ),
        None => None,
    }
}

/// A moment as a row is to hold it: the same bits.
pub fn moment_to_row(value: Option<u64>) -> (result: Option<i64>)
    ensures
        result == (match value {
            Some(value) => Some(value as i64),
            None => None,
        }),
{
    match value {
        Some(value) => Some(
            #[verifier::truncate]
            (value as i64),
        ),
        None => None,
    }
}

/// What a row of the table of sessions gives.
pub open spec fn session_row_loaded(state: OfflineView, row: SessionRow) -> Result<
    OfflineView,
    OutOfRange,
> {
    if row.next_offline_sequence < 0 {
        Err(OutOfRange { column: 4, value: row.next_offline_sequence })
    } else {
        Ok(
            OfflineView {
                sessions: state.sessions.insert(
                    row.client_id@,
                    SessionView {
                        next_packet_id: row.next_packet_id,
                        next_offline_sequence: row.next_offline_sequence as u64,
                        ..new_session(
                            row.session_expiry_interval,
                            row_moment(row.expires_at_ms),
                        )
                    },
                ),
                ..state
            },
        )
    }
}

/// The state with a session changed, where there is one.
pub open spec fn session_changed(
    state: OfflineView,
    client_id: Seq<char>,
    change: spec_fn(SessionView) -> SessionView,
) -> OfflineView {
    match lookup(state.sessions, client_id) {
        Some(session) => OfflineView {
            sessions: state.sessions.insert(client_id, change(session)),
            ..state
        },
        None => state,
    }
}

/// A session with a publication in flight; one of the lowest quality of service is not in flight.
pub open spec fn with_inflight(
    session: SessionView,
    packet_id: u16,
    qos: QoS,
    pending: PendingView,
) -> SessionView {
    match qos {
        QoS::AtLeastOnce => SessionView {
            outbound_qos1: session.outbound_qos1.insert(packet_id, pending),
            ..session
        },
        QoS::ExactlyOnce => SessionView {
            outbound_qos2_publish: session.outbound_qos2_publish.insert(packet_id, pending),
            ..session
        },
        QoS::AtMostOnce => session,
    }
}

/// What a row of the table of publications in flight gives: nothing where it holds no publication,
/// or there is no such session.
pub open spec fn inflight_row_loaded(state: OfflineView, row: InflightRow) -> OfflineView {
    match decoded_publish(row.packet@) {
        None => state,
        Some(found) => session_changed(
            state,
            row.client_id@,
            |session: SessionView|
                with_inflight(
                    session,
                    row.packet_id,
                    row_qos(row.qos),
                    PendingView {
                        packet: found.0,
                        expires_at_ms: row_moment(row.expires_at_ms),
                    },
                ),
        ),
    }
}

/// What a row of the table of publications to be released gives.
pub open spec fn pubrel_row_loaded(
    state: OfflineView,
    client_id: Seq<char>,
    packet_id: u16,
) -> OfflineView {
    session_changed(
        state,
        client_id,
        |session: SessionView|
            SessionView {
                outbound_qos2_pubrel: session.outbound_qos2_pubrel.insert(packet_id),
                ..session
            },
    )
}

/// What a row of the table of offline queues gives: a publication without a packet identifier at
/// the end of the queue; nothing where it holds no publication, or there is no such session.
pub open spec fn offline_row_loaded(state: OfflineView, row: OfflineRow) -> Result<
    OfflineView,
    OutOfRange,
> {
    if row.sequence < 0 {
        Err(OutOfRange { column: 1, value: row.sequence })
    } else {
        Ok(
            match decoded_publish(row.packet@) {
                None => state,
                Some(found) => session_changed(
                    state,
                    row.client_id@,
                    |session: SessionView|
                        SessionView {
                            offline_queue: session.offline_queue.push(
                                QueuedSnapshotView {
                                    sequence: row.sequence as u64,
                                    pending: PendingView {
                                        packet: PublishView { packet_id: None, ..found.0 },
                                        expires_at_ms: row_moment(row.expires_at_ms),
                                    },
                                },
                            ),
                            ..session
                        },
                ),
            },
        )
    }
}

/// The subscription of a row; the filter to match by is made anew where the row holds none.
pub open spec fn row_subscription(row: SubscriptionRow) -> EntryView {
    EntryView {
        client_id: row.client_id@,
        filter: row.filter@,
        match_filter: if row.match_filter@.len() == 0 {
            match_filter_of(row.filter@)
        } else {
            row.match_filter@
        },
        shared_group: row.shared_group.deep_view(),
        options: SubscriptionOptions {
            maximum_qos: row_qos(row.maximum_qos),
            no_local: row.no_local != 0,
            retain_as_published: row.retain_as_published != 0,
            retain_handling: row.retain_handling,
        },
        subscription_identifier: row.subscription_identifier,
    }
}

/// What a row of the table of retained messages gives: nothing where it holds no publication.
pub open spec fn retained_row_loaded(state: OfflineView, row: RetainedRow) -> OfflineView {
    match decoded_publish(row.packet@) {
        None => state,
        Some(found) => OfflineView {
            retained: state.retained.insert(
                row.topic_name@,
                packet_retained(found.0, row_moment(row.expires_at_ms)),
            ),
            ..state
        },
    }
}

impl OfflineState {
    /// Takes in a row of the table of sessions.
    pub fn load_session(&mut self, row: SessionRow) -> (result: Result<(), OutOfRange>)
        ensures
            match session_row_loaded(old(self).deep_view(), row) {
                Ok(state) => result == Ok::<(), OutOfRange>(()) && final(self).deep_view() == state,
                Err(error) => result == Err::<(), OutOfRange>(error) && final(self).deep_view()
                    == old(self).deep_view(),
            },
    {
        if row.next_offline_sequence < 0 {
            return Err(OutOfRange { column: 4, value: row.next_offline_sequence });
        }
        let mut session: SessionEntry = SessionEntry::disconnected(
            row.session_expiry_interval,
            moment_from_row(row.expires_at_ms),
        );
        session.next_packet_id = row.next_packet_id;
        session.next_offline_sequence = row.next_offline_sequence as u64;
        self.sessions.insert(row.client_id, session);
        Ok(())
    }

    /// Takes in a row of the table of publications in flight.
    pub fn load_outbound_inflight(&mut self, row: InflightRow)
        ensures
            final(self).deep_view() == inflight_row_loaded(old(self).deep_view(), row),
    {
        let ghost before = self.deep_view();
        let packet: PublishPacket = match decode_leading_publish(row.packet.as_slice()) {
            Some(packet) => packet,
            None => return,
        };
        let mut session: SessionEntry = match self.sessions.remove(&row.client_id) {
            Some(session) => session,
            None => {
                assert(before.sessions.remove(row.client_id@) =~= before.sessions);
                return;
            },
        };
        let pending: PendingPublish = PendingPublish {
            packet,
            expires_at_ms: moment_from_row(row.expires_at_ms),
        };
        match qos_from_row(row.qos) {
            QoS::AtLeastOnce => {
                session.outbound_qos1.insert(row.packet_id, pending);
            },
            QoS::ExactlyOnce => {
                session.outbound_qos2_publish.insert(row.packet_id, pending);
            },
            QoS::AtMostOnce => {},
        }
        let ghost id = row.client_id@;
        let ghost view = session.deep_view();
        self.sessions.insert(row.client_id, session);
        assert(before.sessions.remove(id).insert(id, view) =~= before.sessions.insert(id, view));
    }

    /// Takes in a row of the table of publications to be released.
    pub fn load_outbound_pubrel(&mut self, client_id: String, packet_id: u16)
        ensures
            final(self).deep_view() == pubrel_row_loaded(
                old(self).deep_view(),
                client_id@,
                packet_id,
            ),
    {
        let ghost before = self.deep_view();
        let mut session: SessionEntry = match self.sessions.remove(&client_id) {
            Some(session) => session,
            None => {
                assert(before.sessions.remove(client_id@) =~= before.sessions);
                return;
            },
        };
        let ghost released = session.outbound_qos2_pubrel.deep_view();
        session.outbound_qos2_pubrel.insert(packet_id, ());
        assert(session.outbound_qos2_pubrel.deep_view().dom() =~= released.dom().insert(
            packet_id,
        ));
        let ghost id = client_id@;
        let ghost view = session.deep_view();
        self.sessions.insert(client_id, session);
        assert(before.sessions.remove(id).insert(id, view) =~= before.sessions.insert(id, view));
    }

    /// Takes in a row of the table of offline queues.
    pub fn load_offline(&mut self, row: OfflineRow) -> (result: Result<(), OutOfRange>)
        ensures
            match offline_row_loaded(old(self).deep_view(), row) {
                Ok(state) => result == Ok::<(), OutOfRange>(()) && final(self).deep_view() == state,
                Err(error) => result == Err::<(), OutOfRange>(error) && final(self).deep_view()
                    == old(self).deep_view(),
            },
    {
        let ghost before = self.deep_view();
        if row.sequence < 0 {
            return Err(OutOfRange { column: 1, value: row.sequence });
        }
        let mut packet: PublishPacket = match decode_leading_publish(row.packet.as_slice()) {
            Some(packet) => packet,
            None => return Ok(()),
        };
        packet.packet_id = None;
        let mut session: SessionEntry = match self.sessions.remove(&row.client_id) {
            Some(session) => session,
            None => {
                assert(before.sessions.remove(row.client_id@) =~= before.sessions);
                return Ok(());
            },
        };
        let ghost queue = session.deep_view().offline_queue;
        let queued: QueuedSnapshot = QueuedSnapshot {
            sequence: row.sequence as u64,
            pending: PendingPublish {
                packet,
                expires_at_ms: moment_from_row(row.expires_at_ms),
            },
        };
        let ghost item = queued.deep_view();
        session.offline_queue.push_back(queued);
        assert(session.deep_view().offline_queue =~= queue.push(item));
        let ghost id = row.client_id@;
        let ghost view = session.deep_view();
        self.sessions.insert(row.client_id, session);
        assert(before.sessions.remove(id).insert(id, view) =~= before.sessions.insert(id, view));
        Ok(())
    }

    /// Takes in a row of the table of subscriptions.
    pub fn load_subscription(&mut self, row: SubscriptionRow)
        ensures
            final(self).deep_view() == (OfflineView {
                subscriptions: old(self).deep_view().subscriptions.push(row_subscription(row)),
                ..old(self).deep_view()
            }),
    {
        let ghost before = self.deep_view();
        let ghost view = row_subscription(row);
        let matched: String = if row.match_filter.as_str().is_empty() {
            match_filter(row.filter.as_str())
        } else {
            row.match_filter
        };
        self.subscriptions.push(
            SubscriptionEntry {
                client_id: row.client_id,
                filter: row.filter,
                match_filter: matched,
                shared_group: row.shared_group,
                options: SubscriptionOptions {
                    maximum_qos: qos_from_row(row.maximum_qos),
                    no_local: row.no_local != 0,
                    retain_as_published: row.retain_as_published != 0,
                    retain_handling: row.retain_handling,
                },
                subscription_identifier: row.subscription_identifier,
            },
        );
        assert(self.subscriptions.deep_view() =~= before.subscriptions.push(view));
    }

    /// Takes in a row of the table of retained messages.
    pub fn load_retained(&mut self, row: RetainedRow)
        ensures
            final(self).deep_view() == retained_row_loaded(old(self).deep_view(), row),
    {
        if let Some(publish) = decode_leading_publish(row.packet.as_slice()) {
            let mut message: RetainedMessage = RetainedMessage::new(
                publish.qos,
                publish.topic_name,
                publish.properties,
                publish.payload,
                None,
            );
            message.expires_at_ms = moment_from_row(row.expires_at_ms);
            self.retained.insert(row.topic_name, message);
        }
    }
}

/// A change to the tables.
pub enum TableChange {
    /// Delete a client's session, and with it all else that is stored of the client.
    DeleteSession,
    UpsertSession(SessionSnapshot),
    DeleteSubscription(String),
    UpsertSubscription(SubscriptionSnapshot),
    /// Delete the publications of an offline queue up to a number.
    DeleteOfflineThrough(u64),
    UpsertOffline { sequence: u64, packet: Vec<u8>, expires_at_ms: Option<u64> },
    DeleteInflight { qos: QoS, packet_id: u16 },
    UpsertInflight { qos: QoS, packet_id: u16, packet: Vec<u8>, expires_at_ms: Option<u64> },
    DeletePubrel(u16),
    InsertPubrel(u16),
}

/// What a `TableChange` stands for.
pub enum TableChangeView {
    DeleteSession,
    UpsertSession(SessionSnapshot),
    DeleteSubscription(Seq<char>),
    UpsertSubscription(SubscriptionSnapshotView),
    DeleteOfflineThrough(u64),
    UpsertOffline { sequence: u64, packet: Seq<u8>, expires_at_ms: Option<u64> },
    DeleteInflight { qos: QoS, packet_id: u16 },
    UpsertInflight { qos: QoS, packet_id: u16, packet: Seq<u8>, expires_at_ms: Option<u64> },
    DeletePubrel(u16),
    InsertPubrel(u16),
}

impl DeepView for TableChange {
    type V = TableChangeView;

    open spec fn deep_view(&self) -> TableChangeView {
        match *self {
            TableChange::DeleteSession => TableChangeView::DeleteSession,
            TableChange::UpsertSession(session) => TableChangeView::UpsertSession(session),
            TableChange::DeleteSubscription(filter) => TableChangeView::DeleteSubscription(
                filter@,
            ),
            TableChange::UpsertSubscription(subscription) => TableChangeView::UpsertSubscription(
                subscription.deep_view(),
            ),
            TableChange::DeleteOfflineThrough(sequence) => TableChangeView::DeleteOfflineThrough(
                sequence,
            ),
            TableChange::UpsertOffline { sequence, packet, expires_at_ms } => {
                TableChangeView::UpsertOffline { sequence, packet: packet@, expires_at_ms }
            },
            TableChange::DeleteInflight { qos, packet_id } => TableChangeView::DeleteInflight {
                qos,
                packet_id,
            },
            TableChange::UpsertInflight { qos, packet_id, packet, expires_at_ms } => {
                TableChangeView::UpsertInflight { qos, packet_id, packet: packet@, expires_at_ms }
            },
            TableChange::DeletePubrel(packet_id) => TableChangeView::DeletePubrel(packet_id),
            TableChange::InsertPubrel(packet_id) => TableChangeView::InsertPubrel(packet_id),
        }
    }
}

/// The change that puts a queued publication.
pub open spec fn offline_change(queued: QueuedSnapshotView) -> TableChangeView {
    TableChangeView::UpsertOffline {
        sequence: queued.sequence,
        packet: packet_block(queued.pending.packet),
        expires_at_ms: queued.pending.expires_at_ms,
    }
}

/// The change that puts a publication in flight.
pub open spec fn inflight_change(qos: QoS, entry: (u16, PendingView)) -> TableChangeView {
    TableChangeView::UpsertInflight {
        qos,
        packet_id: entry.0,
        packet: packet_block(entry.1.packet),
        expires_at_ms: entry.1.expires_at_ms,
    }
}

/// The changes that remove some publications in flight.
pub open spec fn inflight_deletes(qos: QoS, ids: Set<u16>) -> Seq<TableChangeView> {
    entries_of::<u16, ()>(unit_map(ids)).map_values(
        |entry: (u16, ())| TableChangeView::DeleteInflight { qos, packet_id: entry.0 },
    )
}

/// The changes that put some publications in flight.
pub open spec fn inflight_upserts(qos: QoS, table: Map<u16, PendingView>) -> Seq<
    TableChangeView,
> {
    entries_of::<u16, PendingView>(table).map_values(
        |entry: (u16, PendingView)| inflight_change(qos, entry),
    )
}

/// The changes to the tables that are made for the body of a client patch, in order.
pub open spec fn delta_changes(patch: ClientPatchView) -> Seq<TableChangeView> {
    (match patch.session {
        Some(session) => seq![TableChangeView::UpsertSession(session)],
        None => Seq::empty(),
    }) + patch.subscription_deletes.map_values(
        |filter: Seq<char>| TableChangeView::DeleteSubscription(filter),
    ) + patch.subscription_upserts.map_values(
        |subscription: SubscriptionSnapshotView|
            TableChangeView::UpsertSubscription(subscription),
    ) + (match patch.offline_remove_through {
        Some(sequence) => seq![TableChangeView::DeleteOfflineThrough(sequence)],
        None => Seq::empty(),
    }) + patch.offline_append.map_values(|queued: QueuedSnapshotView| offline_change(queued))
        + inflight_deletes(QoS::AtLeastOnce, patch.qos1_deletes) + inflight_upserts(
        QoS::AtLeastOnce,
        patch.qos1_upserts,
    ) + inflight_deletes(QoS::ExactlyOnce, patch.qos2_publish_deletes) + inflight_upserts(
        QoS::ExactlyOnce,
        patch.qos2_publish_upserts,
    ) + entries_of::<u16, ()>(unit_map(patch.pubrel_remove)).map_values(
        |entry: (u16, ())| TableChangeView::DeletePubrel(entry.0),
    ) + entries_of::<u16, ()>(unit_map(patch.pubrel_add)).map_values(
        |entry: (u16, ())| TableChangeView::InsertPubrel(entry.0),
    )
}

/// The changes to the tables that are made for a client patch, in order.
pub open spec fn client_table_changes(patch: ClientPatchView) -> Seq<TableChangeView> {
    match patch.mode {
        ClientPatchMode::Delete => seq![TableChangeView::DeleteSession],
        ClientPatchMode::Reset => seq![TableChangeView::DeleteSession] + delta_changes(patch),
        ClientPatchMode::Merge => delta_changes(patch),
    }
}

/// Every publication of a table has a wire form.
pub open spec fn table_writable(table: Map<u16, PendingView>) -> bool {
    forall|id: u16| #[trigger]
        table.dom().contains(id) ==> publish_bytes(stored_form(table[id].packet)) is Some
}

/// Every publication of a client patch has a wire form.
pub open spec fn patch_writable(patch: ClientPatchView) -> bool {
    &&& forall|i: int|
        0 <= i < patch.offline_append.len() ==> publish_bytes(
            stored_form((#[trigger] patch.offline_append[i]).pending.packet),
        ) is Some
    &&& table_writable(patch.qos1_upserts)
    &&& table_writable(patch.qos2_publish_upserts)
}

/// Adds a change.
fn add_change(changes: &mut Vec<TableChange>, change: TableChange)
    ensures
        final(changes).deep_view() == old(changes).deep_view().push(change.deep_view()),
{
    let ghost before = changes.deep_view();
    let ghost view = change.deep_view();
    changes.push(change);
    assert(changes.deep_view() =~= before.push(view));
}

/// Adds the changes that remove some publications in flight.
fn add_inflight_deletes(changes: &mut Vec<TableChange>, qos: QoS, ids: &IdSet)
    ensures
        final(changes).deep_view() == old(changes).deep_view() + inflight_deletes(
            qos,
            ids.deep_view().dom(),
        ),
{
    let ghost start = changes.deep_view();
    let ghost all = inflight_deletes(qos, ids.deep_view().dom());
    let count: usize = ids.len();
    proof {
        assert(unit_map(ids.deep_view().dom()) =~= ids.deep_view());
        assert(start + all.take(0) =~= start);
    }
    let mut index: usize = 0;
    while index < count
        invariant
            index <= count == all.len(),
            all == ids.entries().map_values(
                |entry: (u16, ())| TableChangeView::DeleteInflight { qos, packet_id: entry.0 },
            ),
            changes.deep_view() == start + all.take(index as int),
        decreases count - index,
    {
        add_change(changes, TableChange::DeleteInflight { qos, packet_id: *ids.key_at(index) });
        assert(start + all.take(index + 1) =~= (start + all.take(index as int)).push(
            all[index as int],
        ));
        index += 1;
    }
    assert(all.take(index as int) =~= all);
}

/// Adds the changes that put some publications in flight. Returns whether all of them have a wire
/// form.
fn add_inflight_upserts(
    changes: &mut Vec<TableChange>,
    qos: QoS,
    table: &OrderedMap<u16, PendingSnapshot>,
) -> (result: bool)
    ensures
        result == table_writable(table.deep_view()),
        result ==> final(changes).deep_view() == old(changes).deep_view() + inflight_upserts(
            qos,
            table.deep_view(),
        ),
{
    let ghost start = changes.deep_view();
    let ghost all = inflight_upserts(qos, table.deep_view());
    let count: usize = table.len();
    let ghost entries = table.entries();
    let mut index: usize = 0;
    assert(start + all.take(0) =~= start);
    while index < count
        invariant
            index <= count == all.len(),
            entries == table.entries(),
            entries.len() == count,
            ascending::<u16, PendingView>(entries),
            map_of(entries) == table.deep_view(),
            all == entries.map_values(|entry: (u16, PendingView)| inflight_change(qos, entry)),
            changes.deep_view() == start + all.take(index as int),
            forall|i: int|
                0 <= i < index ==> publish_bytes(
                    stored_form((#[trigger] entries[i]).1.packet),
                ) is Some,
        decreases count - index,
    {
        let pending: &PendingSnapshot = table.value_at(index);
        let packet: Vec<u8> = match encode_publish(&pending.packet) {
            Some(packet) => packet,
            None => {
                proof {
                    map_of_entry::<u16, PendingView>(entries, index as int);
                    assert(table.deep_view().dom().contains(entries[index as int].0));
                }
                return false;
            },
        };
        assert(packet.deep_view() =~= packet@);
        add_change(
            changes,
            TableChange::UpsertInflight {
                qos,
                packet_id: *table.key_at(index),
                packet,
                expires_at_ms: pending.expires_at_ms,
            },
        );
        assert(start + all.take(index + 1) =~= (start + all.take(index as int)).push(
            all[index as int],
        ));
        index += 1;
    }
    proof {
        assert(all.take(index as int) =~= all);
        assert forall|id: u16| #[trigger] table.deep_view().dom().contains(id) implies
            publish_bytes(stored_form(table.deep_view()[id].packet)) is Some by {
            key_has_entry(entries, id);
        }
    }
    true
}

/// Adds the changes of the subscriptions of a client patch.
fn add_subscription_changes(changes: &mut Vec<TableChange>, patch: &ClientPatch)
    ensures
        final(changes).deep_view() == old(changes).deep_view()
            + patch.deep_view().subscription_deletes.map_values(
            |filter: Seq<char>| TableChangeView::DeleteSubscription(filter),
        ) + patch.deep_view().subscription_upserts.map_values(
            |subscription: SubscriptionSnapshotView|
                TableChangeView::UpsertSubscription(subscription),
        ),
{
    let ghost start = changes.deep_view();
    let ghost deletes = patch.deep_view().subscription_deletes.map_values(
        |filter: Seq<char>| TableChangeView::DeleteSubscription(filter),
    );
    let ghost upserts = patch.deep_view().subscription_upserts.map_values(
        |subscription: SubscriptionSnapshotView|
            TableChangeView::UpsertSubscription(subscription),
    );
    let mut index: usize = 0;
    assert(start + deletes.take(0) =~= start);
    while index < patch.subscription_deletes.len()
        invariant
            index <= patch.subscription_deletes@.len() == deletes.len(),
            deletes == patch.deep_view().subscription_deletes.map_values(
                |filter: Seq<char>| TableChangeView::DeleteSubscription(filter),
            ),
            changes.deep_view() == start + deletes.take(index as int),
        decreases patch.subscription_deletes@.len() - index,
    {
        add_change(
            changes,
            TableChange::DeleteSubscription(patch.subscription_deletes[index].dup()),
        );
        assert(start + deletes.take(index + 1) =~= (start + deletes.take(index as int)).push(
            deletes[index as int],
        ));
        index += 1;
    }
    assert(deletes.take(index as int) =~= deletes);
    let ghost middle = start + deletes;
    let mut position: usize = 0;
    assert(middle + upserts.take(0) =~= middle);
    while position < patch.subscription_upserts.len()
        invariant
            position <= patch.subscription_upserts@.len() == upserts.len(),
            upserts == patch.deep_view().subscription_upserts.map_values(
                |subscription: SubscriptionSnapshotView|
                    TableChangeView::UpsertSubscription(subscription),
            ),
            changes.deep_view() == middle + upserts.take(position as int),
        decreases patch.subscription_upserts@.len() - position,
    {
        add_change(
            changes,
            TableChange::UpsertSubscription(patch.subscription_upserts[position].dup()),
        );
        assert(middle + upserts.take(position + 1) =~= (middle + upserts.take(
            position as int,
        )).push(upserts[position as int]));
        position += 1;
    }
    assert(upserts.take(position as int) =~= upserts);
}

/// Adds the changes that append to an offline queue. Returns whether every publication has a wire
/// form.
fn add_offline_appends(changes: &mut Vec<TableChange>, appends: &Vec<QueuedSnapshot>) -> (result:
    bool)
    ensures
        result == (forall|i: int|
            0 <= i < appends.deep_view().len() ==> publish_bytes(
                stored_form((#[trigger] appends.deep_view()[i]).pending.packet),
            ) is Some),
        result ==> final(changes).deep_view() == old(changes).deep_view()
            + appends.deep_view().map_values(|queued: QueuedSnapshotView| offline_change(queued)),
{
    let ghost start = changes.deep_view();
    let ghost list = appends.deep_view();
    let ghost all = list.map_values(|queued: QueuedSnapshotView| offline_change(queued));
    let mut index: usize = 0;
    assert(start + all.take(0) =~= start);
    while index < appends.len()
        invariant
            index <= appends@.len() == all.len(),
            list == appends.deep_view(),
            all == list.map_values(|queued: QueuedSnapshotView| offline_change(queued)),
            changes.deep_view() == start + all.take(index as int),
            forall|i: int|
                0 <= i < index ==> publish_bytes(
                    stored_form((#[trigger] list[i]).pending.packet),
                ) is Some,
        decreases appends@.len() - index,
    {
        assert(list[index as int] == appends@[index as int].deep_view());
        let queued: &QueuedSnapshot = &appends[index];
        let packet: Vec<u8> = match encode_publish(&queued.pending.packet) {
            Some(packet) => packet,
            None => return false,
        };
        assert(packet.deep_view() =~= packet@);
        add_change(
            changes,
            TableChange::UpsertOffline {
                sequence: queued.sequence,
                packet,
                expires_at_ms: queued.pending.expires_at_ms,
            },
        );
        assert(start + all.take(index + 1) =~= (start + all.take(index as int)).push(
            all[index as int],
        ));
        index += 1;
    }
    assert(all.take(index as int) =~= all);
    true
}

/// Adds the changes of the publications to be released of a client patch.
fn add_pubrel_changes(changes: &mut Vec<TableChange>, patch: &ClientPatch)
    ensures
        final(changes).deep_view() == old(changes).deep_view() + entries_of::<u16, ()>(
            unit_map(patch.deep_view().pubrel_remove),
        ).map_values(|entry: (u16, ())| TableChangeView::DeletePubrel(entry.0)) + entries_of::<
            u16,
            (),
        >(unit_map(patch.deep_view().pubrel_add)).map_values(
            |entry: (u16, ())| TableChangeView::InsertPubrel(entry.0),
        ),
{
    let ghost start = changes.deep_view();
    let removed: usize = patch.pubrel_remove.len();
    let added: usize = patch.pubrel_add.len();
    let ghost deletes = patch.pubrel_remove.entries().map_values(
        |entry: (u16, ())| TableChangeView::DeletePubrel(entry.0),
    );
    let ghost inserts = patch.pubrel_add.entries().map_values(
        |entry: (u16, ())| TableChangeView::InsertPubrel(entry.0),
    );
    proof {
        assert(unit_map(patch.deep_view().pubrel_remove) =~= patch.pubrel_remove.deep_view());
        assert(unit_map(patch.deep_view().pubrel_add) =~= patch.pubrel_add.deep_view());
        assert(start + deletes.take(0) =~= start);
    }
    let mut index: usize = 0;
    while index < removed
        invariant
            index <= removed == deletes.len(),
            deletes == patch.pubrel_remove.entries().map_values(
                |entry: (u16, ())| TableChangeView::DeletePubrel(entry.0),
            ),
            changes.deep_view() == start + deletes.take(index as int),
        decreases removed - index,
    {
        add_change(changes, TableChange::DeletePubrel(*patch.pubrel_remove.key_at(index)));
        assert(start + deletes.take(index + 1) =~= (start + deletes.take(index as int)).push(
            deletes[index as int],
        ));
        index += 1;
    }
    assert(deletes.take(index as int) =~= deletes);
    let ghost middle = start + deletes;
    let mut position: usize = 0;
    assert(middle + inserts.take(0) =~= middle);
    while position < added
        invariant
            position <= added == inserts.len(),
            inserts == patch.pubrel_add.entries().map_values(
                |entry: (u16, ())| TableChangeView::InsertPubrel(entry.0),
            ),
            changes.deep_view() == middle + inserts.take(position as int),
        decreases added - position,
    {
        add_change(changes, TableChange::InsertPubrel(*patch.pubrel_add.key_at(position)));
        assert(middle + inserts.take(position + 1) =~= (middle + inserts.take(
            position as int,
        )).push(inserts[position as int]));
        position += 1;
    }
    assert(inserts.take(position as int) =~= inserts);
}

/// The changes to the tables that are made for a client patch, in order; none where a publication
/// has no wire form.
pub fn client_patch_changes(patch: &ClientPatch) -> (result: Option<Vec<TableChange>>)
    ensures
        match result {
            Some(changes) => changes.deep_view() == client_table_changes(patch.deep_view()) && (
            patch.deep_view().mode != ClientPatchMode::Delete ==> patch_writable(
                patch.deep_view(),
            )),
            None => patch.deep_view().mode != ClientPatchMode::Delete && !patch_writable(
                patch.deep_view(),
            ),
        },
{
    let mut changes: Vec<TableChange> = Vec::new();
    let ghost view = patch.deep_view();
    assert(changes.deep_view() =~= Seq::<TableChangeView>::empty());
    match patch.mode {
        ClientPatchMode::Delete => {
            add_change(&mut changes, TableChange::DeleteSession);
            assert(changes.deep_view() =~= client_table_changes(view));
            return Some(changes);
        },
        ClientPatchMode::Reset => {
            add_change(&mut changes, TableChange::DeleteSession);
        },
        ClientPatchMode::Merge => {},
    }
    if let Some(session) = patch.session {
        add_change(&mut changes, TableChange::UpsertSession(session));
    }
    add_subscription_changes(&mut changes, patch);
    if let Some(sequence) = patch.offline_remove_through {
        add_change(&mut changes, TableChange::DeleteOfflineThrough(sequence));
    }
    if !add_offline_appends(&mut changes, &patch.offline_append) {
        return None;
    }
    add_inflight_deletes(&mut changes, QoS::AtLeastOnce, &patch.qos1_deletes);
    if !add_inflight_upserts(&mut changes, QoS::AtLeastOnce, &patch.qos1_upserts) {
        return None;
    }
    add_inflight_deletes(&mut changes, QoS::ExactlyOnce, &patch.qos2_publish_deletes);
    if !add_inflight_upserts(&mut changes, QoS::ExactlyOnce, &patch.qos2_publish_upserts) {
        return None;
    }
    add_pubrel_changes(&mut changes, patch);
    assert(changes.deep_view() =~= client_table_changes(view));
    Some(changes)
}

} // verus!
