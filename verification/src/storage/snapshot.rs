//! What is stored of a client and of retained messages, and patches to it.
use vstd::prelude::*;

use crate::message::PendingPublish;
use crate::message::PendingView;
use crate::ordered_map::IdSet;
use crate::ordered_map::OrderedMap;
use crate::ordered_map::TextSet;
use crate::ordered_map::key_has_entry;
use crate::ordered_map::keys_meet;
use crate::ordered_map::set_model_injective;
use crate::packet::QoS;
use crate::packet::SubscriptionOptions;
use crate::protocol::is_valid_topic_filter;
use crate::protocol::is_valid_topic_name;
use crate::protocol::match_filter;
use crate::protocol::match_filter_of;
use crate::protocol::shared_group;
use crate::protocol::shared_subscription_group;
use crate::protocol::valid_topic_filter;
use crate::protocol::valid_topic_name;
use crate::retained_message::RetainedMessage;
use crate::retained_message::RetainedView;
use crate::subscription::EntryView;
use crate::subscription::SubscriptionEntry;
use crate::text::str_eq;
use crate::value::Value;

verus! {

/// The version of client patches.
pub const CLIENT_PATCH_VERSION: u8 = 1;

/// The last sequence number that a stored queue may use.
pub const MAX_SEQUENCE: u64 = 9_223_372_036_854_775_807;

/// The last subscription identifier.
pub const MAX_SUBSCRIPTION_IDENTIFIER: u32 = 268_435_455;

/// A stored publication.
pub type PendingSnapshot = PendingPublish;

/// What is stored of a session.
#[derive(Clone, Copy, Debug, PartialEq, Eq, Structural)]
pub struct SessionSnapshot {
    pub session_expiry_interval: u32,
    pub expires_at_ms: Option<u64>,
    pub next_packet_id: u16,
    pub next_offline_sequence: u64,
}

impl DeepView for SessionSnapshot {
    type V = SessionSnapshot;

    open spec fn deep_view(&self) -> SessionSnapshot {
        *self
    }
}

impl Value for SessionSnapshot {
    fn dup(&self) -> (copy: Self) {
        *self
    }

    fn same(&self, other: &Self) -> (result: bool) {
        *self == *other
    }
}

/// What is stored of a subscription.
#[derive(Debug, PartialEq)]
pub struct SubscriptionSnapshot {
    pub client_id: String,
    pub filter: String,
    pub match_filter: String,
    pub shared_group: Option<String>,
    pub maximum_qos: QoS,
    pub no_local: bool,
    pub retain_as_published: bool,
    pub retain_handling: u8,
    pub subscription_identifier: Option<u32>,
}

/// What a `SubscriptionSnapshot` stands for.
pub struct SubscriptionSnapshotView {
    pub client_id: Seq<char>,
    pub filter: Seq<char>,
    pub match_filter: Seq<char>,
    pub shared_group: Option<Seq<char>>,
    pub maximum_qos: QoS,
    pub no_local: bool,
    pub retain_as_published: bool,
    pub retain_handling: u8,
    pub subscription_identifier: Option<u32>,
}

impl DeepView for SubscriptionSnapshot {
    type V = SubscriptionSnapshotView;

    open spec fn deep_view(&self) -> SubscriptionSnapshotView {
        SubscriptionSnapshotView {
            client_id: self.client_id.deep_view(),
            filter: self.filter.deep_view(),
            match_filter: self.match_filter.deep_view(),
            shared_group: self.shared_group.deep_view(),
            maximum_qos: self.maximum_qos.deep_view(),
            no_local: self.no_local.deep_view(),
            retain_as_published: self.retain_as_published.deep_view(),
            retain_handling: self.retain_handling.deep_view(),
            subscription_identifier: self.subscription_identifier.deep_view(),
        }
    }
}

impl Value for SubscriptionSnapshot {
    fn dup(&self) -> (copy: Self) {
        SubscriptionSnapshot {
            client_id: self.client_id.dup(),
            filter: self.filter.dup(),
            match_filter: self.match_filter.dup(),
            shared_group: self.shared_group.dup(),
            maximum_qos: self.maximum_qos.dup(),
            no_local: self.no_local.dup(),
            retain_as_published: self.retain_as_published.dup(),
            retain_handling: self.retain_handling.dup(),
            subscription_identifier: self.subscription_identifier.dup(),
        }
    }

    fn same(&self, other: &Self) -> (result: bool) {
        self.client_id.same(&other.client_id)
            && self.filter.same(&other.filter)
            && self.match_filter.same(&other.match_filter)
            && self.shared_group.same(&other.shared_group)
            && self.maximum_qos.same(&other.maximum_qos)
            && self.no_local.same(&other.no_local)
            && self.retain_as_published.same(&other.retain_as_published)
            && self.retain_handling.same(&other.retain_handling)
            && self.subscription_identifier.same(&other.subscription_identifier)
    }
}

/// A stored publication of an offline queue, under its sequence number.
#[derive(Debug, PartialEq)]
pub struct QueuedSnapshot {
    pub sequence: u64,
    pub pending: PendingSnapshot,
}

/// What a `QueuedSnapshot` stands for.
pub struct QueuedSnapshotView {
    pub sequence: u64,
    pub pending: PendingView,
}

impl DeepView for QueuedSnapshot {
    type V = QueuedSnapshotView;

    open spec fn deep_view(&self) -> QueuedSnapshotView {
        QueuedSnapshotView {
            sequence: self.sequence.deep_view(),
            pending: self.pending.deep_view(),
        }
    }
}

impl Value for QueuedSnapshot {
    fn dup(&self) -> (copy: Self) {
        QueuedSnapshot {
            sequence: self.sequence.dup(),
            pending: self.pending.dup(),
        }
    }

    fn same(&self, other: &Self) -> (result: bool) {
        self.sequence.same(&other.sequence)
            && self.pending.same(&other.pending)
    }
}

/// What is stored of a client.
pub struct ClientSnapshot {
    pub session: SessionSnapshot,
    pub subscriptions: OrderedMap<String, SubscriptionSnapshot>,
    pub offline: OrderedMap<u64, PendingSnapshot>,
    pub qos1: OrderedMap<u16, PendingSnapshot>,
    pub qos2_publish: OrderedMap<u16, PendingSnapshot>,
    pub qos2_pubrel: IdSet,
}

/// What a `ClientSnapshot` stands for.
pub struct ClientView {
    pub session: SessionSnapshot,
    pub subscriptions: Map<Seq<char>, SubscriptionSnapshotView>,
    pub offline: Map<u64, PendingView>,
    pub qos1: Map<u16, PendingView>,
    pub qos2_publish: Map<u16, PendingView>,
    pub qos2_pubrel: Set<u16>,
}

impl DeepView for ClientSnapshot {
    type V = ClientView;

    open spec fn deep_view(&self) -> ClientView {
        ClientView {
            session: self.session.deep_view(),
            subscriptions: self.subscriptions.deep_view(),
            offline: self.offline.deep_view(),
            qos1: self.qos1.deep_view(),
            qos2_publish: self.qos2_publish.deep_view(),
            qos2_pubrel: self.qos2_pubrel.deep_view().dom(),
        }
    }
}

impl Value for ClientSnapshot {
    fn dup(&self) -> (copy: Self) {
        ClientSnapshot {
            session: self.session.dup(),
            subscriptions: self.subscriptions.dup(),
            offline: self.offline.dup(),
            qos1: self.qos1.dup(),
            qos2_publish: self.qos2_publish.dup(),
            qos2_pubrel: self.qos2_pubrel.dup(),
        }
    }

    fn same(&self, other: &Self) -> (result: bool) {
        proof {
            set_model_injective(self.qos2_pubrel.deep_view(), other.qos2_pubrel.deep_view());
        }
        self.session.same(&other.session)
            && self.subscriptions.same(&other.subscriptions)
            && self.offline.same(&other.offline)
            && self.qos1.same(&other.qos1)
            && self.qos2_publish.same(&other.qos2_publish)
            && self.qos2_pubrel.same(&other.qos2_pubrel)
    }
}

/// What a client patch does.
#[derive(Clone, Copy, Debug, PartialEq, Eq, Structural)]
pub enum ClientPatchMode {
    /// Changes what is stored of the client.
    Merge,
    /// Replaces what is stored of the client.
    Reset,
    /// Removes what is stored of the client.
    Delete,
}

impl DeepView for ClientPatchMode {
    type V = ClientPatchMode;

    open spec fn deep_view(&self) -> ClientPatchMode {
        *self
    }
}

impl Value for ClientPatchMode {
    fn dup(&self) -> (copy: Self) {
        *self
    }

    fn same(&self, other: &Self) -> (result: bool) {
        *self == *other
    }
}

/// A patch to what is stored of one client.
pub struct ClientPatch {
    pub version: u8,
    pub client_id: String,
    pub mode: ClientPatchMode,
    pub session: Option<SessionSnapshot>,
    pub subscription_upserts: Vec<SubscriptionSnapshot>,
    pub subscription_deletes: Vec<String>,
    pub offline_remove_through: Option<u64>,
    pub offline_append: Vec<QueuedSnapshot>,
    pub qos1_upserts: OrderedMap<u16, PendingSnapshot>,
    pub qos1_deletes: IdSet,
    pub qos2_publish_upserts: OrderedMap<u16, PendingSnapshot>,
    pub qos2_publish_deletes: IdSet,
    pub pubrel_add: IdSet,
    pub pubrel_remove: IdSet,
}

/// What a `ClientPatch` stands for.
pub struct ClientPatchView {
    pub version: u8,
    pub client_id: Seq<char>,
    pub mode: ClientPatchMode,
    pub session: Option<SessionSnapshot>,
    pub subscription_upserts: Seq<SubscriptionSnapshotView>,
    pub subscription_deletes: Seq<Seq<char>>,
    pub offline_remove_through: Option<u64>,
    pub offline_append: Seq<QueuedSnapshotView>,
    pub qos1_upserts: Map<u16, PendingView>,
    pub qos1_deletes: Set<u16>,
    pub qos2_publish_upserts: Map<u16, PendingView>,
    pub qos2_publish_deletes: Set<u16>,
    pub pubrel_add: Set<u16>,
    pub pubrel_remove: Set<u16>,
}

impl DeepView for ClientPatch {
    type V = ClientPatchView;

    open spec fn deep_view(&self) -> ClientPatchView {
        ClientPatchView {
            version: self.version.deep_view(),
            client_id: self.client_id.deep_view(),
            mode: self.mode.deep_view(),
            session: self.session.deep_view(),
            subscription_upserts: self.subscription_upserts.deep_view(),
            subscription_deletes: self.subscription_deletes.deep_view(),
            offline_remove_through: self.offline_remove_through.deep_view(),
            offline_append: self.offline_append.deep_view(),
            qos1_upserts: self.qos1_upserts.deep_view(),
            qos1_deletes: self.qos1_deletes.deep_view().dom(),
            qos2_publish_upserts: self.qos2_publish_upserts.deep_view(),
            qos2_publish_deletes: self.qos2_publish_deletes.deep_view().dom(),
            pubrel_add: self.pubrel_add.deep_view().dom(),
            pubrel_remove: self.pubrel_remove.deep_view().dom(),
        }
    }
}

impl Value for ClientPatch {
    fn dup(&self) -> (copy: Self) {
        ClientPatch {
            version: self.version.dup(),
            client_id: self.client_id.dup(),
            mode: self.mode.dup(),
            session: self.session.dup(),
            subscription_upserts: self.subscription_upserts.dup(),
            subscription_deletes: self.subscription_deletes.dup(),
            offline_remove_through: self.offline_remove_through.dup(),
            offline_append: self.offline_append.dup(),
            qos1_upserts: self.qos1_upserts.dup(),
            qos1_deletes: self.qos1_deletes.dup(),
            qos2_publish_upserts: self.qos2_publish_upserts.dup(),
            qos2_publish_deletes: self.qos2_publish_deletes.dup(),
            pubrel_add: self.pubrel_add.dup(),
            pubrel_remove: self.pubrel_remove.dup(),
        }
    }

    fn same(&self, other: &Self) -> (result: bool) {
        proof {
            set_model_injective(self.qos1_deletes.deep_view(), other.qos1_deletes.deep_view());
            set_model_injective(
                self.qos2_publish_deletes.deep_view(),
                other.qos2_publish_deletes.deep_view(),
            );
            set_model_injective(self.pubrel_add.deep_view(), other.pubrel_add.deep_view());
            set_model_injective(self.pubrel_remove.deep_view(), other.pubrel_remove.deep_view());
        }
        self.version.same(&other.version)
            && self.client_id.same(&other.client_id)
            && self.mode.same(&other.mode)
            && self.session.same(&other.session)
            && self.subscription_upserts.same(&other.subscription_upserts)
            && self.subscription_deletes.same(&other.subscription_deletes)
            && self.offline_remove_through.same(&other.offline_remove_through)
            && self.offline_append.same(&other.offline_append)
            && self.qos1_upserts.same(&other.qos1_upserts)
            && self.qos1_deletes.same(&other.qos1_deletes)
            && self.qos2_publish_upserts.same(&other.qos2_publish_upserts)
            && self.qos2_publish_deletes.same(&other.qos2_publish_deletes)
            && self.pubrel_add.same(&other.pubrel_add)
            && self.pubrel_remove.same(&other.pubrel_remove)
    }
}

/// A patch to what is stored of one retained topic.
#[derive(Debug, PartialEq)]
pub struct RetainedPatch {
    pub topic_name: String,
    pub message: Option<RetainedMessage>,
}

/// What a `RetainedPatch` stands for.
pub struct RetainedPatchView {
    pub topic_name: Seq<char>,
    pub message: Option<RetainedView>,
}

impl DeepView for RetainedPatch {
    type V = RetainedPatchView;

    open spec fn deep_view(&self) -> RetainedPatchView {
        RetainedPatchView {
            topic_name: self.topic_name.deep_view(),
            message: self.message.deep_view(),
        }
    }
}

impl Value for RetainedPatch {
    fn dup(&self) -> (copy: Self) {
        RetainedPatch {
            topic_name: self.topic_name.dup(),
            message: self.message.dup(),
        }
    }

    fn same(&self, other: &Self) -> (result: bool) {
        self.topic_name.same(&other.topic_name)
            && self.message.same(&other.message)
    }
}

/// A patch to what is stored.
pub enum StoragePatch {
    Client(ClientPatch),
    Retained(RetainedPatch),
}

/// What a `StoragePatch` stands for.
pub enum StoragePatchView {
    Client(ClientPatchView),
    Retained(RetainedPatchView),
}

impl DeepView for StoragePatch {
    type V = StoragePatchView;

    open spec fn deep_view(&self) -> StoragePatchView {
        match *self {
            StoragePatch::Client(patch) => StoragePatchView::Client(patch.deep_view()),
            StoragePatch::Retained(patch) => StoragePatchView::Retained(patch.deep_view()),
        }
    }
}

impl Value for StoragePatch {
    fn dup(&self) -> (copy: Self) {
        match self {
            StoragePatch::Client(patch) => StoragePatch::Client(patch.dup()),
            StoragePatch::Retained(patch) => StoragePatch::Retained(patch.dup()),
        }
    }

    fn same(&self, other: &Self) -> (result: bool) {
        match (self, other) {
            (StoragePatch::Client(a), StoragePatch::Client(b)) => a.same(b),
            (StoragePatch::Retained(a), StoragePatch::Retained(b)) => a.same(b),
            _ => false,
        }
    }
}

/// A check's result says what the defect is, if there is one.
pub open spec fn reports(result: Result<(), &'static str>, defect: Option<Seq<char>>) -> bool {
    match result {
        Ok(()) => defect is None,
        Err(message) => defect == Some(message@),
    }
}

/// What is stored of a subscription.
pub open spec fn subscription_snapshot(entry: EntryView) -> SubscriptionSnapshotView {
    SubscriptionSnapshotView {
        client_id: entry.client_id,
        filter: entry.filter,
        match_filter: entry.match_filter,
        shared_group: entry.shared_group,
        maximum_qos: entry.options.maximum_qos,
        no_local: entry.options.no_local,
        retain_as_published: entry.options.retain_as_published,
        retain_handling: entry.options.retain_handling,
        subscription_identifier: entry.subscription_identifier,
    }
}

/// What is wrong with a stored subscription of a client.
pub open spec fn subscription_defect(
    subscription: SubscriptionSnapshotView,
    client_id: Seq<char>,
) -> Option<Seq<char>> {
    if subscription.client_id != client_id || !valid_topic_filter(subscription.filter) {
        Some("invalid persistent subscription"@)
    } else if subscription.match_filter != match_filter_of(subscription.filter)
        || subscription.shared_group != shared_group(subscription.filter)
        || subscription.retain_handling > 2 || (subscription.subscription_identifier matches Some(
        identifier,
    ) && (identifier == 0 || identifier > MAX_SUBSCRIPTION_IDENTIFIER)) {
        Some("inconsistent persistent subscription"@)
    } else {
        None
    }
}

impl SubscriptionSnapshot {
    /// What is stored of a subscription.
    pub fn from_subscription(subscription: &SubscriptionEntry) -> (result: Self)
        ensures
            result.deep_view() == subscription_snapshot(subscription.deep_view()),
    {
        SubscriptionSnapshot {
            client_id: subscription.client_id.dup(),
            filter: subscription.filter.dup(),
            match_filter: subscription.match_filter.dup(),
            shared_group: subscription.shared_group.dup(),
            maximum_qos: subscription.options.maximum_qos,
            no_local: subscription.options.no_local,
            retain_as_published: subscription.options.retain_as_published,
            retain_handling: subscription.options.retain_handling,
            subscription_identifier: subscription.subscription_identifier,
        }
    }

    /// The subscription that was stored.
    pub fn into_subscription(self) -> (result: SubscriptionEntry)
        ensures
            subscription_snapshot(result.deep_view()) == self.deep_view(),
    {
        SubscriptionEntry {
            client_id: self.client_id,
            filter: self.filter,
            match_filter: self.match_filter,
            shared_group: self.shared_group,
            options: SubscriptionOptions {
                maximum_qos: self.maximum_qos,
                no_local: self.no_local,
                retain_as_published: self.retain_as_published,
                retain_handling: self.retain_handling,
            },
            subscription_identifier: self.subscription_identifier,
        }
    }

    /// Checks a stored subscription of a client.
    pub fn validate(&self, client_id: &str) -> (result: Result<(), &'static str>)
        ensures
            reports(result, subscription_defect(self.deep_view(), client_id@)),
    {
        if !str_eq(self.client_id.as_str(), client_id) || !is_valid_topic_filter(
            self.filter.as_str(),
        ) {
            return Err("invalid persistent subscription");
        }
        let matched: String = match_filter(self.filter.as_str());
        let group: Option<&str> = shared_subscription_group(self.filter.as_str());
        let same_group: bool = match (&self.shared_group, group) {
            (Some(stored), Some(group)) => str_eq(stored.as_str(), group),
            (None, None) => true,
            _ => false,
        };
        let bad_identifier: bool = match self.subscription_identifier {
            Some(identifier) => identifier == 0 || identifier > MAX_SUBSCRIPTION_IDENTIFIER,
            None => false,
        };
        if !self.match_filter.same(&matched) || !same_group || self.retain_handling > 2
            || bad_identifier {
            return Err("inconsistent persistent subscription");
        }
        Ok(())
    }
}

/// A stored session's counters are out of range.
pub open spec fn bad_session(session: SessionSnapshot) -> bool {
    session.next_packet_id == 0 || session.next_offline_sequence > MAX_SEQUENCE
}

fn session_is_bad(session: &SessionSnapshot) -> (result: bool)
    ensures
        result == bad_session(*session),
{
    session.next_packet_id == 0 || session.next_offline_sequence > MAX_SEQUENCE
}

/// A publication may stand in an outbound table under an identifier.
pub open spec fn valid_outbound(packet_id: u16, pending: PendingView, qos: QoS) -> bool {
    &&& pending.packet.qos == qos
    &&& pending.packet.packet_id == Some(packet_id)
    &&& valid_topic_name(pending.packet.topic_name)
}

/// Every publication may stand in its outbound table.
pub open spec fn all_valid_outbound(entries: Map<u16, PendingView>, qos: QoS) -> bool {
    forall|id: u16| #[trigger]
        entries.dom().contains(id) ==> valid_outbound(id, entries[id], qos)
}

fn valid_outbound_pending(packet_id: u16, pending: &PendingSnapshot, qos: QoS) -> (result: bool)
    ensures
        result == valid_outbound(packet_id, pending.deep_view(), qos),
{
    let same_id: bool = match pending.packet.packet_id {
        Some(id) => id == packet_id,
        None => false,
    };
    pending.packet.qos == qos && same_id && is_valid_topic_name(
        pending.packet.topic_name.as_str(),
    )
}

fn check_outbound(entries: &OrderedMap<u16, PendingSnapshot>, qos: QoS) -> (result: bool)
    ensures
        result == all_valid_outbound(entries.deep_view(), qos),
{
    let count: usize = entries.len();
    let mut index: usize = 0;
    let ghost list = entries.entries();
    while index < count
        invariant
            index <= count == list.len(),
            list == entries.entries(),
            forall|i: int|
                0 <= i < index ==> valid_outbound((#[trigger] list[i]).0, list[i].1, qos),
        decreases count - index,
    {
        let id: u16 = *entries.key_at(index);
        let pending: &PendingSnapshot = entries.value_at(index);
        if !valid_outbound_pending(id, pending, qos) {
            return false;
        }
        index += 1;
    }
    proof {
        assert forall|id: u16| #[trigger] entries.deep_view().dom().contains(id) implies
            valid_outbound(id, entries.deep_view()[id], qos) by {
            key_has_entry(list, id);
        }
    }
    true
}

/// A publication may stand in a stored offline queue.
pub open spec fn valid_offline(pending: PendingView) -> bool {
    &&& pending.packet.packet_id is None
    &&& pending.packet.qos != QoS::AtMostOnce
    &&& valid_topic_name(pending.packet.topic_name)
}

fn valid_offline_pending(pending: &PendingSnapshot) -> (result: bool)
    ensures
        result == valid_offline(pending.deep_view()),
{
    pending.packet.packet_id.is_none() && pending.packet.qos != QoS::AtMostOnce
        && is_valid_topic_name(pending.packet.topic_name.as_str())
}

/// What is wrong with what is stored of a client.
pub open spec fn client_defect(client: ClientView, client_id: Seq<char>) -> Option<Seq<char>> {
    if bad_session(client.session) {
        Some("client snapshot contains an invalid session"@)
    } else if exists|filter: Seq<char>| #[trigger]
        client.subscriptions.dom().contains(filter) && (client.subscriptions[filter].filter
            != filter || subscription_defect(client.subscriptions[filter], client_id) is Some) {
        Some("client snapshot contains an invalid subscription"@)
    } else if exists|sequence: u64| #[trigger]
        client.offline.dom().contains(sequence) && (sequence
            >= client.session.next_offline_sequence || !valid_offline(client.offline[sequence])) {
        Some("client snapshot contains an invalid offline queue"@)
    } else if !all_valid_outbound(client.qos1, QoS::AtLeastOnce) || !all_valid_outbound(
        client.qos2_publish,
        QoS::ExactlyOnce,
    ) {
        Some("client snapshot contains an invalid outbound publish"@)
    } else if !client.qos1.dom().disjoint(client.qos2_publish.dom()) || !client.qos1.dom().disjoint(
        client.qos2_pubrel,
    ) || !client.qos2_publish.dom().disjoint(client.qos2_pubrel) {
        Some("client snapshot reuses an outbound packet identifier"@)
    } else {
        None
    }
}

impl ClientSnapshot {
    /// Checks what is stored of a client.
    pub fn validate(&self, client_id: &str) -> (result: Result<(), &'static str>)
        ensures
            reports(result, client_defect(self.deep_view(), client_id@)),
    {
        if session_is_bad(&self.session) {
            return Err("client snapshot contains an invalid session");
        }
        if !self.subscriptions_are_valid(client_id) {
            return Err("client snapshot contains an invalid subscription");
        }
        if !self.offline_is_valid() {
            return Err("client snapshot contains an invalid offline queue");
        }
        if !check_outbound(&self.qos1, QoS::AtLeastOnce) || !check_outbound(
            &self.qos2_publish,
            QoS::ExactlyOnce,
        ) {
            return Err("client snapshot contains an invalid outbound publish");
        }
        if keys_meet(&self.qos1, &self.qos2_publish) || keys_meet(&self.qos1, &self.qos2_pubrel)
            || keys_meet(&self.qos2_publish, &self.qos2_pubrel) {
            return Err("client snapshot reuses an outbound packet identifier");
        }
        Ok(())
    }

    fn subscriptions_are_valid(&self, client_id: &str) -> (result: bool)
        ensures
            result == !exists|filter: Seq<char>| #[trigger]
                self.deep_view().subscriptions.dom().contains(filter) && (
                self.deep_view().subscriptions[filter].filter != filter || subscription_defect(
                    self.deep_view().subscriptions[filter],
                    client_id@,
                ) is Some),
    {
        let count: usize = self.subscriptions.len();
        let mut index: usize = 0;
        let ghost list = self.subscriptions.entries();
        while index < count
            invariant
                index <= count == list.len(),
                list == self.subscriptions.entries(),
                forall|i: int|
                    0 <= i < index ==> (#[trigger] list[i]).1.filter == list[i].0
                        && subscription_defect(list[i].1, client_id@) is None,
            decreases count - index,
        {
            let filter: &String = self.subscriptions.key_at(index);
            let subscription: &SubscriptionSnapshot = self.subscriptions.value_at(index);
            if !filter.same(&subscription.filter) || subscription.validate(client_id).is_err() {
                assert(self.deep_view().subscriptions.dom().contains(list[index as int].0));
                return false;
            }
            index += 1;
        }
        proof {
            assert forall|filter: Seq<char>| #[trigger]
                self.deep_view().subscriptions.dom().contains(
                    filter,
                ) implies self.deep_view().subscriptions[filter].filter == filter
                && subscription_defect(
                self.deep_view().subscriptions[filter],
                client_id@,
            ) is None by {
                key_has_entry(list, filter);
            }
        }
        true
    }

    fn offline_is_valid(&self) -> (result: bool)
        ensures
            result == !exists|sequence: u64| #[trigger]
                self.deep_view().offline.dom().contains(sequence) && (sequence
                    >= self.session.next_offline_sequence || !valid_offline(
                    self.deep_view().offline[sequence],
                )),
    {
        let count: usize = self.offline.len();
        let mut index: usize = 0;
        let ghost list = self.offline.entries();
        while index < count
            invariant
                index <= count == list.len(),
                list == self.offline.entries(),
                forall|i: int|
                    0 <= i < index ==> (#[trigger] list[i]).0 < self.session.next_offline_sequence
                        && valid_offline(list[i].1),
            decreases count - index,
        {
            let sequence: u64 = *self.offline.key_at(index);
            let pending: &PendingSnapshot = self.offline.value_at(index);
            if sequence >= self.session.next_offline_sequence || !valid_offline_pending(pending) {
                assert(self.deep_view().offline.dom().contains(list[index as int].0));
                return false;
            }
            index += 1;
        }
        proof {
            assert forall|sequence: u64| #[trigger]
                self.deep_view().offline.dom().contains(sequence) implies sequence
                < self.session.next_offline_sequence && valid_offline(
                self.deep_view().offline[sequence],
            ) by {
                key_has_entry(list, sequence);
            }
        }
        true
    }
}

/// Some of the subscriptions is under the filter.
pub open spec fn has_filter(
    subscriptions: Seq<SubscriptionSnapshotView>,
    filter: Seq<char>,
) -> bool {
    exists|i: int| 0 <= i < subscriptions.len() && (#[trigger] subscriptions[i]).filter == filter
}

/// The first thing that is wrong with the subscriptions that a patch puts.
pub open spec fn upserts_defect(
    upserts: Seq<SubscriptionSnapshotView>,
    client_id: Seq<char>,
) -> Option<Seq<char>>
    decreases upserts.len(),
{
    if upserts.len() == 0 {
        None
    } else {
        match upserts_defect(upserts.drop_last(), client_id) {
            Some(defect) => Some(defect),
            None => match subscription_defect(upserts.last(), client_id) {
                Some(defect) => Some(defect),
                None => if has_filter(upserts.drop_last(), upserts.last().filter) {
                    Some("duplicate subscription upsert"@)
                } else {
                    None
                },
            },
        }
    }
}

/// What is wrong with the first subscriptions is wrong with all of them.
proof fn upserts_defect_of_prefix(
    upserts: Seq<SubscriptionSnapshotView>,
    count: int,
    client_id: Seq<char>,
)
    requires
        0 <= count <= upserts.len(),
        upserts_defect(upserts.take(count), client_id) is Some,
    ensures
        upserts_defect(upserts, client_id) == upserts_defect(upserts.take(count), client_id),
    decreases upserts.len(),
{
    if count == upserts.len() {
        assert(upserts.take(count) =~= upserts);
    } else {
        assert(upserts.drop_last().take(count) =~= upserts.take(count));
        upserts_defect_of_prefix(upserts.drop_last(), count, client_id);
    }
}

/// Subscriptions without defect are each without defect, and no two are under one filter.
pub proof fn sound_upserts(upserts: Seq<SubscriptionSnapshotView>, client_id: Seq<char>)
    ensures
        upserts_defect(upserts, client_id) is None <==> {
            &&& forall|i: int|
                0 <= i < upserts.len() ==> subscription_defect(#[trigger] upserts[i], client_id)
                    is None
            &&& forall|i: int, j: int|
                #![trigger upserts[i], upserts[j]]
                0 <= i < j < upserts.len() ==> upserts[i].filter != upserts[j].filter
        },
    decreases upserts.len(),
{
    if upserts.len() > 0 {
        let front = upserts.drop_last();
        let last = upserts.len() - 1;
        sound_upserts(front, client_id);
        assert forall|i: int| 0 <= i < front.len() implies front[i] == upserts[i] by {}
        if upserts_defect(upserts, client_id) is None {
            assert forall|i: int, j: int|
                #![trigger upserts[i], upserts[j]]
                0 <= i < j < upserts.len() implies upserts[i].filter != upserts[j].filter by {
                if j < last {
                    assert(front[i].filter != front[j].filter);
                } else {
                    assert(front[i] == upserts[i]);
                }
            }
            assert forall|i: int| 0 <= i < upserts.len() implies subscription_defect(
                #[trigger] upserts[i],
                client_id,
            ) is None by {
                if i < last {
                    assert(front[i] == upserts[i]);
                }
            }
        }
        if (forall|i: int|
            0 <= i < upserts.len() ==> subscription_defect(#[trigger] upserts[i], client_id)
                is None) && (forall|i: int, j: int|
            #![trigger upserts[i], upserts[j]]
            0 <= i < j < upserts.len() ==> upserts[i].filter != upserts[j].filter) {
            assert forall|i: int| 0 <= i < front.len() implies subscription_defect(
                #[trigger] front[i],
                client_id,
            ) is None by {
                assert(front[i] == upserts[i]);
            }
            assert forall|i: int, j: int|
                #![trigger front[i], front[j]]
                0 <= i < j < front.len() implies front[i].filter != front[j].filter by {
                assert(upserts[i].filter != upserts[j].filter);
            }
            if has_filter(front, upserts[last].filter) {
                let i = choose|i: int|
                    0 <= i < front.len() && (#[trigger] front[i]).filter == upserts[last].filter;
                assert(upserts[i].filter == upserts[last].filter);
            }
        }
    }
}

/// The filters that a patch deletes are distinct, and none is among those that it puts.
pub open spec fn deletes_agree(
    upserts: Seq<SubscriptionSnapshotView>,
    deletes: Seq<Seq<char>>,
) -> bool {
    &&& deletes.no_duplicates()
    &&& forall|i: int| 0 <= i < deletes.len() ==> !has_filter(upserts, #[trigger] deletes[i])
}

/// The publications that a patch appends to the offline queue are in order and may stand there.
pub open spec fn valid_appends(appends: Seq<QueuedSnapshotView>) -> bool {
    &&& forall|i: int|
        0 <= i < appends.len() ==> (#[trigger] appends[i]).sequence <= MAX_SEQUENCE
            && valid_offline(appends[i].pending)
    &&& forall|i: int, j: int|
        #![trigger appends[i], appends[j]]
        0 <= i < j < appends.len() ==> appends[i].sequence < appends[j].sequence
}

/// The patch names packet identifier zero.
pub open spec fn names_zero(patch: ClientPatchView) -> bool {
    ||| patch.qos1_upserts.dom().contains(0)
    ||| patch.qos1_deletes.contains(0)
    ||| patch.qos2_publish_upserts.dom().contains(0)
    ||| patch.qos2_publish_deletes.contains(0)
    ||| patch.pubrel_add.contains(0)
    ||| patch.pubrel_remove.contains(0)
}

/// The patch takes something away.
pub open spec fn has_deletes(patch: ClientPatchView) -> bool {
    ||| patch.subscription_deletes.len() > 0
    ||| patch.offline_remove_through is Some
    ||| patch.qos1_deletes != Set::<u16>::empty()
    ||| patch.qos2_publish_deletes != Set::<u16>::empty()
    ||| patch.pubrel_remove != Set::<u16>::empty()
}

/// The patch changes nothing but perhaps the session.
pub open spec fn empty_delta(patch: ClientPatchView) -> bool {
    &&& patch.subscription_upserts.len() == 0
    &&& patch.subscription_deletes.len() == 0
    &&& patch.offline_remove_through is None
    &&& patch.offline_append.len() == 0
    &&& patch.qos1_upserts == Map::<u16, PendingView>::empty()
    &&& patch.qos1_deletes == Set::<u16>::empty()
    &&& patch.qos2_publish_upserts == Map::<u16, PendingView>::empty()
    &&& patch.qos2_publish_deletes == Set::<u16>::empty()
    &&& patch.pubrel_add == Set::<u16>::empty()
    &&& patch.pubrel_remove == Set::<u16>::empty()
}

/// What is wrong with a client patch: the first of these that holds.
pub open spec fn client_patch_defect(patch: ClientPatchView) -> Option<Seq<char>> {
    if patch.version != CLIENT_PATCH_VERSION {
        Some("unsupported client patch version"@)
    } else if patch.client_id.len() == 0 {
        Some("client patch has an empty client id"@)
    } else if patch.session matches Some(session) && bad_session(session) {
        Some("client patch contains an invalid persistent session"@)
    } else if upserts_defect(patch.subscription_upserts, patch.client_id) is Some {
        upserts_defect(patch.subscription_upserts, patch.client_id)
    } else if exists|i: int|
        0 <= i < patch.subscription_deletes.len() && !valid_topic_filter(
            #[trigger] patch.subscription_deletes[i],
        ) {
        Some("invalid subscription delete"@)
    } else if !deletes_agree(patch.subscription_upserts, patch.subscription_deletes) {
        Some("conflicting subscription changes"@)
    } else if patch.offline_remove_through matches Some(through) && through > MAX_SEQUENCE {
        Some("client patch contains an invalid offline removal"@)
    } else if !valid_appends(patch.offline_append) {
        Some("client patch contains an invalid offline append"@)
    } else if patch.offline_append.len() > 0 && !(patch.session matches Some(session)
        && session.next_offline_sequence > patch.offline_append.last().sequence) {
        Some("offline append is not covered by the session counter"@)
    } else if names_zero(patch) {
        Some("client patch contains packet identifier zero"@)
    } else if !all_valid_outbound(patch.qos1_upserts, QoS::AtLeastOnce) || !all_valid_outbound(
        patch.qos2_publish_upserts,
        QoS::ExactlyOnce,
    ) {
        Some("client patch contains an invalid outbound publish"@)
    } else if patch.offline_append.len() > 0 && (patch.offline_remove_through matches Some(through)
        && patch.offline_append[0].sequence <= through) {
        Some("client patch appends an already removed offline sequence"@)
    } else if !patch.qos1_upserts.dom().disjoint(patch.qos1_deletes)
        || !patch.qos2_publish_upserts.dom().disjoint(patch.qos2_publish_deletes)
        || !patch.pubrel_add.disjoint(patch.pubrel_remove) {
        Some("client patch contains conflicting outbound changes"@)
    } else if !patch.qos1_upserts.dom().disjoint(patch.qos2_publish_upserts.dom())
        || !patch.qos1_upserts.dom().disjoint(patch.pubrel_add)
        || !patch.qos2_publish_upserts.dom().disjoint(patch.pubrel_add) {
        Some("client patch reuses an outbound packet identifier"@)
    } else if patch.mode == ClientPatchMode::Delete && !(patch.session is None && empty_delta(
        patch,
    )) {
        Some("delete client patch contains state"@)
    } else if patch.mode == ClientPatchMode::Reset && (patch.session is None || has_deletes(
        patch,
    )) {
        Some("reset client patch is incomplete"@)
    } else if patch.mode == ClientPatchMode::Merge && patch.session is None && empty_delta(patch) {
        Some("empty client merge patch"@)
    } else {
        None
    }
}

impl ClientPatch {
    /// Checks a client patch.
    pub fn validate(&self) -> (result: Result<(), &'static str>)
        ensures
            reports(result, client_patch_defect(self.deep_view())),
    {
        if self.version != CLIENT_PATCH_VERSION {
            return Err("unsupported client patch version");
        }
        if self.client_id.as_str().is_empty() {
            return Err("client patch has an empty client id");
        }
        if let Some(session) = &self.session {
            if session_is_bad(session) {
                return Err("client patch contains an invalid persistent session");
            }
        }
        let mut upserted: TextSet = TextSet::new();
        match self.check_upserts(&mut upserted) {
            Ok(()) => {},
            Err(defect) => return Err(defect),
        }
        if !self.deletes_are_filters() {
            return Err("invalid subscription delete");
        }
        if !self.check_deletes(&upserted) {
            return Err("conflicting subscription changes");
        }
        if let Some(through) = self.offline_remove_through {
            if through > MAX_SEQUENCE {
                return Err("client patch contains an invalid offline removal");
            }
        }
        if !self.check_appends() {
            return Err("client patch contains an invalid offline append");
        }
        let appended: usize = self.offline_append.len();
        assert(appended == self.deep_view().offline_append.len());
        if appended > 0 {
            let last_sequence: u64 = self.offline_append[appended - 1].sequence;
            let covered: bool = match &self.session {
                Some(session) => session.next_offline_sequence > last_sequence,
                None => false,
            };
            assert(self.deep_view().offline_append.last().sequence == last_sequence);
            if !covered {
                return Err("offline append is not covered by the session counter");
            }
        }
        if self.has_zero_identifier() {
            return Err("client patch contains packet identifier zero");
        }
        if !check_outbound(&self.qos1_upserts, QoS::AtLeastOnce) || !check_outbound(
            &self.qos2_publish_upserts,
            QoS::ExactlyOnce,
        ) {
            return Err("client patch contains an invalid outbound publish");
        }
        if appended > 0 {
            if let Some(through) = self.offline_remove_through {
                assert(self.deep_view().offline_append[0].sequence
                    == self.offline_append@[0].sequence);
                if self.offline_append[0].sequence <= through {
                    return Err("client patch appends an already removed offline sequence");
                }
            }
        }
        if keys_meet(&self.qos1_upserts, &self.qos1_deletes) || keys_meet(
            &self.qos2_publish_upserts,
            &self.qos2_publish_deletes,
        ) || keys_meet(&self.pubrel_add, &self.pubrel_remove) {
            return Err("client patch contains conflicting outbound changes");
        }
        if keys_meet(&self.qos1_upserts, &self.qos2_publish_upserts) || keys_meet(
            &self.qos1_upserts,
            &self.pubrel_add,
        ) || keys_meet(&self.qos2_publish_upserts, &self.pubrel_add) {
            return Err("client patch reuses an outbound packet identifier");
        }
        match self.mode {
            ClientPatchMode::Delete => if self.session.is_some() || !self.is_empty_delta() {
                Err("delete client patch contains state")
            } else {
                Ok(())
            },
            ClientPatchMode::Reset => if self.session.is_none() || self.has_deletes() {
                Err("reset client patch is incomplete")
            } else {
                Ok(())
            },
            ClientPatchMode::Merge => if self.session.is_none() && self.is_empty_delta() {
                Err("empty client merge patch")
            } else {
                Ok(())
            },
        }
    }

    /// Checks the subscriptions that are put, and collects their filters.
    fn check_upserts(&self, upserted: &mut TextSet) -> (result: Result<(), &'static str>)
        requires
            old(upserted).deep_view() == Map::<Seq<char>, ()>::empty(),
        ensures
            reports(
                result,
                upserts_defect(self.deep_view().subscription_upserts, self.deep_view().client_id),
            ),
            result is Ok ==> forall|filter: Seq<char>| #[trigger]
                final(upserted).deep_view().dom().contains(filter) <==> has_filter(
                    self.deep_view().subscription_upserts,
                    filter,
                ),
    {
        let ghost upserts = self.deep_view().subscription_upserts;
        let ghost client_id = self.deep_view().client_id;
        let mut index: usize = 0;
        while index < self.subscription_upserts.len()
            invariant
                index <= self.subscription_upserts.len(),
                upserts == self.subscription_upserts.deep_view(),
                client_id == self.client_id@,
                upserts == self.deep_view().subscription_upserts,
                client_id == self.deep_view().client_id,
                upserts_defect(upserts.take(index as int), client_id) is None,
                forall|filter: Seq<char>| #[trigger]
                    upserted.deep_view().dom().contains(filter) <==> has_filter(
                        upserts.take(index as int),
                        filter,
                    ),
            decreases self.subscription_upserts.len() - index,
        {
            let subscription: &SubscriptionSnapshot = &self.subscription_upserts[index];
            let ghost before = upserts.take(index as int);
            let ghost after = upserts.take(index + 1);
            proof {
                assert(after.drop_last() =~= before);
                assert(after.last() == subscription.deep_view());
                if upserts_defect(after, client_id) is Some {
                    upserts_defect_of_prefix(upserts, index + 1, client_id);
                }
            }
            match subscription.validate(self.client_id.as_str()) {
                Ok(()) => {},
                Err(defect) => return Err(defect),
            }
            let filter: String = subscription.filter.dup();
            if upserted.insert(filter, ()).is_some() {
                return Err("duplicate subscription upsert");
            }
            proof {
                assert forall|filter: Seq<char>| #[trigger]
                    upserted.deep_view().dom().contains(filter) <==> has_filter(after, filter) by {
                    if has_filter(before, filter) {
                        let i = choose|i: int|
                            0 <= i < before.len() && (#[trigger] before[i]).filter == filter;
                        assert(after[i].filter == filter);
                    }
                    if has_filter(after, filter) {
                        let i = choose|i: int|
                            0 <= i < after.len() && (#[trigger] after[i]).filter == filter;
                        if i < index {
                            assert(before[i].filter == filter);
                        }
                    }
                    assert(after[index as int].filter == subscription.filter@);
                }
            }
            index += 1;
        }
        assert(upserts.take(index as int) =~= upserts);
        Ok(())
    }

    /// Whether what is deleted are topic filters.
    fn deletes_are_filters(&self) -> (result: bool)
        ensures
            result == !exists|i: int|
                0 <= i < self.deep_view().subscription_deletes.len() && !valid_topic_filter(
                    #[trigger] self.deep_view().subscription_deletes[i],
                ),
    {
        let ghost deletes = self.deep_view().subscription_deletes;
        let mut index: usize = 0;
        while index < self.subscription_deletes.len()
            invariant
                index <= self.subscription_deletes.len(),
                deletes == self.subscription_deletes.deep_view(),
                deletes == self.deep_view().subscription_deletes,
                forall|i: int| 0 <= i < index ==> valid_topic_filter(#[trigger] deletes[i]),
            decreases self.subscription_deletes.len() - index,
        {
            assert(deletes[index as int] == self.subscription_deletes@[index as int]@);
            if !is_valid_topic_filter(self.subscription_deletes[index].as_str()) {
                return false;
            }
            index += 1;
        }
        true
    }

    /// Whether the deleted filters are distinct and none of them is put.
    fn check_deletes(&self, upserted: &TextSet) -> (result: bool)
        requires
            forall|filter: Seq<char>| #[trigger]
                upserted.deep_view().dom().contains(filter) <==> has_filter(
                    self.deep_view().subscription_upserts,
                    filter,
                ),
        ensures
            result == deletes_agree(
                self.deep_view().subscription_upserts,
                self.deep_view().subscription_deletes,
            ),
    {
        let ghost upserts = self.deep_view().subscription_upserts;
        let ghost deletes = self.deep_view().subscription_deletes;
        let mut deleted: TextSet = TextSet::new();
        let mut index: usize = 0;
        while index < self.subscription_deletes.len()
            invariant
                index <= self.subscription_deletes.len(),
                deletes == self.subscription_deletes.deep_view(),
                upserts == self.deep_view().subscription_upserts,
                deletes == self.deep_view().subscription_deletes,
                forall|filter: Seq<char>| #[trigger]
                    upserted.deep_view().dom().contains(filter) <==> has_filter(upserts, filter),
                forall|filter: Seq<char>| #[trigger]
                    deleted.deep_view().dom().contains(filter) <==> exists|i: int|
                        0 <= i < index && #[trigger] deletes[i] == filter,
                forall|i: int, j: int|
                    #![trigger deletes[i], deletes[j]]
                    0 <= i < j < index ==> deletes[i] != deletes[j],
                forall|i: int| 0 <= i < index ==> !has_filter(upserts, #[trigger] deletes[i]),
            decreases self.subscription_deletes.len() - index,
        {
            let filter: String = self.subscription_deletes[index].dup();
            let ghost name = deletes[index as int];
            assert(name == filter@);
            if upserted.contains_key(&filter) {
                assert(has_filter(upserts, deletes[index as int]));
                return false;
            }
            let ghost before = deleted.deep_view();
            if deleted.insert(filter, ()).is_some() {
                let ghost i = choose|i: int| 0 <= i < index && #[trigger] deletes[i] == name;
                assert(deletes[i] == deletes[index as int]);
                return false;
            }
            proof {
                assert forall|filter: Seq<char>| #[trigger]
                    deleted.deep_view().dom().contains(filter) <==> exists|i: int|
                        0 <= i < index + 1 && #[trigger] deletes[i] == filter by {
                    if filter == name {
                        assert(deletes[index as int] == filter);
                    } else if before.dom().contains(filter) {
                        let i = choose|i: int| 0 <= i < index && #[trigger] deletes[i] == filter;
                        assert(deletes[i] == filter);
                    }
                }
                assert(!before.dom().contains(name));
                assert forall|i: int, j: int|
                    #![trigger deletes[i], deletes[j]]
                    0 <= i < j < index + 1 implies deletes[i] != deletes[j] by {
                    if j == index && deletes[i] == name {
                        assert(before.dom().contains(name));
                    }
                }
            }
            index += 1;
        }
        assert(deletes.no_duplicates());
        true
    }

    /// Whether what is appended to the offline queue is in order and may stand there.
    fn check_appends(&self) -> (result: bool)
        ensures
            result == valid_appends(self.deep_view().offline_append),
    {
        let ghost appends = self.deep_view().offline_append;
        let mut index: usize = 0;
        while index < self.offline_append.len()
            invariant
                index <= self.offline_append.len(),
                appends == self.offline_append.deep_view(),
                appends == self.deep_view().offline_append,
                forall|i: int|
                    0 <= i < index ==> (#[trigger] appends[i]).sequence <= MAX_SEQUENCE
                        && valid_offline(appends[i].pending),
                forall|i: int, j: int|
                    #![trigger appends[i], appends[j]]
                    0 <= i < j < index ==> appends[i].sequence < appends[j].sequence,
            decreases self.offline_append.len() - index,
        {
            let queued: &QueuedSnapshot = &self.offline_append[index];
            assert(appends[index as int] == queued.deep_view());
            if queued.sequence > MAX_SEQUENCE || !valid_offline_pending(&queued.pending) {
                return false;
            }
            if index > 0 {
                assert(appends[index - 1] == self.offline_append@[index - 1].deep_view());
                if queued.sequence <= self.offline_append[index - 1].sequence {
                    assert(!(appends[index - 1].sequence < appends[index as int].sequence));
                    return false;
                }
            }
            index += 1;
        }
        true
    }

    fn has_zero_identifier(&self) -> (result: bool)
        ensures
            result == names_zero(self.deep_view()),
    {
        self.qos1_upserts.contains_key(&0) || self.qos1_deletes.contains_key(&0)
            || self.qos2_publish_upserts.contains_key(&0)
            || self.qos2_publish_deletes.contains_key(&0) || self.pubrel_add.contains_key(&0)
            || self.pubrel_remove.contains_key(&0)
    }

    fn has_deletes(&self) -> (result: bool)
        ensures
            result == has_deletes(self.deep_view()),
    {
        proof {
            empty_set_model(self.qos1_deletes.deep_view());
            empty_set_model(self.qos2_publish_deletes.deep_view());
            empty_set_model(self.pubrel_remove.deep_view());
        }
        self.subscription_deletes.len() > 0 || self.offline_remove_through.is_some()
            || !self.qos1_deletes.is_empty() || !self.qos2_publish_deletes.is_empty()
            || !self.pubrel_remove.is_empty()
    }

    fn is_empty_delta(&self) -> (result: bool)
        ensures
            result == empty_delta(self.deep_view()),
    {
        proof {
            empty_set_model(self.qos1_deletes.deep_view());
            empty_set_model(self.qos2_publish_deletes.deep_view());
            empty_set_model(self.pubrel_add.deep_view());
            empty_set_model(self.pubrel_remove.deep_view());
        }
        self.subscription_upserts.len() == 0 && self.subscription_deletes.len() == 0
            && self.offline_remove_through.is_none() && self.offline_append.len() == 0
            && self.qos1_upserts.is_empty() && self.qos1_deletes.is_empty()
            && self.qos2_publish_upserts.is_empty() && self.qos2_publish_deletes.is_empty()
            && self.pubrel_add.is_empty() && self.pubrel_remove.is_empty()
    }
}

/// A map to nothing is empty where its keys are.
pub proof fn empty_set_model<A>(map: Map<A, ()>)
    ensures
        (map == Map::<A, ()>::empty()) == (map.dom() == Set::<A>::empty()),
{
    set_model_injective(map, Map::<A, ()>::empty());
    assert(Map::<A, ()>::empty().dom() =~= Set::<A>::empty());
}

/// What is wrong with a retained patch.
pub open spec fn retained_patch_defect(patch: RetainedPatchView) -> Option<Seq<char>> {
    if !valid_topic_name(patch.topic_name) || (patch.message matches Some(message)
        && message.topic_name != patch.topic_name) {
        Some("invalid retained patch topic"@)
    } else {
        None
    }
}

impl RetainedPatch {
    /// Checks a retained patch.
    pub fn validate(&self) -> (result: Result<(), &'static str>)
        ensures
            reports(result, retained_patch_defect(self.deep_view())),
    {
        let other_topic: bool = match &self.message {
            Some(message) => !message.topic_name.same(&self.topic_name),
            None => false,
        };
        if !is_valid_topic_name(self.topic_name.as_str()) || other_topic {
            return Err("invalid retained patch topic");
        }
        Ok(())
    }
}

/// What is wrong with a patch.
pub open spec fn patch_defect(patch: StoragePatchView) -> Option<Seq<char>> {
    match patch {
        StoragePatchView::Client(patch) => client_patch_defect(patch),
        StoragePatchView::Retained(patch) => retained_patch_defect(patch),
    }
}

impl StoragePatch {
    /// Checks a patch.
    pub fn validate(&self) -> (result: Result<(), &'static str>)
        ensures
            reports(result, patch_defect(self.deep_view())),
    {
        match self {
            StoragePatch::Client(patch) => patch.validate(),
            StoragePatch::Retained(patch) => patch.validate(),
        }
    }
}

} // verus!
