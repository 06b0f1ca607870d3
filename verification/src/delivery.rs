//! Routing: which sessions a publication reaches, and what is sent to connections.
use vstd::prelude::*;
use vstd::string::StringExecFns;

use crate::config::BrokerConfig;
use crate::inflight::queue_pending_publish;
use crate::inflight::queued;
use crate::message::expired;
use crate::message::expiry_of;
use crate::message::is_message_expired;
use crate::message::message_expires_at_ms;
use crate::mqtt_codec::outgoing;
use crate::ordered_map::OrderedKey;
use crate::ordered_map::OrderedMap;
use crate::ordered_map::entries_of;
use crate::packet::MqttPacket;
use crate::packet::PacketView;
use crate::packet::PublishPacket;
use crate::packet::PublishView;
use crate::packet::QoS;
use crate::packet::effective_qos;
use crate::packet::lower_qos;
use crate::retained_message::RetainedMessage;
use crate::retained_message::RetainedView;
use crate::retained_message::retained_view;
use crate::retained_store::RetainedStore;
use crate::retained_store::payload_total;
use crate::session::BrokerState;
use crate::session::SessionEntry;
use crate::session::SessionView;
use crate::session::StateView;
use crate::session::marked_if_durable;
use crate::session::marked_retained;
use crate::subscription::EntryView;
use crate::subscription::SubscriptionEntry;
use crate::subscription::filter_step;
use crate::text::text_concat;
use crate::value::Value;
use crate::write::BrokerWrite;
use crate::write::WriteView;

verus! {

/// Something to write to a connection.
#[derive(Debug, PartialEq)]
pub struct Delivery {
    pub connection_id: u64,
    pub packet: BrokerWrite,
}

/// What a `Delivery` stands for.
pub struct DeliveryView {
    pub connection_id: u64,
    pub packet: WriteView,
}

impl DeepView for Delivery {
    type V = DeliveryView;

    open spec fn deep_view(&self) -> DeliveryView {
        DeliveryView {
            connection_id: self.connection_id.deep_view(),
            packet: self.packet.deep_view(),
        }
    }
}

impl Value for Delivery {
    fn dup(&self) -> (copy: Self) {
        Delivery {
            connection_id: self.connection_id.dup(),
            packet: self.packet.dup(),
        }
    }

    fn same(&self, other: &Self) -> (result: bool) {
        self.connection_id.same(&other.connection_id)
            && self.packet.same(&other.packet)
    }
}

/// A publication to write to a connection.
pub open spec fn publish_to(connection_id: u64, packet: PublishView) -> DeliveryView {
    DeliveryView { connection_id, packet: WriteView::Packet(PacketView::Publish(packet)) }
}

/// Publications to write to a connection.
pub open spec fn publishes_to(
    connection_id: u64,
    packets: Seq<PublishView>,
) -> Seq<DeliveryView> {
    Seq::new(packets.len(), |i: int| publish_to(connection_id, packets[i]))
}

fn delivery(connection_id: u64, packet: PublishPacket) -> (result: Delivery)
    ensures
        result.deep_view() == publish_to(connection_id, packet.deep_view()),
{
    Delivery { connection_id, packet: BrokerWrite::packet(MqttPacket::Publish(packet)) }
}

pub(crate) fn deliveries(connection_id: u64, packets: Vec<PublishPacket>) -> (result: Vec<Delivery>)
    ensures
        result.deep_view() == publishes_to(connection_id, packets.deep_view()),
{
    let mut result: Vec<Delivery> = Vec::new();
    let mut index: usize = 0;
    while index < packets.len()
        invariant
            index <= packets@.len(),
            result@.len() == index,
            forall|i: int|
                0 <= i < index ==> (#[trigger] result@[i]).deep_view() == publish_to(
                    connection_id,
                    packets@[i].deep_view(),
                ),
        decreases packets@.len() - index,
    {
        result.push(delivery(connection_id, packets[index].dup()));
        index += 1;
    }
    assert(result.deep_view() =~= publishes_to(connection_id, packets.deep_view()));
    result
}

/// The state with a client's session replaced.
pub open spec fn with_session(
    state: StateView,
    client_id: Seq<char>,
    session: SessionView,
) -> StateView {
    StateView { sessions: state.sessions.insert(client_id, session), ..state }
}

/// A retained message may be kept: there is room for one more topic, and for its payload.
pub open spec fn can_store(
    retained: Map<Seq<char>, RetainedView>,
    packet: PublishView,
    config: BrokerConfig,
) -> bool {
    let total = payload_total(retained);
    let current = if retained.dom().contains(packet.topic_name) {
        retained[packet.topic_name].payload.len() as int
    } else {
        0
    };
    let known = if total <= usize::MAX {
        total as int
    } else {
        usize::MAX as int
    };
    let others = if known >= current {
        known - current
    } else {
        0
    };
    let needed = if others + packet.payload.len() <= usize::MAX {
        others + packet.payload.len()
    } else {
        usize::MAX as int
    };
    &&& retained.dom().contains(packet.topic_name) || retained.len()
        < config.max_retained_messages
    &&& needed <= config.max_retained_payload_bytes
}

/// Whether a retained message may be kept.
pub fn can_store_retained(
    retained: &RetainedStore,
    packet: &PublishPacket,
    config: &BrokerConfig,
) -> (result: bool)
    requires
        retained.wf(),
    ensures
        result == can_store(retained.deep_view(), packet.deep_view(), *config),
{
    if !retained.contains_key(&packet.topic_name) && retained.len()
        >= config.max_retained_messages {
        return false;
    }
    let current: usize = match retained.get(&packet.topic_name) {
        Some(message) => message.payload.len(),
        None => 0,
    };
    let others: usize = retained.payload_bytes().saturating_sub(current);
    assert(packet.deep_view().payload.len() == packet.payload@.len());
    others.saturating_add(packet.payload.len()) <= config.max_retained_payload_bytes
}

/// The state after a publication's retain flag was heeded: an empty or expired message clears the
/// topic, another one is kept where there is room.
pub open spec fn after_retain(
    state: StateView,
    packet: PublishView,
    config: BrokerConfig,
    now_ms: u64,
) -> StateView {
    let topic = packet.topic_name;
    let expires_at_ms = expiry_of(packet.properties, now_ms);
    if !packet.retain {
        state
    } else if packet.payload.len() == 0 || expired(expires_at_ms, now_ms) {
        if state.retained.dom().contains(topic) {
            marked_retained(StateView { retained: state.retained.remove(topic), ..state }, topic)
        } else {
            state
        }
    } else if can_store(state.retained, packet, config) {
        marked_retained(
            StateView {
                retained: state.retained.insert(
                    topic,
                    retained_view(
                        packet.qos,
                        topic,
                        packet.properties,
                        packet.payload,
                        expires_at_ms,
                    ),
                ),
                ..state
            },
            topic,
        )
    } else {
        state
    }
}

/// Heeds a publication's retain flag.
pub fn retain_publish(
    state: &mut BrokerState,
    packet: &PublishPacket,
    config: &BrokerConfig,
    now_ms: u64,
)
    requires
        old(state).wf(),
    ensures
        final(state).wf(),
        final(state).deep_view() == after_retain(
            old(state).deep_view(),
            packet.deep_view(),
            *config,
            now_ms,
        ),
{
    if !packet.retain {
        return;
    }
    let expires_at_ms: Option<u64> = message_expires_at_ms(packet, now_ms);
    if packet.payload.len() == 0 || is_message_expired(expires_at_ms, now_ms) {
        let ghost before = state.deep_view().retained;
        if state.retained.remove(&packet.topic_name).is_some() {
            state.mark_retained_changed(packet.topic_name.dup());
        } else {
            assert(before.remove(packet.topic_name@) =~= before);
        }
    } else if can_store_retained(&state.retained, packet, config) {
        state.retained.insert(
            packet.topic_name.dup(),
            RetainedMessage::new(
                packet.qos,
                packet.topic_name.dup(),
                packet.properties.dup(),
                packet.payload.dup(),
                expires_at_ms,
            ),
        );
        state.mark_retained_changed(packet.topic_name.dup());
    }
}

/// The session of a client that is not connected, with a publication queued for a subscription:
/// only a session that outlasts its connection queues, and only QoS 1 and 2.
pub open spec fn queued_offline(
    state: StateView,
    subscription: EntryView,
    packet: PublishView,
    max_offline_queue_len: usize,
    now_ms: u64,
) -> Option<SessionView> {
    let qos = lower_qos(packet.qos, subscription.options.maximum_qos);
    let expires_at_ms = expiry_of(packet.properties, now_ms);
    if !state.sessions.dom().contains(subscription.client_id) {
        None
    } else if state.sessions[subscription.client_id].session_expiry_interval == 0 || qos
        == QoS::AtMostOnce || expired(expires_at_ms, now_ms) {
        None
    } else {
        queued(
            state.sessions[subscription.client_id],
            outgoing(
                packet,
                qos,
                subscription.options.retain_as_published && packet.retain,
                None,
                false,
                subscription.subscription_identifier,
            ),
            expires_at_ms,
            max_offline_queue_len,
        )
    }
}

/// The state after a publication for a client that is not connected.
pub open spec fn after_offline(
    state: StateView,
    subscription: EntryView,
    packet: PublishView,
    max_offline_queue_len: usize,
    now_ms: u64,
) -> StateView {
    match queued_offline(state, subscription, packet, max_offline_queue_len, now_ms) {
        Some(session) => marked_if_durable(
            with_session(state, subscription.client_id, session),
            subscription.client_id,
        ),
        None => state,
    }
}

/// Queues a publication for a client that is not connected. Returns whether it was queued.
pub fn queue_offline_publish(
    state: &mut BrokerState,
    subscription: &SubscriptionEntry,
    packet: &PublishPacket,
    max_offline_queue_len: usize,
    now_ms: u64,
) -> (result: bool)
    requires
        old(state).wf(),
    ensures
        final(state).wf(),
        result == queued_offline(
            old(state).deep_view(),
            subscription.deep_view(),
            packet.deep_view(),
            max_offline_queue_len,
            now_ms,
        ) is Some,
        final(state).deep_view() == after_offline(
            old(state).deep_view(),
            subscription.deep_view(),
            packet.deep_view(),
            max_offline_queue_len,
            now_ms,
        ),
{
    let ghost before = state.deep_view();
    let ghost client = subscription.client_id@;
    let mut session: SessionEntry = match state.sessions_by_client_id.remove(
        &subscription.client_id,
    ) {
        Some(session) => session,
        None => {
            assert(before.sessions.remove(client) =~= before.sessions);
            return false;
        },
    };
    let qos: QoS = effective_qos(packet.qos, subscription.options.maximum_qos);
    let expires_at_ms: Option<u64> = message_expires_at_ms(packet, now_ms);
    let mut queued_now: bool = false;
    if session.session_expiry_interval != 0 && qos != QoS::AtMostOnce && !is_message_expired(
        expires_at_ms,
        now_ms,
    ) {
        queued_now = queue_pending_publish(
            &mut session,
            packet,
            qos,
            subscription.options.retain_as_published && packet.retain,
            expires_at_ms,
            subscription.subscription_identifier,
            max_offline_queue_len,
        );
    }
    let ghost view = session.deep_view();
    state.sessions_by_client_id.insert(subscription.client_id.dup(), session);
    assert(before.sessions.remove(client).insert(client, view) =~= before.sessions.insert(
        client,
        view,
    ));
    if queued_now {
        state.mark_client_changed_if_durable(subscription.client_id.dup());
    } else {
        assert(before.sessions.insert(client, view) =~= before.sessions);
    }
    queued_now
}

/// What a shared subscription's group is called, with the filter that it shares.
pub open spec fn share_key(subscription: EntryView) -> Seq<char> {
    subscription.shared_group->0 + seq!['/'] + subscription.match_filter
}

/// The members of a group with one more, by client; those of one client in the order in which they
/// came.
pub open spec fn joined_group(members: Seq<EntryView>, subscription: EntryView) -> Seq<EntryView>
    decreases members.len(),
{
    if members.len() == 0 || !String::before(subscription.client_id, members.last().client_id) {
        members.push(subscription)
    } else {
        joined_group(members.drop_last(), subscription).push(members.last())
    }
}

/// The members of a group, if there are any.
pub open spec fn group_of(groups: Map<Seq<char>, Seq<EntryView>>, key: Seq<char>) -> Seq<
    EntryView,
> {
    if groups.dom().contains(key) {
        groups[key]
    } else {
        Seq::empty()
    }
}

/// The groups of the shared subscriptions whose clients are connected.
pub open spec fn shared_groups(
    state: StateView,
    subscriptions: Seq<EntryView>,
) -> Map<Seq<char>, Seq<EntryView>>
    decreases subscriptions.len(),
{
    if subscriptions.len() == 0 {
        Map::empty()
    } else {
        let front = shared_groups(state, subscriptions.drop_last());
        let last = subscriptions.last();
        if last.shared_group is Some && state.connections.dom().contains(last.client_id) {
            front.insert(share_key(last), joined_group(group_of(front, share_key(last)), last))
        } else {
            front
        }
    }
}

/// The subscriptions that are not shared.
pub open spec fn unshared(subscriptions: Seq<EntryView>) -> Seq<EntryView> {
    subscriptions.filter(|entry: EntryView| entry.shared_group is None)
}

/// Whose turn it is in each of some groups, and the turns afterwards.
pub open spec fn picked(
    cursors: Map<Seq<char>, usize>,
    groups: Seq<(Seq<char>, Seq<EntryView>)>,
) -> (Map<Seq<char>, usize>, Seq<EntryView>)
    decreases groups.len(),
{
    if groups.len() == 0 {
        (cursors, Seq::empty())
    } else {
        let front = picked(cursors, groups.drop_last());
        let (key, members) = groups.last();
        let turn = if front.0.dom().contains(key) {
            front.0[key]
        } else {
            0
        };
        (
            front.0.insert(
                key,
                if turn == usize::MAX {
                    0
                } else {
                    (turn + 1) as usize
                },
            ),
            front.1.push(members[turn as int % members.len() as int]),
        )
    }
}

/// The state and the subscriptions that are served: every one that is not shared, then one of each
/// group, in turn among the members that are connected.
pub open spec fn served(state: StateView, subscriptions: Seq<EntryView>) -> (
    StateView,
    Seq<EntryView>,
) {
    let turns = picked(
        state.cursors,
        entries_of::<String, Seq<EntryView>>(shared_groups(state, subscriptions)),
    );
    (StateView { cursors: turns.0, ..state }, unshared(subscriptions) + turns.1)
}

/// Puts a subscription into a group.
fn join_group(members: &mut Vec<SubscriptionEntry>, subscription: SubscriptionEntry)
    ensures
        final(members).deep_view() == joined_group(
            old(members).deep_view(),
            subscription.deep_view(),
        ),
{
    let ghost list = members.deep_view();
    let ghost item = subscription.deep_view();
    let mut slot: usize = members.len();
    assert(list.take(slot as int) =~= list);
    assert(joined_group(list, item) =~= joined_group(list.take(slot as int), item) + list.skip(
        slot as int,
    ));
    while slot > 0 && subscription.client_id.is_before(&members[slot - 1].client_id)
        invariant
            slot <= members@.len(),
            list == members.deep_view(),
            item == subscription.deep_view(),
            joined_group(list, item) == joined_group(list.take(slot as int), item) + list.skip(
                slot as int,
            ),
        decreases slot,
    {
        proof {
            let head = list.take(slot as int);
            assert(head.last() == members@[slot - 1].deep_view());
            assert(head.drop_last() =~= list.take(slot - 1));
            assert(joined_group(head, item) == joined_group(list.take(slot - 1), item).push(
                list[slot - 1],
            ));
            assert(joined_group(list.take(slot - 1), item).push(list[slot - 1]) + list.skip(
                slot as int,
            ) =~= joined_group(list.take(slot - 1), item) + list.skip(slot - 1));
        }
        slot = slot - 1;
    }
    members.insert(slot, subscription);
    proof {
        let head = list.take(slot as int);
        if slot > 0 {
            assert(head.last() == list[slot - 1]);
        }
        assert(joined_group(head, item) == head.push(item));
        assert(members.deep_view() =~= list.insert(slot as int, item));
        assert(list.insert(slot as int, item) =~= head.push(item) + list.skip(slot as int));
    }
}

/// A group with one more member is longer by one.
pub proof fn joined_group_len(members: Seq<EntryView>, subscription: EntryView)
    ensures
        joined_group(members, subscription).len() == members.len() + 1,
    decreases members.len(),
{
    if members.len() > 0 {
        joined_group_len(members.drop_last(), subscription);
    }
}

/// The groups have members.
pub open spec fn groups_filled(groups: Map<Seq<char>, Seq<EntryView>>) -> bool {
    forall|key: Seq<char>| #[trigger] groups.dom().contains(key) ==> 0 < groups[key].len()
}

/// Puts a subscription into its group.
fn add_to_group(
    groups: &mut OrderedMap<String, Vec<SubscriptionEntry>>,
    subscription: &SubscriptionEntry,
    group: &String,
)
    requires
        groups_filled(old(groups).deep_view()),
        subscription.deep_view().shared_group == Some(group@),
    ensures
        final(groups).deep_view() == old(groups).deep_view().insert(
            share_key(subscription.deep_view()),
            joined_group(
                group_of(old(groups).deep_view(), share_key(subscription.deep_view())),
                subscription.deep_view(),
            ),
        ),
        groups_filled(final(groups).deep_view()),
{
    let ghost before = groups.deep_view();
    proof {
        reveal_strlit("/");
        assert("/"@ =~= seq!['/']);
    }
    let key: String = text_concat(group.as_str(), "/").concat(
        subscription.match_filter.as_str(),
    );
    let ghost name = share_key(subscription.deep_view());
    assert(key@ =~= name);
    let mut members: Vec<SubscriptionEntry> = match groups.remove(&key) {
        Some(members) => members,
        None => Vec::new(),
    };
    assert(members.deep_view() =~= group_of(before, name));
    assert(members@.len() == members.deep_view().len());
    join_group(&mut members, subscription.dup());
    proof {
        joined_group_len(group_of(before, name), subscription.deep_view());
    }
    let ghost list = members.deep_view();
    groups.insert(key, members);
    assert(groups.deep_view() =~= before.insert(name, list));
}

/// Chooses the subscriptions that are served.
pub fn select_shared_subscriptions(
    state: &mut BrokerState,
    subscriptions: &Vec<SubscriptionEntry>,
) -> (result: Vec<SubscriptionEntry>)
    requires
        old(state).wf(),
    ensures
        final(state).wf(),
        (final(state).deep_view(), result.deep_view()) == served(
            old(state).deep_view(),
            subscriptions.deep_view(),
        ),
{
    let ghost start = state.deep_view();
    let ghost list = subscriptions.deep_view();
    let ghost plain = |entry: EntryView| entry.shared_group is None;
    let mut selected: Vec<SubscriptionEntry> = Vec::new();
    let mut groups: OrderedMap<String, Vec<SubscriptionEntry>> = OrderedMap::new();
    let mut index: usize = 0;
    assert(selected.deep_view() =~= list.take(0).filter(plain)) by {
        reveal(Seq::filter);
    }
    while index < subscriptions.len()
        invariant
            index <= subscriptions@.len(),
            list == subscriptions.deep_view(),
            state.wf(),
            start == state.deep_view(),
            plain == (|entry: EntryView| entry.shared_group is None),
            selected.deep_view() == list.take(index as int).filter(plain),
            groups.deep_view() == shared_groups(start, list.take(index as int)),
            groups_filled(groups.deep_view()),
        decreases subscriptions@.len() - index,
    {
        let subscription: &SubscriptionEntry = &subscriptions[index];
        let ghost before = selected.deep_view();
        proof {
            assert(list.take(index + 1).drop_last() =~= list.take(index as int));
            assert(list.take(index + 1).last() == subscription.deep_view());
            filter_step(list, index as int, plain);
        }
        match &subscription.shared_group {
            Some(group) => {
                if state.connection_by_client_id.contains_key(&subscription.client_id) {
                    add_to_group(&mut groups, subscription, group);
                }
            },
            None => {
                selected.push(subscription.dup());
                assert(selected.deep_view() =~= before.push(subscription.deep_view()));
            },
        }
        index += 1;
    }
    assert(list.take(index as int) =~= list);
    let count: usize = groups.len();
    let ghost entries = groups.entries();
    let ghost base = selected.deep_view();
    let mut position: usize = 0;
    assert(base + picked(start.cursors, entries.take(0)).1 =~= base);
    while position < count
        invariant
            position <= count == entries.len(),
            entries == groups.entries(),
            groups_filled(groups.deep_view()),
            state.wf(),
            state.deep_view() == (StateView {
                cursors: picked(start.cursors, entries.take(position as int)).0,
                ..start
            }),
            selected.deep_view() == base + picked(start.cursors, entries.take(position as int)).1,
        decreases count - position,
    {
        let ghost before = selected.deep_view();
        let ghost front = picked(start.cursors, entries.take(position as int));
        proof {
            assert(entries.take(position + 1).drop_last() =~= entries.take(position as int));
            assert(entries.take(position + 1).last() == entries[position as int]);
        }
        let key: String = groups.key_at(position).dup();
        let members: &Vec<SubscriptionEntry> = groups.value_at(position);
        assert(members@.len() == members.deep_view().len());
        let turn: usize = match state.shared_subscription_cursors.get(&key) {
            Some(turn) => *turn,
            None => 0,
        };
        let next: usize = if turn == usize::MAX {
            0
        } else {
            turn + 1
        };
        state.shared_subscription_cursors.insert(key, next);
        let chosen: usize = turn % members.len();
        selected.push(members[chosen].dup());
        proof {
            assert(members.deep_view()[chosen as int] == members@[chosen as int].deep_view());
            assert(selected.deep_view() =~= before.push(members@[chosen as int].deep_view()));
            assert(base + front.1.push(members@[chosen as int].deep_view()) =~= (base
                + front.1).push(members@[chosen as int].deep_view()));
        }
        position += 1;
    }
    assert(entries.take(position as int) =~= entries);
    selected
}

} // verus!
