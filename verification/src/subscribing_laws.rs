//! What a subscription is granted, and what is stored of it.
use vstd::prelude::*;

use crate::auth::AuthConfig;
use crate::auth::subscribe_allowed;
use crate::broker::SubscribeProgress;
use crate::broker::Subscriber;
use crate::broker::first_reason;
use crate::broker::held_position;
use crate::broker::subscribed;
use crate::broker::subscribed_all;
use crate::broker::subscribed_one;
use crate::broker::unsubscribed;
use crate::broker::without_all_held;
use crate::config::BrokerConfig;
use crate::connection::first_of;
use crate::connection::subscription_identifier_in;
use crate::entrance_laws::filter_holds;
use crate::packet::PropertyView;
use crate::packet::QoS;
use crate::packet::SubscribeView;
use crate::packet::SubscriptionView;
use crate::protocol::match_filter_of;
use crate::protocol::shared_group;
use crate::protocol::valid_topic_filter;
use crate::quality_laws::first_property_counts;
use crate::reason::reason_properties_of;
use crate::routing::retained_sent;
use crate::session::ClientEntryView;
use crate::session::StateView;
use crate::session::marked_changed;
use crate::subscription::EntryView;
use crate::subscription::entry_for;
use crate::subscription::is_held;
use crate::subscription::subscription_position_is_first;

verus! {

/// A client holds a subscription under a filter.
pub open spec fn has_subscription(
    subscriptions: Seq<EntryView>,
    client_id: Seq<char>,
    filter: Seq<char>,
) -> bool {
    exists|i: int|
        0 <= i < subscriptions.len() && (#[trigger] subscriptions[i]).client_id == client_id
            && subscriptions[i].filter == filter
}

/// An entry is what a client asked for: its filter, its options and the identifier that it gave.
pub open spec fn entered_as_asked(
    entry: EntryView,
    client_id: Seq<char>,
    asked: SubscriptionView,
    identifier: Option<u32>,
) -> bool {
    &&& entry.client_id == client_id
    &&& entry.filter == asked.topic_filter
    &&& entry.match_filter == match_filter_of(asked.topic_filter)
    &&& entry.shared_group == shared_group(asked.topic_filter)
    &&& entry.options == asked.options
    &&& entry.subscription_identifier == identifier
}

/// The list of subscriptions with an entry in it: in place of the one that its client held under
/// its filter, or at the end. All others stay where they are.
pub open spec fn with_entry(
    before: Seq<EntryView>,
    after: Seq<EntryView>,
    entry: EntryView,
) -> bool {
    if has_subscription(before, entry.client_id, entry.filter) {
        exists|at: int|
            #![trigger before[at]]
            {
                &&& 0 <= at < before.len()
                &&& before[at].client_id == entry.client_id
                &&& before[at].filter == entry.filter
                &&& after.len() == before.len()
                &&& after[at] == entry
                &&& forall|i: int|
                    0 <= i < before.len() && i != at ==> #[trigger] after[i] == before[i]
            }
    } else {
        &&& after.len() == before.len() + 1
        &&& after.last() == entry
        &&& forall|i: int| 0 <= i < before.len() ==> #[trigger] after[i] == before[i]
    }
}

/// What came of one subscription that was asked for.
pub open spec fn granted_or_refused(
    before: SubscribeProgress,
    after: SubscribeProgress,
    subscriber: Subscriber,
    asked: SubscriptionView,
) -> bool {
    let client = subscriber.client;
    let filter = asked.topic_filter;
    let held = has_subscription(before.state.subscriptions, client.client_id, filter);
    let full = client.subscription_count + before.inserted
        >= subscriber.config.max_subscriptions_per_client;
    let code = after.reason_codes.last();
    let refused = !valid_topic_filter(filter) || !subscribe_allowed(
        subscriber.rules,
        client.principal,
        filter,
    ) || (!held && full);
    &&& after.reason_codes.len() == before.reason_codes.len() + 1
    &&& after.reason_codes.drop_last() == before.reason_codes
    &&& refused ==> {
        &&& after.state == before.state
        &&& after.sent == before.sent
        &&& after.inserted == before.inserted
        &&& code == if !valid_topic_filter(filter) {
            0x8fu8
        } else if !subscribe_allowed(subscriber.rules, client.principal, filter) {
            0x87
        } else {
            0x97
        }
    }
    &&& !refused ==> {
        let entry = entry_for(client.client_id, asked, subscriber.subscription_identifier);
        let told = asked.options.retain_handling == 0 || asked.options.retain_handling > 2 || (
        asked.options.retain_handling == 1 && !held);
        &&& code == match asked.options.maximum_qos {
            QoS::AtMostOnce => 0u8,
            QoS::AtLeastOnce => 1,
            QoS::ExactlyOnce => 2,
        }
        &&& after.inserted == before.inserted + if held {
            0int
        } else {
            1
        }
        &&& entered_as_asked(
            entry,
            client.client_id,
            asked,
            subscriber.subscription_identifier,
        )
        &&& with_entry(before.state.subscriptions, after.state.subscriptions, entry)
        &&& after.state.connections == before.state.connections
        &&& after.state.clients == before.state.clients
        &&& after.state.qos2_inflight == before.state.qos2_inflight
        &&& after.state.cursors == before.state.cursors
        &&& !told ==> {
            &&& after.sent == before.sent
            &&& after.state.sessions == before.state.sessions
            &&& after.state.retained == before.state.retained
        }
        &&& told ==> exists|stored: StateView|
            {
                &&& with_entry(before.state.subscriptions, stored.subscriptions, entry)
                &&& stored == (StateView {
                    subscriptions: stored.subscriptions,
                    client_changes: stored.client_changes,
                    ..before.state
                })
                &&& after.state == (#[trigger] retained_sent(
                    stored,
                    entry,
                    subscriber.config,
                    subscriber.now_ms,
                )).0
                &&& after.sent == before.sent + retained_sent(
                    stored,
                    entry,
                    subscriber.config,
                    subscriber.now_ms,
                ).1
            }
    }
}

/// A subscription is refused for a filter that is none, for want of permission, or, if the client
/// does not hold it yet, for holding as many as it may; each with its code, and nothing changes.
/// Else it is granted as asked and stored in place of the one that the client held under that
/// filter or at the end; and the subscriber is sent what is retained, unless it asked not to be, or
/// not to be where it held it already.
pub proof fn subscription_is_granted_or_refused(
    before: SubscribeProgress,
    subscriber: Subscriber,
    asked: SubscriptionView,
)
    requires
        subscriber.client.subscription_count + before.inserted == 0 ==> !has_subscription(
            before.state.subscriptions,
            subscriber.client.client_id,
            asked.topic_filter,
        ),
    ensures
        granted_or_refused(before, subscribed_one(before, subscriber, asked), subscriber, asked),
{
    let client = subscriber.client;
    let filter = asked.topic_filter;
    let known = client.subscription_count as nat + before.inserted;
    let list = before.state.subscriptions;
    let after = subscribed_one(before, subscriber, asked);
    let existing = held_position(list, client.client_id, filter, known);
    subscription_position_is_first(list, client.client_id, filter);
    assert(existing is Some <==> has_subscription(list, client.client_id, filter)) by {
        if let Some(index) = existing {
            assert(list[index].client_id == client.client_id);
        }
        if has_subscription(list, client.client_id, filter) && existing is None {
            let i = choose|i: int|
                0 <= i < list.len() && (#[trigger] list[i]).client_id == client.client_id
                    && list[i].filter == filter;
            assert(is_held(list[i], client.client_id, filter));
        }
    }
    assert(after.reason_codes.drop_last() =~= before.reason_codes);
    let entry = entry_for(client.client_id, asked, subscriber.subscription_identifier);
    let list_after = match existing {
        Some(index) => list.update(index, entry),
        None => list.push(entry),
    };
    assert(with_entry(list, list_after, entry)) by {
        if let Some(index) = existing {
            assert(list[index].client_id == client.client_id);
        }
    }
    let stored = StateView { subscriptions: list_after, ..before.state };
    let noted = if client.persistent_session {
        marked_changed(stored, client.client_id)
    } else {
        stored
    };
    let sent = retained_sent(noted, entry, subscriber.config, subscriber.now_ms);
    assert(sent.0.subscriptions == list_after);
}

/// What is asked for together is dealt with one after the other.
pub proof fn subscriptions_are_dealt_with_in_order(
    state: StateView,
    subscriber: Subscriber,
    asked: Seq<SubscriptionView>,
    last: SubscriptionView,
)
    ensures
        subscribed_all(state, subscriber, Seq::empty()) == (SubscribeProgress {
            state,
            reason_codes: Seq::empty(),
            sent: Seq::empty(),
            inserted: 0,
        }),
        subscribed_all(state, subscriber, asked.push(last)) == subscribed_one(
            subscribed_all(state, subscriber, asked),
            subscriber,
            last,
        ),
{
    assert(asked.push(last).drop_last() =~= asked);
}

/// A packet that asks for subscriptions is answered under its identifier with as many codes as it
/// asks for subscriptions; its subscriptions all bear the identifier that its first property of
/// that kind gives. From a connection without a client all are refused. What the client is said to
/// hold grows by what it did not hold before.
pub proof fn subscribing_is_answered(
    state: StateView,
    rules: AuthConfig,
    config: BrokerConfig,
    connection_id: u64,
    packet: SubscribeView,
    now_ms: u64,
    index: int,
)
    requires
        0 <= index <= packet.properties.len(),
        forall|i: int|
            0 <= i < index ==> !((#[trigger] packet.properties[i]) is SubscriptionIdentifier),
        index < packet.properties.len() ==> packet.properties[index] is SubscriptionIdentifier,
    ensures
        ({
            let (after, answer, sent) = subscribed(
                state,
                rules,
                config,
                connection_id,
                packet,
                now_ms,
            );
            let identifier = if index < packet.properties.len() {
                match packet.properties[index] {
                    PropertyView::SubscriptionIdentifier(number) => Some(number),
                    _ => None,
                }
            } else {
                None
            };
            let subscriber = Subscriber {
                client: state.clients[connection_id],
                rules,
                config,
                subscription_identifier: identifier,
                now_ms,
            };
            let progress = subscribed_all(state, subscriber, packet.subscriptions);
            &&& answer.packet_id == packet.packet_id
            &&& answer.reason_codes.len() == packet.subscriptions.len()
            &&& !state.clients.dom().contains(connection_id) ==> {
                &&& after == state
                &&& sent.len() == 0
                &&& answer.properties.len() == 0
                &&& forall|i: int|
                    0 <= i < answer.reason_codes.len() ==> #[trigger] answer.reason_codes[i] == 0x80
            }
            &&& state.clients.dom().contains(connection_id) ==> {
                &&& answer.reason_codes == progress.reason_codes
                &&& sent == progress.sent
                &&& after == (StateView { clients: after.clients, ..progress.state })
                &&& after.clients == progress.state.clients.insert(
                    connection_id,
                    ClientEntryView {
                        subscription_count: (state.clients[connection_id].subscription_count
                            + progress.inserted) as usize,
                        ..state.clients[connection_id]
                    },
                )
            }
        }),
{
    first_property_counts(packet.properties, subscription_identifier_in(), index);
    if state.clients.dom().contains(connection_id) {
        let subscriber = Subscriber {
            client: state.clients[connection_id],
            rules,
            config,
            subscription_identifier: first_of(packet.properties, subscription_identifier_in()),
            now_ms,
        };
        subscribing_leaves_clients(state, subscriber, packet.subscriptions);
    }
}

/// Subscribing changes nothing of who is connected, and gives a code for each subscription.
proof fn subscribing_leaves_clients(
    state: StateView,
    subscriber: Subscriber,
    asked: Seq<SubscriptionView>,
)
    ensures
        subscribed_all(state, subscriber, asked).state.clients == state.clients,
        subscribed_all(state, subscriber, asked).reason_codes.len() == asked.len(),
    decreases asked.len(),
{
    if asked.len() > 0 {
        subscribing_leaves_clients(state, subscriber, asked.drop_last());
    }
}

/// The first code of a list that has a text is explained.
pub proof fn first_fault_is_explained(codes: Seq<u8>, index: int)
    requires
        0 <= index <= codes.len(),
        forall|i: int| 0 <= i < index ==> reason_properties_of(#[trigger] codes[i]).len() == 0,
        index < codes.len() ==> reason_properties_of(codes[index]).len() > 0,
    ensures
        first_reason(codes) == (if index < codes.len() {
            reason_properties_of(codes[index])
        } else {
            Seq::empty()
        }),
    decreases codes.len(),
{
    if codes.len() > 0 && index > 0 {
        let rest = codes.drop_first();
        assert(reason_properties_of(codes[0]).len() == 0);
        assert forall|i: int| 0 <= i < index - 1 implies reason_properties_of(
            #[trigger] rest[i],
        ).len() == 0 by {
            assert(rest[i] == codes[i + 1]);
        }
        first_fault_is_explained(rest, index - 1);
    }
}

/// What is unsubscribed from is gone and nothing else is; what the client is said to hold shrinks
/// by as much. A connection without a client changes nothing.
pub proof fn unsubscribing_takes_its_own(
    state: StateView,
    connection_id: u64,
    filters: Seq<Seq<char>>,
)
    ensures
        ({
            let after = unsubscribed(state, connection_id, filters);
            let client = state.clients[connection_id];
            &&& !state.clients.dom().contains(connection_id) ==> after == state
            &&& state.clients.dom().contains(connection_id) ==> {
                let gone = state.subscriptions.len() - after.subscriptions.len();
                &&& forall|entry: EntryView| #[trigger]
                    after.subscriptions.contains(entry) <==> state.subscriptions.contains(entry)
                        && !(entry.client_id == client.client_id && filters.contains(entry.filter))
                &&& after == (StateView {
                    subscriptions: after.subscriptions,
                    clients: after.clients,
                    client_changes: after.client_changes,
                    ..state
                })
                &&& after.clients == state.clients.insert(
                    connection_id,
                    ClientEntryView {
                        subscription_count: if client.subscription_count >= gone {
                            (client.subscription_count - gone) as usize
                        } else {
                            0
                        },
                        ..client
                    },
                )
            }
        }),
{
    if state.clients.dom().contains(connection_id) {
        let client = state.clients[connection_id];
        let left = without_all_held(state.subscriptions, client.client_id, filters);
        let after = unsubscribed(state, connection_id, filters);
        assert forall|entry: EntryView| #[trigger] after.subscriptions.contains(entry)
            <==> state.subscriptions.contains(entry) && !(entry.client_id == client.client_id
            && filters.contains(entry.filter)) by {
            unsubscribed_entries(state.subscriptions, client.client_id, filters, entry);
        }
        unsubscribed_are_no_more(state.subscriptions, client.client_id, filters);
        if state.subscriptions.len() == left.len() {
            assert(after.clients =~= state.clients.insert(connection_id, client));
        }
    }
}

proof fn unsubscribed_entries(
    subscriptions: Seq<EntryView>,
    client_id: Seq<char>,
    filters: Seq<Seq<char>>,
    entry: EntryView,
)
    ensures
        without_all_held(subscriptions, client_id, filters).contains(entry)
            <==> subscriptions.contains(entry) && !(entry.client_id == client_id
            && filters.contains(entry.filter)),
    decreases filters.len(),
{
    if filters.len() > 0 {
        let front = filters.drop_last();
        let last = filters.last();
        let before = without_all_held(subscriptions, client_id, front);
        unsubscribed_entries(subscriptions, client_id, front, entry);
        filter_holds(before, |entry: EntryView| !is_held(entry, client_id, last), entry);
        assert(filters.contains(entry.filter) <==> front.contains(entry.filter) || entry.filter
            == last) by {
            if front.contains(entry.filter) {
                let i = choose|i: int| 0 <= i < front.len() && front[i] == entry.filter;
                assert(filters[i] == entry.filter);
            }
            if filters.contains(entry.filter) {
                let i = choose|i: int| 0 <= i < filters.len() && filters[i] == entry.filter;
                if i < front.len() {
                    assert(front[i] == entry.filter);
                }
            }
            assert(filters[filters.len() - 1] == last);
        }
    }
}

proof fn unsubscribed_are_no_more(
    subscriptions: Seq<EntryView>,
    client_id: Seq<char>,
    filters: Seq<Seq<char>>,
)
    ensures
        without_all_held(subscriptions, client_id, filters).len() <= subscriptions.len(),
    decreases filters.len(),
{
    if filters.len() > 0 {
        let before = without_all_held(subscriptions, client_id, filters.drop_last());
        unsubscribed_are_no_more(subscriptions, client_id, filters.drop_last());
        before.filter_lemma(|entry: EntryView| !is_held(entry, client_id, filters.last()));
    }
}

} // verus!
