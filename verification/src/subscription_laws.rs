//! What subscribing and unsubscribing come to.
use vstd::prelude::*;

use crate::auth::AuthConfig;
use crate::broker::SubscribeProgress;
use crate::broker::Subscriber;
use crate::broker::held_count;
use crate::broker::held_position;
use crate::broker::subscribed;
use crate::broker::subscribed_all;
use crate::broker::subscribed_one;
use crate::broker::unsubscribed;
use crate::broker::without_all_held;
use crate::config::BrokerConfig;
use crate::connection::first_of;
use crate::connection::subscription_identifier_in;
use crate::count_laws::subscribing_keeps_counts;
use crate::count_laws::subscribing_moves_no_client;
use crate::delivery::DeliveryView;
use crate::packet::SubscribeView;
use crate::packet::SubscriptionView;
use crate::protocol::UNSPECIFIED_ERROR;
use crate::session::StateView;
use crate::state_laws::filtered_from;
use crate::state_laws::one_each;
use crate::state_laws::state_sound;
use crate::storage::delta::lookup;
use crate::subscription::EntryView;
use crate::subscription::entry_for;
use crate::subscription::is_held;
use crate::subscription::subscription_position_is_first;

verus! {

/// A client holds a subscription under a filter.
pub open spec fn holds(
    subscriptions: Seq<EntryView>,
    client_id: Seq<char>,
    filter: Seq<char>,
) -> bool {
    exists|i: int|
        0 <= i < subscriptions.len() && is_held(#[trigger] subscriptions[i], client_id, filter)
}

/// Working off one request changes only the subscription that it asks for, and that one is held
/// where the request is granted.
proof fn subscribing_one_holds(
    progress: SubscribeProgress,
    subscriber: Subscriber,
    subscription: SubscriptionView,
    filter: Seq<char>,
)
    ensures
        ({
            let next = subscribed_one(progress, subscriber, subscription);
            let client_id = subscriber.client.client_id;
            &&& next.reason_codes.len() == progress.reason_codes.len() + 1
            &&& next.reason_codes.drop_last() == progress.reason_codes
            &&& holds(progress.state.subscriptions, client_id, filter) ==> holds(
                next.state.subscriptions,
                client_id,
                filter,
            )
            &&& next.reason_codes.last() < UNSPECIFIED_ERROR ==> next.state.subscriptions.contains(
                entry_for(client_id, subscription, subscriber.subscription_identifier),
            )
            &&& next.reason_codes.last() >= UNSPECIFIED_ERROR ==> next == (SubscribeProgress {
                reason_codes: next.reason_codes,
                ..progress
            })
        }),
{
    let client = subscriber.client;
    let before = progress.state.subscriptions;
    let next = subscribed_one(progress, subscriber, subscription);
    let after = next.state.subscriptions;
    let asked = subscription.topic_filter;
    let known = client.subscription_count as nat + progress.inserted;
    let entry = entry_for(client.client_id, subscription, subscriber.subscription_identifier);
    assert(next.reason_codes.drop_last() =~= progress.reason_codes);
    subscription_position_is_first(before, client.client_id, asked);
    if next.reason_codes.last() < UNSPECIFIED_ERROR {
        match held_position(before, client.client_id, asked, known) {
            Some(index) => {
                assert(after[index] == entry);
            },
            None => {
                assert(after[before.len() as int] == entry);
            },
        }
    }
    if holds(before, client.client_id, filter) {
        let i = choose|i: int|
            0 <= i < before.len() && is_held(#[trigger] before[i], client.client_id, filter);
        assert(is_held(after[i], client.client_id, filter));
    }
}

/// Every request that is granted is held in the end.
proof fn subscribing_all_holds(
    state: StateView,
    subscriber: Subscriber,
    subscriptions: Seq<SubscriptionView>,
    index: int,
)
    requires
        0 <= index < subscriptions.len(),
    ensures
        ({
            let progress = subscribed_all(state, subscriber, subscriptions);
            &&& progress.reason_codes.len() == subscriptions.len()
            &&& progress.reason_codes[index] < UNSPECIFIED_ERROR ==> holds(
                progress.state.subscriptions,
                subscriber.client.client_id,
                subscriptions[index].topic_filter,
            )
        }),
    decreases subscriptions.len(),
{
    let front = subscriptions.drop_last();
    let before = subscribed_all(state, subscriber, front);
    let after = subscribed_all(state, subscriber, subscriptions);
    let filter = subscriptions[index].topic_filter;
    let client_id = subscriber.client.client_id;
    subscribing_one_holds(before, subscriber, subscriptions.last(), filter);
    if index < front.len() {
        subscribing_all_holds(state, subscriber, front, index);
        assert(before.reason_codes[index] == after.reason_codes.drop_last()[index]);
    } else {
        if front.len() > 0 {
            subscribing_all_holds(state, subscriber, front, 0);
        }
        let entry = entry_for(
            client_id,
            subscriptions.last(),
            subscriber.subscription_identifier,
        );
        if after.reason_codes[index] < UNSPECIFIED_ERROR {
            let i = choose|i: int|
                0 <= i < after.state.subscriptions.len() && after.state.subscriptions[i] == entry;
            assert(is_held(after.state.subscriptions[i], client_id, filter));
        }
    }
}

/// A subscription that is granted is held, and the last request of a packet as it was asked for.
pub proof fn granted_subscription_is_held(
    state: StateView,
    rules: AuthConfig,
    config: BrokerConfig,
    connection_id: u64,
    packet: SubscribeView,
    now_ms: u64,
    index: int,
)
    requires
        state.clients.dom().contains(connection_id),
        0 <= index < packet.subscriptions.len(),
    ensures
        ({
            let outcome = subscribed(state, rules, config, connection_id, packet, now_ms);
            let client_id = state.clients[connection_id].client_id;
            &&& outcome.1.reason_codes.len() == packet.subscriptions.len()
            &&& outcome.1.reason_codes[index] < UNSPECIFIED_ERROR ==> {
                &&& holds(
                    outcome.0.subscriptions,
                    client_id,
                    packet.subscriptions[index].topic_filter,
                )
                &&& index == packet.subscriptions.len() - 1 ==> outcome.0.subscriptions.contains(
                    entry_for(
                        client_id,
                        packet.subscriptions[index],
                        first_of(packet.properties, subscription_identifier_in()),
                    ),
                )
            }
        }),
{
    let subscriber = Subscriber {
        client: state.clients[connection_id],
        rules,
        config,
        subscription_identifier: first_of(packet.properties, subscription_identifier_in()),
        now_ms,
    };
    subscribing_all_holds(state, subscriber, packet.subscriptions, index);
    subscribing_one_holds(
        subscribed_all(state, subscriber, packet.subscriptions.drop_last()),
        subscriber,
        packet.subscriptions.last(),
        packet.subscriptions[index].topic_filter,
    );
}

/// Requests that are refused leave nothing behind.
proof fn refusals_change_nothing(
    state: StateView,
    subscriber: Subscriber,
    subscriptions: Seq<SubscriptionView>,
)
    requires
        forall|i: int|
            0 <= i < subscribed_all(state, subscriber, subscriptions).reason_codes.len()
                ==> #[trigger] subscribed_all(state, subscriber, subscriptions).reason_codes[i]
                >= UNSPECIFIED_ERROR,
    ensures
        subscribed_all(state, subscriber, subscriptions).state == state,
        subscribed_all(state, subscriber, subscriptions).sent == Seq::<DeliveryView>::empty(),
        subscribed_all(state, subscriber, subscriptions).inserted == 0,
    decreases subscriptions.len(),
{
    if subscriptions.len() > 0 {
        let front = subscriptions.drop_last();
        let before = subscribed_all(state, subscriber, front);
        let after = subscribed_all(state, subscriber, subscriptions);
        subscribing_one_holds(before, subscriber, subscriptions.last(), Seq::empty());
        assert forall|i: int| 0 <= i < before.reason_codes.len() implies #[trigger]
            before.reason_codes[i] >= UNSPECIFIED_ERROR by {
            assert(before.reason_codes[i] == after.reason_codes.drop_last()[i]);
            assert(after.reason_codes[i] >= UNSPECIFIED_ERROR);
        }
        refusals_change_nothing(state, subscriber, front);
        assert(after.reason_codes[after.reason_codes.len() - 1] >= UNSPECIFIED_ERROR);
    }
}

/// A SUBSCRIBE packet of which every request is refused changes no subscription and nothing that is
/// kept for clients, and nothing is sent for it.
pub proof fn refused_subscription_is_not_held(
    state: StateView,
    rules: AuthConfig,
    config: BrokerConfig,
    connection_id: u64,
    packet: SubscribeView,
    now_ms: u64,
)
    requires
        forall|i: int|
            0 <= i < packet.subscriptions.len() ==> #[trigger] subscribed(
                state,
                rules,
                config,
                connection_id,
                packet,
                now_ms,
            ).1.reason_codes[i] >= UNSPECIFIED_ERROR,
    ensures
        ({
            let outcome = subscribed(state, rules, config, connection_id, packet, now_ms);
            &&& outcome.0 == state
            &&& outcome.2 == Seq::<DeliveryView>::empty()
        }),
{
    if state.clients.dom().contains(connection_id) {
        let client = state.clients[connection_id];
        let subscriber = Subscriber {
            client,
            rules,
            config,
            subscription_identifier: first_of(packet.properties, subscription_identifier_in()),
            now_ms,
        };
        let outcome = subscribed(state, rules, config, connection_id, packet, now_ms);
        if packet.subscriptions.len() > 0 {
            subscribing_all_holds(state, subscriber, packet.subscriptions, 0);
        }
        let progress = subscribed_all(state, subscriber, packet.subscriptions);
        assert forall|i: int| 0 <= i < progress.reason_codes.len() implies #[trigger]
            progress.reason_codes[i] >= UNSPECIFIED_ERROR by {
            assert(outcome.1.reason_codes[i] >= UNSPECIFIED_ERROR);
        }
        refusals_change_nothing(state, subscriber, packet.subscriptions);
        assert(state.clients.insert(connection_id, client) =~= state.clients);
    }
}

/// What was taken out stays out while more is taken out.
proof fn taken_out_stays_out(
    subscriptions: Seq<EntryView>,
    client_id: Seq<char>,
    filters: Seq<Seq<char>>,
    index: int,
)
    requires
        0 <= index < filters.len(),
    ensures
        !holds(
            without_all_held(subscriptions, client_id, filters),
            client_id,
            filters[index],
        ),
    decreases filters.len(),
{
    let front = without_all_held(subscriptions, client_id, filters.drop_last());
    let left = without_all_held(subscriptions, client_id, filters);
    let keep = |entry: EntryView| !is_held(entry, client_id, filters.last());
    if index < filters.len() - 1 {
        taken_out_stays_out(subscriptions, client_id, filters.drop_last(), index);
    }
    if holds(left, client_id, filters[index]) {
        let i = choose|i: int|
            0 <= i < left.len() && is_held(#[trigger] left[i], client_id, filters[index]);
        filtered_from(front, keep, i);
        let j = choose|j: int| 0 <= j < front.len() && front[j] == left[i];
        assert(is_held(front[j], client_id, filters[index]));
    }
}

/// After a client has unsubscribed from some filters it holds no subscription under any of them.
pub proof fn unsubscribed_filter_is_gone(
    state: StateView,
    connection_id: u64,
    filters: Seq<Seq<char>>,
    index: int,
)
    requires
        state.clients.dom().contains(connection_id),
        0 <= index < filters.len(),
    ensures
        !holds(
            unsubscribed(state, connection_id, filters).subscriptions,
            state.clients[connection_id].client_id,
            filters[index],
        ),
{
    taken_out_stays_out(
        state.subscriptions,
        state.clients[connection_id].client_id,
        filters,
        index,
    );
}

/// However a client subscribes, it holds no more subscriptions than it may, unless it held more
/// before; and none of them twice under one filter.
pub proof fn quota_is_kept(
    state: StateView,
    rules: AuthConfig,
    config: BrokerConfig,
    connection_id: u64,
    packet: SubscribeView,
    now_ms: u64,
)
    requires
        state_sound(state),
        state.clients.dom().contains(connection_id),
    ensures
        ({
            let after = subscribed(state, rules, config, connection_id, packet, now_ms).0;
            let client_id = state.clients[connection_id].client_id;
            let held = held_count(after.subscriptions, client_id);
            &&& held <= config.max_subscriptions_per_client || held <= held_count(
                state.subscriptions,
                client_id,
            )
            &&& one_each(after.subscriptions)
            &&& lookup(after.clients, connection_id) matches Some(client)
                && client.subscription_count as nat == held
        }),
{
    subscribing_keeps_counts(state, rules, config, connection_id, packet, now_ms);
    let after = subscribed(state, rules, config, connection_id, packet, now_ms).0;
    subscribing_moves_no_client(state, rules, config, connection_id, packet, now_ms);
    assert(after.clients.dom().contains(connection_id));
}

} // verus!
