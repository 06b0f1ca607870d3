//! How many subscriptions clients hold.
use vstd::prelude::*;

use crate::auth::AuthConfig;
use crate::auth::subscribe_allowed;
use crate::broker::SubscribeProgress;
use crate::broker::Subscriber;
use crate::broker::attached;
use crate::broker::connected;
use crate::broker::disconnected;
use crate::broker::held_count;
use crate::broker::held_position;
use crate::broker::publication;
use crate::broker::started;
use crate::broker::subscribed;
use crate::broker::subscribed_all;
use crate::broker::subscribed_one;
use crate::broker::unsubscribed;
use crate::broker::without_all_held;
use crate::config::BrokerConfig;
use crate::connection::ConnectOptions;
use crate::connection::first_of;
use crate::connection::subscription_identifier_in;
use crate::delivery::after_retain;
use crate::delivery::served;
use crate::packet::PublishView;
use crate::packet::SubscribeView;
use crate::packet::SubscriptionView;
use crate::packet::WillView;
use crate::protocol::valid_topic_filter;
use crate::routing::publisher_of;
use crate::routing::routed_all;
use crate::routing::wanting;
use crate::session::StateView;
use crate::session::session_expired;
use crate::session::without_expired;
use crate::state_laws::counts_agree;
use crate::state_laws::expiring_keeps_basics;
use crate::state_laws::filtered_from;
use crate::state_laws::one_each;
use crate::state_laws::state_sound;
use crate::storage::delta::lookup;
use crate::subscription::EntryView;
use crate::subscription::entry_for;
use crate::subscription::is_held;
use crate::subscription::subscription_position_is_first;

verus! {

/// A client holds no more subscriptions than there are.
pub proof fn held_bounded(subscriptions: Seq<EntryView>, client_id: Seq<char>)
    ensures
        held_count(subscriptions, client_id) <= subscriptions.len(),
    decreases subscriptions.len(),
{
    if subscriptions.len() > 0 {
        held_bounded(subscriptions.drop_last(), client_id);
    }
}

/// A client that is said to hold no subscription holds none.
proof fn none_held(subscriptions: Seq<EntryView>, client_id: Seq<char>, index: int)
    requires
        held_count(subscriptions, client_id) == 0,
        0 <= index < subscriptions.len(),
    ensures
        subscriptions[index].client_id != client_id,
    decreases subscriptions.len(),
{
    if index < subscriptions.len() - 1 {
        none_held(subscriptions.drop_last(), client_id, index);
    }
}

/// One more subscription counts for the client that holds it.
proof fn held_after_push(subscriptions: Seq<EntryView>, entry: EntryView, client_id: Seq<char>)
    ensures
        held_count(subscriptions.push(entry), client_id) == held_count(subscriptions, client_id)
            + if entry.client_id == client_id {
            1nat
        } else {
            0nat
        },
{
    assert(subscriptions.push(entry).drop_last() =~= subscriptions);
}

/// A subscription in the place of another one of the same client does not count.
proof fn held_after_update(
    subscriptions: Seq<EntryView>,
    index: int,
    entry: EntryView,
    client_id: Seq<char>,
)
    requires
        0 <= index < subscriptions.len(),
        subscriptions[index].client_id == entry.client_id,
    ensures
        held_count(subscriptions.update(index, entry), client_id) == held_count(
            subscriptions,
            client_id,
        ),
    decreases subscriptions.len(),
{
    let after = subscriptions.update(index, entry);
    let front = subscriptions.drop_last();
    if index < front.len() {
        held_after_update(front, index, entry, client_id);
        assert(after.drop_last() =~= front.update(index, entry));
        assert(after.last() == subscriptions.last());
    } else {
        assert(after.drop_last() =~= front);
    }
}

/// What is dropped of a list counts for the clients that held it; where all that is dropped is one
/// client's, that client holds as many fewer as the list is shorter.
proof fn held_after_filter(
    subscriptions: Seq<EntryView>,
    keep: spec_fn(EntryView) -> bool,
    client_id: Seq<char>,
)
    ensures
        ({
            let left = subscriptions.filter(keep);
            &&& (forall|entry: EntryView| entry.client_id == client_id ==> #[trigger] keep(entry))
                ==> held_count(left, client_id) == held_count(subscriptions, client_id)
            &&& (forall|entry: EntryView| entry.client_id != client_id ==> #[trigger] keep(entry))
                ==> held_count(left, client_id) + (subscriptions.len() - left.len())
                == held_count(subscriptions, client_id)
            &&& left.len() <= subscriptions.len()
        }),
    decreases subscriptions.len(),
{
    reveal(Seq::filter);
    if subscriptions.len() > 0 {
        let front = subscriptions.drop_last();
        let last = subscriptions.last();
        held_after_filter(front, keep, client_id);
        if keep(last) {
            assert(subscriptions.filter(keep) =~= front.filter(keep).push(last));
            held_after_push(front.filter(keep), last, client_id);
        } else {
            assert(subscriptions.filter(keep) =~= front.filter(keep));
        }
    } else {
        assert(subscriptions.filter(keep) =~= subscriptions);
    }
}

/// Where some are dropped still no client holds two under one filter.
proof fn one_each_after_filter(
    subscriptions: Seq<EntryView>,
    keep: spec_fn(EntryView) -> bool,
)
    requires
        one_each(subscriptions),
    ensures
        one_each(subscriptions.filter(keep)),
    decreases subscriptions.len(),
{
    reveal(Seq::filter);
    if subscriptions.len() > 0 {
        let front = subscriptions.drop_last();
        let last = subscriptions.last();
        let kept = front.filter(keep);
        let left = subscriptions.filter(keep);
        assert forall|i: int, j: int|
            #![trigger front[i], front[j]]
            0 <= i < j < front.len() implies !is_held(
            front[j],
            front[i].client_id,
            front[i].filter,
        ) by {
            assert(!is_held(
                subscriptions[j],
                subscriptions[i].client_id,
                subscriptions[i].filter,
            ));
        }
        one_each_after_filter(front, keep);
        if keep(last) {
            assert(left =~= kept.push(last));
            assert forall|i: int, j: int|
                #![trigger left[i], left[j]]
                0 <= i < j < left.len() implies !is_held(
                left[j],
                left[i].client_id,
                left[i].filter,
            ) by {
                assert(left[i] == kept[i]);
                if j < kept.len() {
                    assert(left[j] == kept[j]);
                } else {
                    filtered_from(front, keep, i);
                    let k = choose|k: int| 0 <= k < front.len() && front[k] == kept[i];
                    assert(subscriptions[k] == kept[i]);
                    assert(subscriptions[subscriptions.len() - 1] == last);
                }
            }
        } else {
            assert(left =~= kept);
        }
    } else {
        assert(subscriptions.filter(keep) =~= subscriptions);
    }
}

/// What neither subscribes nor connects keeps the counts.
pub proof fn counts_unmoved(before: StateView, after: StateView)
    requires
        counts_agree(before),
        after.subscriptions == before.subscriptions,
        forall|c: u64| #[trigger]
            after.clients.dom().contains(c) ==> before.clients.dom().contains(c)
                && after.clients[c].client_id == before.clients[c].client_id
                && after.clients[c].subscription_count == before.clients[c].subscription_count,
    ensures
        counts_agree(after),
{
    assert forall|c: u64| #[trigger] after.clients.dom().contains(c) implies
        after.clients[c].subscription_count as nat == held_count(
        after.subscriptions,
        after.clients[c].client_id,
    ) by {
        assert(before.clients.dom().contains(c));
    }
}

/// Dropping the sessions that have expired keeps the counts.
pub proof fn expiring_keeps_counts(state: StateView, now_ms: u64)
    requires
        state_sound(state),
    ensures
        counts_agree(without_expired(state, now_ms)),
{
    let after = without_expired(state, now_ms);
    let keep = |entry: EntryView| !session_expired(state, entry.client_id, now_ms);
    one_each_after_filter(state.subscriptions, keep);
    assert forall|c: u64| #[trigger] after.clients.dom().contains(c) implies
        after.clients[c].subscription_count as nat == held_count(
        after.subscriptions,
        after.clients[c].client_id,
    ) by {
        let client_id = state.clients[c].client_id;
        assert(state.clients.dom().contains(c));
        assert(state.connections.dom().contains(client_id));
        assert forall|entry: EntryView| entry.client_id == client_id implies #[trigger] keep(
            entry,
        ) by {}
        held_after_filter(state.subscriptions, keep, client_id);
    }
}

/// A client that is gone keeps the counts.
pub proof fn disconnecting_keeps_counts(state: StateView, connection_id: u64, now_ms: u64)
    requires
        state_sound(state),
    ensures
        counts_agree(disconnected(state, connection_id, now_ms)),
{
    let after = disconnected(state, connection_id, now_ms);
    if state.clients.dom().contains(connection_id) {
        let client = state.clients[connection_id];
        let keep = |entry: EntryView| entry.client_id != client.client_id;
        if client.session_expiry_interval == 0 {
            assert(after.subscriptions == state.subscriptions.filter(keep));
            one_each_after_filter(state.subscriptions, keep);
            assert forall|c: u64| #[trigger] after.clients.dom().contains(c) implies
                after.clients[c].subscription_count as nat == held_count(
                after.subscriptions,
                after.clients[c].client_id,
            ) by {
                assert(state.clients.dom().contains(c));
                let other = state.clients[c].client_id;
                assert(lookup(state.connections, other) == Some(c));
                assert(other != client.client_id);
                held_after_filter(state.subscriptions, keep, other);
            }
        } else {
            counts_unmoved(state, after);
        }
    }
}

/// A client that connects anew over a connection that nobody uses keeps the counts.
pub proof fn connecting_keeps_counts(
    state: StateView,
    connection_id: u64,
    client_id: Seq<char>,
    will: Option<WillView>,
    principal: Option<Seq<char>>,
    options: ConnectOptions,
    now_ms: u64,
)
    requires
        state_sound(state),
        state.subscriptions.len() <= usize::MAX,
        !state.clients.dom().contains(connection_id),
    ensures
        counts_agree(
            connected(
                state,
                connection_id,
                client_id,
                will,
                principal,
                options,
                now_ms,
            ).0,
        ),
{
    let live = without_expired(state, now_ms);
    expiring_keeps_basics(state, now_ms);
    expiring_keeps_counts(state, now_ms);
    let lasting = |entry: EntryView| !session_expired(state, entry.client_id, now_ms);
    held_after_filter(state.subscriptions, lasting, client_id);
    let first = started(live, client_id, options.clean_start);
    let begun = attached(first, client_id, connection_id, now_ms);
    let keep = |entry: EntryView| entry.client_id != client_id;
    one_each_after_filter(live.subscriptions, keep);
    held_after_filter(live.subscriptions, keep, client_id);
    let after = connected(
        state,
        connection_id,
        client_id,
        will,
        principal,
        options,
        now_ms,
    ).0;
    held_bounded(begun.subscriptions, client_id);
    assert(begun.subscriptions == first.subscriptions);
    assert(after.subscriptions == first.subscriptions);
    assert(first.subscriptions.len() <= usize::MAX);
    assert forall|c: u64| #[trigger] after.clients.dom().contains(c) implies
        after.clients[c].subscription_count as nat == held_count(
        after.subscriptions,
        after.clients[c].client_id,
    ) by {
        if c != connection_id {
            assert(begun.clients.dom().contains(c));
            assert(live.clients.dom().contains(c));
            let other = live.clients[c].client_id;
            assert(lookup(live.connections, other) == Some(c));
            assert(other != client_id);
            held_after_filter(live.subscriptions, keep, other);
        }
    }
}

/// How far a SUBSCRIBE packet has been worked off agrees with what its client holds.
spec fn progress_agrees(
    state: StateView,
    subscriber: Subscriber,
    progress: SubscribeProgress,
) -> bool {
    let client = subscriber.client;
    let known = client.subscription_count as nat + progress.inserted;
    &&& progress.state.clients == state.clients
    &&& one_each(progress.state.subscriptions)
    &&& known == held_count(progress.state.subscriptions, client.client_id)
    &&& known <= client.subscription_count || known
        <= subscriber.config.max_subscriptions_per_client
    &&& forall|other: Seq<char>|
        other != client.client_id ==> #[trigger] held_count(progress.state.subscriptions, other)
            == held_count(state.subscriptions, other)
}

/// Working off one requested subscription keeps that.
proof fn subscribing_one_agrees(
    state: StateView,
    progress: SubscribeProgress,
    subscriber: Subscriber,
    subscription: SubscriptionView,
)
    requires
        progress_agrees(state, subscriber, progress),
    ensures
        progress_agrees(state, subscriber, subscribed_one(progress, subscriber, subscription)),
{
    let client = subscriber.client;
    let before = progress.state.subscriptions;
    let filter = subscription.topic_filter;
    let next = subscribed_one(progress, subscriber, subscription);
    let after = next.state.subscriptions;
    let known = client.subscription_count as nat + progress.inserted;
    let existing = held_position(before, client.client_id, filter, known);
    let entry = entry_for(client.client_id, subscription, subscriber.subscription_identifier);
    subscription_position_is_first(before, client.client_id, filter);
    if valid_topic_filter(filter) && subscribe_allowed(
        subscriber.rules,
        client.principal,
        filter,
    ) && !(existing is None && known >= subscriber.config.max_subscriptions_per_client) {
        match existing {
            Some(index) => {
                assert(after == before.update(index, entry));
                assert forall|i: int, j: int|
                    #![trigger after[i], after[j]]
                    0 <= i < j < after.len() implies !is_held(
                    after[j],
                    after[i].client_id,
                    after[i].filter,
                ) by {
                    assert(!is_held(before[j], before[i].client_id, before[i].filter));
                }
                held_after_update(before, index, entry, client.client_id);
                assert forall|other: Seq<char>| other != client.client_id implies #[trigger]
                    held_count(after, other) == held_count(state.subscriptions, other) by {
                    held_after_update(before, index, entry, other);
                    assert(held_count(before, other) == held_count(state.subscriptions, other));
                }
            },
            None => {
                assert(after == before.push(entry));
                assert forall|i: int, j: int|
                    #![trigger after[i], after[j]]
                    0 <= i < j < after.len() implies !is_held(
                    after[j],
                    after[i].client_id,
                    after[i].filter,
                ) by {
                    assert(after[i] == before[i]);
                    if j < before.len() {
                        assert(after[j] == before[j]);
                    } else if known == 0 {
                        none_held(before, client.client_id, i);
                    } else {
                        assert(!is_held(before[i], client.client_id, filter));
                    }
                }
                held_after_push(before, entry, client.client_id);
                assert forall|other: Seq<char>| other != client.client_id implies #[trigger]
                    held_count(after, other) == held_count(state.subscriptions, other) by {
                    held_after_push(before, entry, other);
                    assert(held_count(before, other) == held_count(state.subscriptions, other));
                }
            },
        }
    } else {
        assert(next.state == progress.state);
        assert(next.inserted == progress.inserted);
    }
}

/// Working off some requested subscriptions keeps that.
proof fn subscribing_all_agrees(
    state: StateView,
    subscriber: Subscriber,
    subscriptions: Seq<SubscriptionView>,
)
    requires
        one_each(state.subscriptions),
        subscriber.client.subscription_count as nat == held_count(
            state.subscriptions,
            subscriber.client.client_id,
        ),
    ensures
        progress_agrees(state, subscriber, subscribed_all(state, subscriber, subscriptions)),
    decreases subscriptions.len(),
{
    if subscriptions.len() > 0 {
        let front = subscriptions.drop_last();
        subscribing_all_agrees(state, subscriber, front);
        subscribing_one_agrees(
            state,
            subscribed_all(state, subscriber, front),
            subscriber,
            subscriptions.last(),
        );
    }
}

/// A SUBSCRIBE packet keeps the counts, and its client then holds no more subscriptions than it
/// may, unless it held more before.
pub proof fn subscribing_keeps_counts(
    state: StateView,
    rules: AuthConfig,
    config: BrokerConfig,
    connection_id: u64,
    packet: SubscribeView,
    now_ms: u64,
)
    requires
        state_sound(state),
    ensures
        ({
            let after = subscribed(state, rules, config, connection_id, packet, now_ms).0;
            &&& counts_agree(after)
            &&& state.clients.dom().contains(connection_id) ==> {
                let client_id = state.clients[connection_id].client_id;
                let held = held_count(after.subscriptions, client_id);
                held <= config.max_subscriptions_per_client || held <= held_count(
                    state.subscriptions,
                    client_id,
                )
            }
        }),
{
    if let Some(client) = lookup(state.clients, connection_id) {
        let subscriber = Subscriber {
            client,
            rules,
            config,
            subscription_identifier: first_of(packet.properties, subscription_identifier_in()),
            now_ms,
        };
        subscribing_all_agrees(state, subscriber, packet.subscriptions);
        let progress = subscribed_all(state, subscriber, packet.subscriptions);
        let after = subscribed(state, rules, config, connection_id, packet, now_ms).0;
        assert(after.subscriptions == progress.state.subscriptions);
        assert forall|c: u64| #[trigger] after.clients.dom().contains(c) implies
            after.clients[c].subscription_count as nat == held_count(
            after.subscriptions,
            after.clients[c].client_id,
        ) by {
            assert(state.clients.dom().contains(c));
            if c != connection_id {
                let other = state.clients[c].client_id;
                assert(lookup(state.connections, other) == Some(c));
                assert(other != client.client_id);
                assert(held_count(progress.state.subscriptions, other) == held_count(
                    state.subscriptions,
                    other,
                ));
            }
        }
    }
}

/// A SUBSCRIBE packet leaves its client where it is.
pub proof fn subscribing_moves_no_client(
    state: StateView,
    rules: AuthConfig,
    config: BrokerConfig,
    connection_id: u64,
    packet: SubscribeView,
    now_ms: u64,
)
    requires
        state_sound(state),
        state.clients.dom().contains(connection_id),
    ensures
        ({
            let after = subscribed(state, rules, config, connection_id, packet, now_ms).0;
            lookup(after.clients, connection_id) matches Some(client) && client.client_id
                == state.clients[connection_id].client_id
        }),
{
    let subscriber = Subscriber {
        client: state.clients[connection_id],
        rules,
        config,
        subscription_identifier: first_of(packet.properties, subscription_identifier_in()),
        now_ms,
    };
    subscribing_all_agrees(state, subscriber, packet.subscriptions);
}

/// What an UNSUBSCRIBE packet drops counts for its client.
proof fn dropping_counts(
    subscriptions: Seq<EntryView>,
    client_id: Seq<char>,
    filters: Seq<Seq<char>>,
    other: Seq<char>,
)
    requires
        one_each(subscriptions),
    ensures
        ({
            let left = without_all_held(subscriptions, client_id, filters);
            &&& one_each(left)
            &&& left.len() <= subscriptions.len()
            &&& held_count(left, client_id) + (subscriptions.len() - left.len()) == held_count(
                subscriptions,
                client_id,
            )
            &&& other != client_id ==> held_count(left, other) == held_count(subscriptions, other)
        }),
    decreases filters.len(),
{
    if filters.len() > 0 {
        dropping_counts(subscriptions, client_id, filters.drop_last(), other);
        let before = without_all_held(subscriptions, client_id, filters.drop_last());
        let keep = |entry: EntryView| !is_held(entry, client_id, filters.last());
        one_each_after_filter(before, keep);
        held_after_filter(before, keep, client_id);
        held_after_filter(before, keep, other);
    }
}

/// An UNSUBSCRIBE packet keeps the counts.
pub proof fn unsubscribing_keeps_counts(
    state: StateView,
    connection_id: u64,
    filters: Seq<Seq<char>>,
)
    requires
        state_sound(state),
    ensures
        counts_agree(unsubscribed(state, connection_id, filters)),
{
    if let Some(client) = lookup(state.clients, connection_id) {
        let after = unsubscribed(state, connection_id, filters);
        let left = without_all_held(state.subscriptions, client.client_id, filters);
        dropping_counts(state.subscriptions, client.client_id, filters, client.client_id);
        assert(after.subscriptions == left);
        assert forall|c: u64| #[trigger] after.clients.dom().contains(c) implies
            after.clients[c].subscription_count as nat == held_count(
            after.subscriptions,
            after.clients[c].client_id,
        ) by {
            assert(state.clients.dom().contains(c));
            if c != connection_id {
                let other = state.clients[c].client_id;
                assert(lookup(state.connections, other) == Some(c));
                dropping_counts(state.subscriptions, client.client_id, filters, other);
            }
        }
    }
}

/// Sending a publication for some subscriptions leaves subscriptions and clients as they are.
pub proof fn routing_moves_nothing(
    state: StateView,
    subscriptions: Seq<EntryView>,
    packet: PublishView,
    config: BrokerConfig,
    now_ms: u64,
)
    ensures
        ({
            let after = routed_all(state, subscriptions, packet, config, now_ms).0;
            after.subscriptions == state.subscriptions && after.clients == state.clients
        }),
    decreases subscriptions.len(),
{
    if subscriptions.len() > 0 {
        routing_moves_nothing(state, subscriptions.drop_last(), packet, config, now_ms);
    }
}

/// A publication keeps the counts.
pub proof fn publishing_keeps_counts(
    state: StateView,
    config: BrokerConfig,
    connection_id: u64,
    packet: PublishView,
    now_ms: u64,
)
    requires
        state_sound(state),
    ensures
        counts_agree(publication(state, config, connection_id, packet, now_ms).0),
{
    let live = without_expired(state, now_ms);
    expiring_keeps_counts(state, now_ms);
    let told = after_retain(live, packet, config, now_ms);
    let after = publication(state, config, connection_id, packet, now_ms).0;
    let wanted = wanting(
        told.subscriptions,
        packet.topic_name,
        publisher_of(told, connection_id),
    );
    let chosen = served(told, wanted);
    routing_moves_nothing(chosen.0, chosen.1, packet, config, now_ms);
    counts_unmoved(live, after);
}

} // verus!
