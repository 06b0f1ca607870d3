//! Subscriptions of clients.
use vstd::prelude::*;

use crate::packet::Subscription;
use crate::packet::SubscriptionOptions;
use crate::packet::SubscriptionView;
use crate::protocol::match_filter;
use crate::protocol::match_filter_of;
use crate::protocol::shared_group;
use crate::protocol::shared_subscription_group;
use crate::text::str_eq;
use crate::value::Value;

verus! {

/// A subscription that a client holds.
#[derive(Debug, PartialEq)]
pub struct SubscriptionEntry {
    pub client_id: String,
    pub filter: String,
    pub match_filter: String,
    pub shared_group: Option<String>,
    pub options: SubscriptionOptions,
    pub subscription_identifier: Option<u32>,
}

/// What a `SubscriptionEntry` stands for.
pub struct EntryView {
    pub client_id: Seq<char>,
    pub filter: Seq<char>,
    pub match_filter: Seq<char>,
    pub shared_group: Option<Seq<char>>,
    pub options: SubscriptionOptions,
    pub subscription_identifier: Option<u32>,
}

impl DeepView for SubscriptionEntry {
    type V = EntryView;

    open spec fn deep_view(&self) -> EntryView {
        EntryView {
            client_id: self.client_id.deep_view(),
            filter: self.filter.deep_view(),
            match_filter: self.match_filter.deep_view(),
            shared_group: self.shared_group.deep_view(),
            options: self.options.deep_view(),
            subscription_identifier: self.subscription_identifier.deep_view(),
        }
    }
}

impl Value for SubscriptionEntry {
    fn dup(&self) -> (copy: Self) {
        SubscriptionEntry {
            client_id: self.client_id.dup(),
            filter: self.filter.dup(),
            match_filter: self.match_filter.dup(),
            shared_group: self.shared_group.dup(),
            options: self.options.dup(),
            subscription_identifier: self.subscription_identifier.dup(),
        }
    }

    fn same(&self, other: &Self) -> (result: bool) {
        self.client_id.same(&other.client_id)
            && self.filter.same(&other.filter)
            && self.match_filter.same(&other.match_filter)
            && self.shared_group.same(&other.shared_group)
            && self.options.same(&other.options)
            && self.subscription_identifier.same(&other.subscription_identifier)
    }
}

/// The subscription that a client's request asks for.
pub open spec fn entry_for(
    client_id: Seq<char>,
    subscription: SubscriptionView,
    subscription_identifier: Option<u32>,
) -> EntryView {
    EntryView {
        client_id,
        filter: subscription.topic_filter,
        match_filter: match_filter_of(subscription.topic_filter),
        shared_group: shared_group(subscription.topic_filter),
        options: subscription.options,
        subscription_identifier,
    }
}

/// The subscription is the one that a client holds under a filter.
pub open spec fn is_held(entry: EntryView, client_id: Seq<char>, filter: Seq<char>) -> bool {
    entry.client_id == client_id && entry.filter == filter
}

/// The first position of a client's subscription under a filter.
pub open spec fn subscription_position(
    entries: Seq<EntryView>,
    client_id: Seq<char>,
    filter: Seq<char>,
) -> Option<int>
    decreases entries.len(),
{
    if entries.len() == 0 {
        None
    } else {
        match subscription_position(entries.drop_last(), client_id, filter) {
            Some(index) => Some(index),
            None => if is_held(entries.last(), client_id, filter) {
                Some(entries.len() - 1)
            } else {
                None
            },
        }
    }
}

/// The position is the first of its kind.
pub proof fn subscription_position_is_first(
    entries: Seq<EntryView>,
    client_id: Seq<char>,
    filter: Seq<char>,
)
    ensures
        match subscription_position(entries, client_id, filter) {
            Some(index) => 0 <= index < entries.len() && is_held(entries[index], client_id, filter)
                && forall|i: int|
                0 <= i < index ==> !is_held(#[trigger] entries[i], client_id, filter),
            None => forall|i: int|
                0 <= i < entries.len() ==> !is_held(#[trigger] entries[i], client_id, filter),
        },
    decreases entries.len(),
{
    if entries.len() > 0 {
        let front = entries.drop_last();
        subscription_position_is_first(front, client_id, filter);
        assert forall|i: int| 0 <= i < front.len() implies front[i] == entries[i] by {}
    }
}

/// The subscriptions after a request: the one under the same filter replaced, or a new one at the
/// end.
pub open spec fn upserted(
    entries: Seq<EntryView>,
    client_id: Seq<char>,
    subscription: SubscriptionView,
    subscription_identifier: Option<u32>,
) -> Seq<EntryView> {
    let entry = entry_for(client_id, subscription, subscription_identifier);
    match subscription_position(entries, client_id, subscription.topic_filter) {
        Some(index) => entries.update(index, entry),
        None => entries.push(entry),
    }
}

/// The position of a client's subscription under a filter.
pub fn find_subscription(
    subscriptions: &Vec<SubscriptionEntry>,
    client_id: &str,
    filter: &str,
) -> (result: Option<usize>)
    ensures
        match result {
            Some(index) => subscription_position(
                subscriptions.deep_view(),
                client_id@,
                filter@,
            ) == Some(index as int) && index < subscriptions.len(),
            None => subscription_position(subscriptions.deep_view(), client_id@, filter@) is None,
        },
{
    let ghost entries = subscriptions.deep_view();
    let mut index: usize = 0;
    while index < subscriptions.len()
        invariant
            index <= subscriptions.len(),
            entries == subscriptions.deep_view(),
            subscription_position(entries.take(index as int), client_id@, filter@) is None,
        decreases subscriptions.len() - index,
    {
        let entry: &SubscriptionEntry = &subscriptions[index];
        assert(entries[index as int] == entry.deep_view());
        assert(entries.take(index + 1).drop_last() =~= entries.take(index as int));
        if str_eq(entry.client_id.as_str(), client_id) && str_eq(entry.filter.as_str(), filter) {
            proof {
                position_in_prefix(entries, index + 1, client_id@, filter@);
            }
            return Some(index);
        }
        index += 1;
    }
    assert(entries.take(index as int) =~= entries);
    None
}

/// A position found in a prefix is the position in the whole.
proof fn position_in_prefix(
    entries: Seq<EntryView>,
    count: int,
    client_id: Seq<char>,
    filter: Seq<char>,
)
    requires
        0 <= count <= entries.len(),
        subscription_position(entries.take(count), client_id, filter) is Some,
    ensures
        subscription_position(entries, client_id, filter) == subscription_position(
            entries.take(count),
            client_id,
            filter,
        ),
    decreases entries.len(),
{
    if count == entries.len() {
        assert(entries.take(count) =~= entries);
    } else {
        assert(entries.drop_last().take(count) =~= entries.take(count));
        position_in_prefix(entries.drop_last(), count, client_id, filter);
    }
}

/// Where an upsert put a subscription, and whether the subscription is new.
#[derive(Clone, Copy, Debug, PartialEq, Eq)]
pub struct UpsertSubscriptionResult {
    pub index: usize,
    pub inserted: bool,
}

/// Stores the subscription that a client asks for.
pub fn upsert_subscription(
    subscriptions: &mut Vec<SubscriptionEntry>,
    client_id: &str,
    subscription: Subscription,
    subscription_identifier: Option<u32>,
) -> (result: UpsertSubscriptionResult)
    ensures
        final(subscriptions).deep_view() == upserted(
            old(subscriptions).deep_view(),
            client_id@,
            subscription.deep_view(),
            subscription_identifier,
        ),
        match subscription_position(
            old(subscriptions).deep_view(),
            client_id@,
            subscription.deep_view().topic_filter,
        ) {
            Some(index) => result.index == index && !result.inserted,
            None => result.index == old(subscriptions).len() && result.inserted,
        },
{
    let existing_index: Option<usize> = find_subscription(
        subscriptions,
        client_id,
        subscription.topic_filter.as_str(),
    );
    proof {
        subscription_position_is_first(
            subscriptions.deep_view(),
            client_id@,
            subscription.topic_filter@,
        );
    }
    upsert_subscription_at(
        subscriptions,
        client_id,
        subscription,
        subscription_identifier,
        existing_index,
    )
}

/// Stores the subscription that a client asks for at the position where the client already holds
/// one under its filter, or at the end.
pub fn upsert_subscription_at(
    subscriptions: &mut Vec<SubscriptionEntry>,
    client_id: &str,
    subscription: Subscription,
    subscription_identifier: Option<u32>,
    existing_index: Option<usize>,
) -> (result: UpsertSubscriptionResult)
    requires
        existing_index matches Some(index) ==> index < old(subscriptions).len(),
    ensures
        match existing_index {
            Some(index) => {
                let held = old(subscriptions).deep_view()[index as int];
                &&& final(subscriptions).deep_view() == old(subscriptions).deep_view().update(
                    index as int,
                    EntryView {
                        client_id: held.client_id,
                        filter: held.filter,
                        ..entry_for(client_id@, subscription.deep_view(), subscription_identifier)
                    },
                )
                &&& result.index == index
                &&& !result.inserted
            },
            None => {
                &&& final(subscriptions).deep_view() == old(subscriptions).deep_view().push(
                    entry_for(client_id@, subscription.deep_view(), subscription_identifier),
                )
                &&& result.index == old(subscriptions).len()
                &&& result.inserted
            },
        },
{
    let ghost before = subscriptions.deep_view();
    let matched: String = match_filter(subscription.topic_filter.as_str());
    let group: Option<String> = match shared_subscription_group(
        subscription.topic_filter.as_str(),
    ) {
        Some(group) => Some(group.to_owned()),
        None => None,
    };
    match existing_index {
        Some(index) => {
            let entry: SubscriptionEntry = SubscriptionEntry {
                client_id: subscriptions[index].client_id.dup(),
                filter: subscriptions[index].filter.dup(),
                match_filter: matched,
                shared_group: group,
                options: subscription.options,
                subscription_identifier,
            };
            let ghost view = entry.deep_view();
            subscriptions[index] = entry;
            assert(subscriptions.deep_view() =~= before.update(index as int, view));
            UpsertSubscriptionResult { index, inserted: false }
        },
        None => {
            let index: usize = subscriptions.len();
            let entry: SubscriptionEntry = SubscriptionEntry {
                client_id: client_id.to_owned(),
                filter: subscription.topic_filter,
                match_filter: matched,
                shared_group: group,
                options: subscription.options,
                subscription_identifier,
            };
            let ghost view = entry.deep_view();
            subscriptions.push(entry);
            assert(subscriptions.deep_view() =~= before.push(view));
            UpsertSubscriptionResult { index, inserted: true }
        },
    }
}

/// The subscriptions that do not belong to a client.
pub open spec fn without_client(entries: Seq<EntryView>, client_id: Seq<char>) -> Seq<EntryView> {
    entries.filter(|entry: EntryView| entry.client_id != client_id)
}

/// The subscriptions but those that a client holds under a filter.
pub open spec fn without_held(
    entries: Seq<EntryView>,
    client_id: Seq<char>,
    filter: Seq<char>,
) -> Seq<EntryView> {
    entries.filter(|entry: EntryView| !is_held(entry, client_id, filter))
}

/// Removes the subscriptions of a client.
pub fn remove_client_subscriptions(subscriptions: &mut Vec<SubscriptionEntry>, client_id: &str)
    ensures
        final(subscriptions).deep_view() == without_client(
            old(subscriptions).deep_view(),
            client_id@,
        ),
{
    let ghost keep = |entry: EntryView| entry.client_id != client_id@;
    let ghost entries = subscriptions.deep_view();
    let count: usize = subscriptions.len();
    let mut index: usize = 0;
    let mut done: usize = 0;
    assert(entries.take(0).filter(keep) =~= Seq::<EntryView>::empty()) by {
        reveal(Seq::filter);
    }
    while done < count
        invariant
            index <= done <= count == entries.len(),
            subscriptions.len() == index + (count - done),
            keep == (|entry: EntryView| entry.client_id != client_id@),
            subscriptions.deep_view() == entries.take(done as int).filter(keep) + entries.skip(
                done as int,
            ),
            entries.take(done as int).filter(keep).len() == index,
        decreases count - done,
    {
        let ghost before = subscriptions.deep_view();
        let ghost kept = entries.take(done as int).filter(keep);
        let ghost item = entries[done as int];
        proof {
            filter_step(entries, done as int, keep);
            assert(entries.skip(done as int) =~= seq![item] + entries.skip(done + 1));
            assert(before[index as int] == item);
        }
        if str_eq(subscriptions[index].client_id.as_str(), client_id) {
            subscriptions.remove(index);
            assert(subscriptions.deep_view() =~= before.remove(index as int));
            assert(before.remove(index as int) =~= kept + entries.skip(done + 1));
        } else {
            assert(before =~= kept.push(item) + entries.skip(done + 1));
            index += 1;
        }
        done += 1;
    }
    assert(entries.take(count as int) =~= entries);
    assert(subscriptions.deep_view() =~= entries.filter(keep));
}

/// Filtering one element more.
pub proof fn filter_step<A>(items: Seq<A>, count: int, keep: spec_fn(A) -> bool)
    requires
        0 <= count < items.len(),
    ensures
        items.take(count + 1).filter(keep) == (if keep(items[count]) {
            items.take(count).filter(keep).push(items[count])
        } else {
            items.take(count).filter(keep)
        }),
{
    reveal(Seq::filter);
    assert(items.take(count + 1).drop_last() =~= items.take(count));
}

/// Removes the subscription that a client holds under a filter, and returns how many there were.
pub fn remove_held_subscriptions(
    subscriptions: &mut Vec<SubscriptionEntry>,
    client_id: &str,
    filter: &str,
) -> (removed: usize)
    ensures
        final(subscriptions).deep_view() == without_held(
            old(subscriptions).deep_view(),
            client_id@,
            filter@,
        ),
        removed == old(subscriptions).len() - final(subscriptions).len(),
{
    let ghost keep = |entry: EntryView| !is_held(entry, client_id@, filter@);
    let ghost entries = subscriptions.deep_view();
    let count: usize = subscriptions.len();
    let mut index: usize = 0;
    let mut done: usize = 0;
    assert(entries.take(0).filter(keep) =~= Seq::<EntryView>::empty()) by {
        reveal(Seq::filter);
    }
    while done < count
        invariant
            index <= done <= count == entries.len(),
            subscriptions.len() == index + (count - done),
            keep == (|entry: EntryView| !is_held(entry, client_id@, filter@)),
            subscriptions.deep_view() == entries.take(done as int).filter(keep) + entries.skip(
                done as int,
            ),
            entries.take(done as int).filter(keep).len() == index,
        decreases count - done,
    {
        let ghost before = subscriptions.deep_view();
        let ghost kept = entries.take(done as int).filter(keep);
        let ghost item = entries[done as int];
        proof {
            filter_step(entries, done as int, keep);
            assert(entries.skip(done as int) =~= seq![item] + entries.skip(done + 1));
            assert(before[index as int] == item);
        }
        if str_eq(subscriptions[index].client_id.as_str(), client_id) && str_eq(
            subscriptions[index].filter.as_str(),
            filter,
        ) {
            subscriptions.remove(index);
            assert(subscriptions.deep_view() =~= before.remove(index as int));
            assert(before.remove(index as int) =~= kept + entries.skip(done + 1));
        } else {
            assert(before =~= kept.push(item) + entries.skip(done + 1));
            index += 1;
        }
        done += 1;
    }
    assert(entries.take(count as int) =~= entries);
    assert(subscriptions.deep_view() =~= entries.filter(keep));
    count - index
}

} // verus!
