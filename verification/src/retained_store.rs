//! The store of retained messages: by topic, by filter, and by when they expire.
use vstd::prelude::*;

use crate::message::expired;
use crate::ordered_map::OrderedKey;
use crate::ordered_map::OrderedMap;
use crate::ordered_map::ascending;
use crate::ordered_map::entries_of;
use crate::ordered_map::entries_of_entries;
use crate::ordered_map::has_key;
use crate::ordered_map::key_has_entry;
use crate::ordered_map::key_index;
use crate::ordered_map::listed;
use crate::ordered_map::map_of;
use crate::ordered_map::map_of_entry;
use crate::ordered_map::map_of_insert;
use crate::ordered_map::map_of_remove;
use crate::protocol::hash_level;
use crate::protocol::is_valid_topic_filter;
use crate::protocol::levels;
use crate::protocol::levels_hold;
use crate::protocol::levels_injective;
use crate::protocol::levels_match;
use crate::protocol::match_filter;
use crate::protocol::match_filter_of;
use crate::protocol::plus_level;
use crate::protocol::split_levels;
use crate::protocol::system_rule;
use crate::protocol::valid_topic_filter;
use crate::retained_message::RetainedMessage;
use crate::retained_message::RetainedView;
use crate::retained_trie::RetainedTrieNode;
use crate::retained_trie::path_before;
use crate::retained_trie::path_ordered;
use crate::retained_trie::topics_of;
use crate::storage::delta::lookup;
use crate::text::begins_with;
use crate::text::text_begins_with;
use crate::text::text_has;
use crate::value::Value;

verus! {

/// How many payload bytes some messages have.
pub open spec fn payload_sum(entries: Seq<(Seq<char>, RetainedView)>) -> nat
    decreases entries.len(),
{
    if entries.len() == 0 {
        0
    } else {
        payload_sum(entries.drop_last()) + entries.last().1.payload.len()
    }
}

/// How many payload bytes the messages of a store have.
pub open spec fn payload_total(messages: Map<Seq<char>, RetainedView>) -> nat {
    payload_sum(entries_of::<String, RetainedView>(messages))
}

proof fn payload_sum_remove(entries: Seq<(Seq<char>, RetainedView)>, index: int)
    requires
        0 <= index < entries.len(),
    ensures
        payload_sum(entries) == payload_sum(entries.remove(index))
            + entries[index].1.payload.len(),
    decreases entries.len(),
{
    let less = entries.remove(index);
    if index == entries.len() - 1 {
        assert(less =~= entries.drop_last());
    } else {
        payload_sum_remove(entries.drop_last(), index);
        assert(less.drop_last() =~= entries.drop_last().remove(index));
        assert(less.last() == entries.last());
    }
}

/// A store that lost a message lost its payload bytes.
pub proof fn payload_total_remove(messages: Map<Seq<char>, RetainedView>, topic: Seq<char>)
    requires
        listed::<String, RetainedView>(messages),
        messages.dom().contains(topic),
    ensures
        payload_total(messages) == payload_total(messages.remove(topic))
            + messages[topic].payload.len(),
{
    let entries = entries_of::<String, RetainedView>(messages);
    key_has_entry(entries, topic);
    let index = key_index(entries, topic);
    let less = entries.remove(index);
    map_of_remove::<String, RetainedView>(entries, index);
    assert forall|i: int, j: int|
        #![trigger less[i], less[j]]
        0 <= i < j < less.len() implies String::before(less[i].0, less[j].0) by {
        assert(less[i] == entries[if i < index { i } else { i + 1 }]);
        assert(less[j] == entries[if j < index { j } else { j + 1 }]);
    }
    entries_of_entries::<String, RetainedView>(less);
    payload_sum_remove(entries, index);
}

/// Each payload is no longer than memory allows.
pub open spec fn payloads_bounded(messages: Map<Seq<char>, RetainedView>) -> bool {
    forall|topic: Seq<char>| #[trigger]
        messages.dom().contains(topic) ==> messages[topic].payload.len() <= u64::MAX
}

proof fn payload_sum_bounded(entries: Seq<(Seq<char>, RetainedView)>)
    requires
        forall|i: int|
            0 <= i < entries.len() ==> (#[trigger] entries[i]).1.payload.len() <= u64::MAX,
    ensures
        payload_sum(entries) <= entries.len() * u64::MAX,
    decreases entries.len(),
{
    if entries.len() > 0 {
        let front = entries.drop_last();
        assert forall|i: int| 0 <= i < front.len() implies (#[trigger] front[i]).1.payload.len()
            <= u64::MAX by {
            assert(front[i] == entries[i]);
        }
        payload_sum_bounded(front);
        assert(entries[entries.len() - 1].1.payload.len() <= u64::MAX);
        assert(front.len() * u64::MAX + u64::MAX == entries.len() * u64::MAX)
            by (nonlinear_arith)
            requires
                entries.len() == front.len() + 1,
        ;
    }
}

proof fn payload_total_bounded(messages: Map<Seq<char>, RetainedView>)
    requires
        listed::<String, RetainedView>(messages),
        payloads_bounded(messages),
    ensures
        payload_total(messages) <= entries_of::<String, RetainedView>(messages).len() * u64::MAX,
{
    let entries = entries_of::<String, RetainedView>(messages);
    assert forall|i: int| 0 <= i < entries.len() implies (#[trigger] entries[i]).1.payload.len()
        <= u64::MAX by {
        map_of_entry::<String, RetainedView>(entries, i);
        assert(messages.dom().contains(entries[i].0));
    }
    payload_sum_bounded(entries);
}

/// When the message of a topic expires.
pub struct ExpiryEntry {
    expires_at_ms: u64,
    topic_name: String,
}

/// The messages that a filter matches.
pub enum RetainedMatches {
    Empty,
    One(RetainedMessage),
    Many(Vec<RetainedMessage>),
}

impl RetainedMatches {
    /// The messages in order.
    pub open spec fn messages(self) -> Seq<RetainedView> {
        match self {
            RetainedMatches::Empty => Seq::empty(),
            RetainedMatches::One(message) => seq![message.deep_view()],
            RetainedMatches::Many(messages) => messages.deep_view(),
        }
    }

    /// `Many` holds at least one message.
    pub open spec fn wf(self) -> bool {
        self matches RetainedMatches::Many(messages) ==> messages@.len() > 0
    }

    fn many(messages: Vec<RetainedMessage>) -> (result: Self)
        ensures
            result.messages() == messages.deep_view(),
            result.wf(),
    {
        if messages.len() == 0 {
            assert(messages.deep_view() =~= Seq::<RetainedView>::empty());
            RetainedMatches::Empty
        } else {
            RetainedMatches::Many(messages)
        }
    }

    /// How many messages there are.
    pub fn len(&self) -> (result: usize)
        ensures
            result == self.messages().len(),
    {
        match self {
            RetainedMatches::Empty => 0,
            RetainedMatches::One(_) => 1,
            RetainedMatches::Many(messages) => messages.len(),
        }
    }

    /// Whether there is no message.
    pub fn is_empty(&self) -> (result: bool)
        requires
            self.wf(),
        ensures
            result == (self.messages().len() == 0),
    {
        match self {
            RetainedMatches::Empty => true,
            _ => false,
        }
    }

    /// The messages in order.
    pub fn into_messages(self) -> (result: Vec<RetainedMessage>)
        ensures
            result.deep_view() == self.messages(),
    {
        match self {
            RetainedMatches::Empty => {
                let none: Vec<RetainedMessage> = Vec::new();
                assert(none.deep_view() =~= Seq::<RetainedView>::empty());
                none
            },
            RetainedMatches::One(message) => {
                let mut one: Vec<RetainedMessage> = Vec::new();
                let ghost view = message.deep_view();
                one.push(message);
                assert(one.deep_view() =~= seq![view]);
                one
            },
            RetainedMatches::Many(messages) => messages,
        }
    }
}

/// A filter that may be subscribed to takes in a topic.
pub open spec fn takes_in(filter: Seq<char>, topic: Seq<char>) -> bool {
    levels_match(levels(filter), levels(topic)) && system_rule(filter, topic)
}

/// The list holds the topics of messages that a filter takes in, each once, in the order of their
/// levels.
pub open spec fn is_matching_topics(
    messages: Map<Seq<char>, RetainedView>,
    filter: Seq<char>,
    topics: Seq<Seq<char>>,
) -> bool {
    &&& forall|i: int|
        0 <= i < topics.len() ==> messages.dom().contains(#[trigger] topics[i]) && takes_in(
            filter,
            topics[i],
        )
    &&& forall|topic: Seq<char>| #[trigger]
        messages.dom().contains(topic) && takes_in(filter, topic) ==> topics.contains(topic)
    &&& path_sorted(topics)
}

/// The messages of some topics.
pub open spec fn messages_of(
    messages: Map<Seq<char>, RetainedView>,
    topics: Seq<Seq<char>>,
) -> Seq<RetainedView> {
    Seq::new(topics.len(), |i: int| messages[topics[i]])
}

/// The list holds the messages of the topics that a filter takes in, each once, in the order of
/// the topics' levels.
pub open spec fn is_matching_list(
    messages: Map<Seq<char>, RetainedView>,
    filter: Seq<char>,
    list: Seq<RetainedView>,
) -> bool {
    exists|topics: Seq<Seq<char>>| #[trigger]
        is_matching_topics(messages, filter, topics) && list == messages_of(messages, topics)
}

/// The messages that have not expired.
pub open spec fn unexpired(messages: Map<Seq<char>, RetainedView>, now_ms: u64) -> Map<
    Seq<char>,
    RetainedView,
> {
    Map::new(
        |topic: Seq<char>|
            messages.dom().contains(topic) && !expired(messages[topic].expires_at_ms, now_ms),
        |topic: Seq<char>| messages[topic],
    )
}

/// A filter without wildcards matches just the topic with its levels.
proof fn plain_filter_matches(filter: Seq<Seq<char>>, topic: Seq<Seq<char>>)
    requires
        forall|i: int|
            0 <= i < filter.len() ==> #[trigger] filter[i] != hash_level() && filter[i]
                != plus_level(),
    ensures
        levels_match(filter, topic) <==> filter == topic,
    decreases filter.len(),
{
    if filter.len() == 0 {
        if topic.len() == 0 {
            assert(filter =~= topic);
        }
    } else {
        assert(filter[0] != hash_level() && filter[0] != plus_level());
        if topic.len() > 0 {
            let rest = filter.drop_first();
            assert forall|i: int| 0 <= i < rest.len() implies #[trigger] rest[i] != hash_level()
                && rest[i] != plus_level() by {
                assert(rest[i] == filter[i + 1]);
            }
            plain_filter_matches(rest, topic.drop_first());
            if filter[0] == topic[0] && rest == topic.drop_first() {
                assert(filter =~= seq![filter[0]] + rest);
                assert(topic =~= seq![topic[0]] + topic.drop_first());
            }
        }
    }
}

/// The entries are in order, the soonest last.
spec fn soonest_last(queue: Seq<ExpiryEntry>) -> bool {
    forall|i: int, j: int|
        #![trigger queue[i], queue[j]]
        0 <= i < j < queue.len() ==> queue[i].expires_at_ms >= queue[j].expires_at_ms
}

/// The queue has an entry for a topic at a moment.
spec fn is_queued(queue: Seq<ExpiryEntry>, at: u64, topic: Seq<char>) -> bool {
    exists|i: int|
        0 <= i < queue.len() && (#[trigger] queue[i]).expires_at_ms == at && queue[i].topic_name@
            == topic
}

/// The store of retained messages.
pub struct RetainedStore {
    messages: OrderedMap<String, RetainedMessage>,
    payload_bytes: u128,
    trie: RetainedTrieNode,
    expirations: Vec<ExpiryEntry>,
}

impl DeepView for RetainedStore {
    type V = Map<Seq<char>, RetainedView>;

    /// The messages by topic.
    closed spec fn deep_view(&self) -> Map<Seq<char>, RetainedView> {
        self.messages.deep_view()
    }
}

impl RetainedStore {
    /// The index, the byte count and the expiry queue agree with the messages.
    pub closed spec fn wf(&self) -> bool {
        &&& self.trie.wf()
        &&& payloads_bounded(self.deep_view())
        &&& listed::<String, RetainedView>(self.deep_view())
        &&& self.payload_bytes == payload_total(self.deep_view())
        &&& forall|topic: Seq<char>| #[trigger]
            self.deep_view().dom().contains(topic) ==> self.trie.at(levels(topic)) == Some(topic)
        &&& forall|path: Seq<Seq<char>>|
            (#[trigger] self.trie.at(path)) matches Some(topic) ==> self.deep_view().dom().contains(
                topic,
            ) && levels(topic) == path
        &&& soonest_last(self.expirations@)
        &&& forall|topic: Seq<char>| #[trigger]
            self.deep_view().dom().contains(topic) ==> (
            self.deep_view()[topic].expires_at_ms matches Some(at) ==> is_queued(
                self.expirations@,
                at,
                topic,
            ))
    }

    /// The empty store.
    pub fn new() -> (result: Self)
        ensures
            result.wf(),
            result.deep_view() == Map::<Seq<char>, RetainedView>::empty(),
    {
        let messages: OrderedMap<String, RetainedMessage> = OrderedMap::new();
        let count: usize = messages.len();
        RetainedStore {
            messages,
            payload_bytes: 0,
            trie: RetainedTrieNode::new(),
            expirations: Vec::new(),
        }
    }

    /// Keeps a message for a topic and returns the message that was kept before.
    pub fn insert(&mut self, topic_name: String, message: RetainedMessage) -> (previous: Option<
        RetainedMessage,
    >)
        requires
            old(self).wf(),
        ensures
            final(self).wf(),
            final(self).deep_view() == old(self).deep_view().insert(
                topic_name@,
                message.deep_view(),
            ),
            previous.deep_view() == lookup(old(self).deep_view(), topic_name@),
    {
        let ghost before = self.deep_view();
        let ghost topic = topic_name@;
        let ghost view = message.deep_view();
        let expires_at_ms: Option<u64> = message.expires_at_ms;
        let payload_len: usize = message.payload.len();
        assert(view.payload.len() == payload_len);
        let previous: Option<RetainedMessage> = self.messages.insert(topic_name.dup(), message);
        let count: usize = self.messages.len();
        let ghost after = self.messages.deep_view();
        let removed_len: usize = match &previous {
            Some(was) => was.payload.len(),
            None => 0,
        };
        proof {
            assert(after.remove(topic) =~= before.remove(topic));
            payload_total_remove(after, topic);
            if before.dom().contains(topic) {
                payload_total_remove(before, topic);
                assert(before[topic].payload.len() == removed_len);
            } else {
                assert(before.remove(topic) =~= before);
            }
            assert(payloads_bounded(after));
            payload_total_bounded(after);
            assert(count * u64::MAX <= u128::MAX) by (nonlinear_arith)
                requires
                    count <= u64::MAX,
            ;
        }
        self.payload_bytes = self.payload_bytes - removed_len as u128 + payload_len as u128;
        if previous.is_none() {
            self.trie.insert(topic_name.as_str());
        }
        proof {
            assert forall|path: Seq<Seq<char>>|
                (#[trigger] self.trie.at(path)) is Some implies after.dom().contains(
                self.trie.at(path)->0,
            ) && levels(self.trie.at(path)->0) == path by {}
            assert forall|other: Seq<char>| #[trigger] after.dom().contains(other) implies
                self.trie.at(levels(other)) == Some(other) by {
                if other != topic {
                    if levels(other) == levels(topic) {
                        levels_injective(other, topic);
                    }
                    assert(before.dom().contains(other));
                }
            }
        }
        let ghost queue = self.expirations@;
        if let Some(at) = expires_at_ms {
            let slot: usize = self.push_expiry(at, topic_name);
            proof {
                let longer = self.expirations@;
                assert(is_queued(longer, at, topic)) by {
                    assert(longer[slot as int].expires_at_ms == at);
                }
                assert forall|when: u64, other: Seq<char>| #[trigger]
                    is_queued(queue, when, other) implies is_queued(longer, when, other) by {
                    let i = choose|i: int|
                        0 <= i < queue.len() && (#[trigger] queue[i]).expires_at_ms == when
                            && queue[i].topic_name@ == other;
                    assert(longer[if i < slot { i } else { i + 1 }] == queue[i]);
                }
            }
        }
        proof {
            assert forall|other: Seq<char>| #[trigger] after.dom().contains(other) implies (
            after[other].expires_at_ms matches Some(when) ==> is_queued(
                self.expirations@,
                when,
                other,
            )) by {
                if other != topic {
                    assert(before.dom().contains(other));
                }
            }
        }
        previous
    }

    /// Queues the expiry of a topic's message, in order, and returns its place.
    fn push_expiry(&mut self, expires_at_ms: u64, topic_name: String) -> (slot: usize)
        requires
            soonest_last(old(self).expirations@),
        ensures
            final(self).messages == old(self).messages,
            final(self).payload_bytes == old(self).payload_bytes,
            final(self).trie == old(self).trie,
            soonest_last(final(self).expirations@),
            slot <= old(self).expirations@.len(),
            final(self).expirations@ == old(self).expirations@.insert(
                slot as int,
                final(self).expirations@[slot as int],
            ),
            final(self).expirations@[slot as int].expires_at_ms == expires_at_ms,
            final(self).expirations@[slot as int].topic_name@ == topic_name@,
    {
        let ghost before = self.expirations@;
        let mut slot: usize = self.expirations.len();
        while slot > 0 && self.expirations[slot - 1].expires_at_ms < expires_at_ms
            invariant
                slot <= self.expirations@.len(),
                before == self.expirations@,
                forall|i: int|
                    slot <= i < before.len() ==> (#[trigger] before[i]).expires_at_ms
                        < expires_at_ms,
            decreases slot,
        {
            slot = slot - 1;
        }
        self.expirations.insert(slot, ExpiryEntry { expires_at_ms, topic_name });
        proof {
            let after = self.expirations@;
            let entry = after[slot as int];
            assert(after =~= before.insert(slot as int, entry));
            assert forall|i: int, j: int|
                #![trigger after[i], after[j]]
                0 <= i < j < after.len() implies after[i].expires_at_ms
                >= after[j].expires_at_ms by {
                let a = if i < slot { i } else { i - 1 };
                let b = if j < slot { j } else { j - 1 };
                assert(i != slot ==> after[i] == before[a]);
                assert(j != slot ==> after[j] == before[b]);
                if j == slot && i < slot - 1 {
                    assert(before[i].expires_at_ms >= before[slot - 1].expires_at_ms);
                }
            }
        }
        slot
    }

    /// Drops the message of a topic and returns it.
    pub fn remove(&mut self, topic_name: &String) -> (removed: Option<RetainedMessage>)
        requires
            old(self).wf(),
        ensures
            final(self).wf(),
            final(self).deep_view() == old(self).deep_view().remove(topic_name@),
            removed.deep_view() == lookup(old(self).deep_view(), topic_name@),
    {
        self.drop_message(topic_name)
    }

    fn drop_message(&mut self, topic_name: &String) -> (removed: Option<RetainedMessage>)
        requires
            old(self).wf(),
        ensures
            final(self).wf(),
            final(self).deep_view() == old(self).deep_view().remove(topic_name@),
            removed.deep_view() == lookup(old(self).deep_view(), topic_name@),
            final(self).expirations == old(self).expirations,
    {
        let ghost before = self.deep_view();
        let ghost topic = topic_name@;
        match self.messages.remove(topic_name) {
            None => {
                assert(before.remove(topic) =~= before);
                None
            },
            Some(message) => {
                let ghost after = self.messages.deep_view();
                let count: usize = self.messages.len();
                proof {
                    payload_total_remove(before, topic);
                    assert(message.deep_view().payload.len() == message.payload@.len());
                }
                self.payload_bytes = self.payload_bytes - message.payload.len() as u128;
                self.trie.remove(topic_name.as_str());
                proof {
                    assert(payloads_bounded(after));
                    assert forall|path: Seq<Seq<char>>|
                        (#[trigger] self.trie.at(path)) is Some implies after.dom().contains(
                        self.trie.at(path)->0,
                    ) && levels(self.trie.at(path)->0) == path by {
                        let found = self.trie.at(path)->0;
                        assert(before.dom().contains(found));
                        if found == topic {
                            assert(path == levels(topic));
                        }
                    }
                    assert forall|other: Seq<char>| #[trigger] after.dom().contains(other) implies
                        self.trie.at(levels(other)) == Some(other) by {
                        assert(before.dom().contains(other));
                        if levels(other) == levels(topic) {
                            levels_injective(other, topic);
                        }
                    }
                }
                Some(message)
            },
        }
    }

    /// The message of a topic.
    pub fn get(&self, topic_name: &String) -> (result: Option<&RetainedMessage>)
        ensures
            match result {
                Some(message) => lookup(self.deep_view(), topic_name@) == Some(message.deep_view()),
                None => lookup(self.deep_view(), topic_name@) is None,
            },
    {
        self.messages.get(topic_name)
    }

    /// Whether a topic has a message.
    pub fn contains_key(&self, topic_name: &String) -> (result: bool)
        ensures
            result == self.deep_view().dom().contains(topic_name@),
    {
        self.messages.contains_key(topic_name)
    }

    /// How many messages there are.
    pub fn len(&self) -> (result: usize)
        ensures
            result == self.deep_view().len(),
    {
        self.messages.len()
    }

    /// The messages by topic.
    pub fn messages(&self) -> (result: &OrderedMap<String, RetainedMessage>)
        ensures
            result.deep_view() == self.deep_view(),
    {
        &self.messages
    }

    /// How many payload bytes the messages have, as far as that can be told.
    pub fn payload_bytes(&self) -> (result: usize)
        requires
            self.wf(),
        ensures
            result == (if payload_total(self.deep_view()) <= usize::MAX {
                payload_total(self.deep_view())
            } else {
                usize::MAX as nat
            }),
    {
        if self.payload_bytes <= usize::MAX as u128 {
            self.payload_bytes as usize
        } else {
            usize::MAX
        }
    }

    /// Drops the messages that have expired. Returns whether there were any.
    pub fn expire(&mut self, now_ms: u64) -> (removed_any: bool)
        requires
            old(self).wf(),
        ensures
            final(self).wf(),
            final(self).deep_view() == unexpired(old(self).deep_view(), now_ms),
            removed_any <==> exists|topic: Seq<char>| #[trigger]
                old(self).deep_view().dom().contains(topic) && expired(
                    old(self).deep_view()[topic].expires_at_ms,
                    now_ms,
                ),
    {
        let ghost start = self.deep_view();
        let mut removed_any: bool = false;
        let mut count: usize = self.expirations.len();
        while count > 0 && self.expirations[count - 1].expires_at_ms <= now_ms
            invariant
                self.wf(),
                count == self.expirations@.len(),
                forall|topic: Seq<char>| #[trigger]
                    self.deep_view().dom().contains(topic) ==> start.dom().contains(topic)
                        && self.deep_view()[topic] == start[topic],
                forall|topic: Seq<char>| #[trigger]
                    start.dom().contains(topic) && !expired(start[topic].expires_at_ms, now_ms)
                        ==> self.deep_view().dom().contains(topic),
                removed_any <==> exists|topic: Seq<char>| #[trigger]
                    start.dom().contains(topic) && !self.deep_view().dom().contains(topic),
            decreases count,
        {
            let last: usize = count - 1;
            let topic_name: String = self.expirations[last].topic_name.dup();
            let at: u64 = self.expirations[last].expires_at_ms;
            let due: bool = match self.messages.get(&topic_name) {
                Some(message) => match message.expires_at_ms {
                    Some(expires_at_ms) => expires_at_ms == at,
                    None => false,
                },
                None => false,
            };
            if due {
                let ghost before = self.deep_view();
                self.drop_message(&topic_name);
                removed_any = true;
                proof {
                    assert(before.dom().contains(topic_name@));
                    assert(start.dom().contains(topic_name@));
                    assert(!self.deep_view().dom().contains(topic_name@));
                }
            }
            let ghost full = *self;
            self.expirations.pop();
            proof {
                let queue = full.expirations@;
                assert(self.expirations@ =~= queue.drop_last());
                assert forall|topic: Seq<char>| #[trigger]
                    self.deep_view().dom().contains(topic) implies (
                self.deep_view()[topic].expires_at_ms matches Some(when) ==> is_queued(
                    self.expirations@,
                    when,
                    topic,
                )) by {
                    if let Some(when) = self.deep_view()[topic].expires_at_ms {
                        assert(full.deep_view().dom().contains(topic));
                        assert(is_queued(queue, when, topic));
                        let i = choose|i: int|
                            0 <= i < queue.len() && (#[trigger] queue[i]).expires_at_ms == when
                                && queue[i].topic_name@ == topic;
                        assert(i != last);
                        assert(self.expirations@[i] == queue[i]);
                    }
                }
                assert(self.wf());
            }
            count = self.expirations.len();
        }
        proof {
            let left = self.deep_view();
            assert forall|topic: Seq<char>| #[trigger] left.dom().contains(topic) implies !expired(
                left[topic].expires_at_ms,
                now_ms,
            ) by {
                if let Some(at) = left[topic].expires_at_ms {
                    if at <= now_ms {
                        let queue = self.expirations@;
                        assert(is_queued(queue, at, topic));
                        let i = choose|i: int|
                            0 <= i < queue.len() && (#[trigger] queue[i]).expires_at_ms == at
                                && queue[i].topic_name@ == topic;
                        if i < count - 1 {
                            assert(queue[i].expires_at_ms >= queue[count - 1].expires_at_ms);
                        }
                    }
                }
            }
            assert(left =~= unexpired(start, now_ms));
            if removed_any {
                let topic = choose|topic: Seq<char>| #[trigger]
                    start.dom().contains(topic) && !left.dom().contains(topic);
                assert(start.dom().contains(topic) && expired(start[topic].expires_at_ms, now_ms));
            } else {
                assert forall|topic: Seq<char>| #[trigger] start.dom().contains(topic) implies
                    !expired(start[topic].expires_at_ms, now_ms) by {
                    assert(left.dom().contains(topic));
                }
            }
        }
        removed_any
    }

    /// The messages of the topics that a filter takes in.
    fn matching_valid_filter_after_expire(&self, filter: &String) -> (result: RetainedMatches)
        requires
            self.wf(),
            valid_topic_filter(filter@),
        ensures
            result.wf(),
            is_matching_list(self.deep_view(), filter@, result.messages()),
    {
        let ghost view = self.deep_view();
        let ghost wanted = levels(filter@);
        if !text_has(filter.as_str(), '+') && !text_has(filter.as_str(), '#') {
            proof {
                levels_hold(filter@, '#');
                levels_hold(filter@, '+');
                assert forall|i: int| 0 <= i < wanted.len() implies #[trigger] wanted[i]
                    != hash_level() && wanted[i] != plus_level() by {
                    assert(hash_level()[0] == '#');
                    assert(plus_level()[0] == '+');
                }
                assert forall|topic: Seq<char>| takes_in(filter@, topic) <==> topic == filter@ by {
                    plain_filter_matches(wanted, levels(topic));
                    if wanted == levels(topic) {
                        levels_injective(filter@, topic);
                    }
                }
            }
            assert(takes_in(filter@, filter@));
            return match self.messages.get(filter) {
                Some(message) => {
                    let result: RetainedMatches = RetainedMatches::One(message.dup());
                    proof {
                        let names = seq![filter@];
                        assert(view.dom().contains(filter@));
                        assert(names[0] == filter@);
                        assert(is_matching_topics(view, filter@, names));
                        assert(result.messages() =~= messages_of(view, names));
                    }
                    result
                },
                None => {
                    proof {
                        let names = Seq::<Seq<char>>::empty();
                        assert(!view.dom().contains(filter@));
                        assert(is_matching_topics(view, filter@, names));
                        assert(Seq::<RetainedView>::empty() =~= messages_of(view, names));
                    }
                    RetainedMatches::Empty
                },
            };
        }
        let parts: Vec<String> = split_levels(filter.as_str());
        let mut topics: Vec<String> = Vec::new();
        self.trie.collect_matches(&parts, 0, &mut topics);
        let ghost found = self.trie.matching(wanted);
        proof {
            self.trie.matching_is(wanted);
            assert(parts.deep_view().skip(0) =~= wanted);
            assert(topics.deep_view() =~= topics_of(found));
            assert(topics.deep_view().len() == topics@.len());
        }
        let system: bool = text_begins_with(filter.as_str(), '$');
        let mut messages: Vec<RetainedMessage> = Vec::new();
        let mut index: usize = 0;
        let ghost mut origin = Seq::<int>::empty();
        while index < topics.len()
            invariant
                index <= topics.len(),
                self.wf(),
                view == self.deep_view(),
                found == self.trie.matching(wanted),
                wanted == levels(filter@),
                topics.deep_view() == topics_of(found),
                topics@.len() == found.len(),
                system == begins_with(filter@, '$'),
                path_ordered(found),
                forall|path: Seq<Seq<char>>, topic: Seq<char>|
                    #![trigger found.contains((path, topic))]
                    found.contains((path, topic)) <==> self.trie.at(path) == Some(topic)
                        && levels_match(wanted, path),
                origin.len() == messages@.len(),
                forall|k: int|
                    0 <= k < origin.len() ==> 0 <= (#[trigger] origin[k]) < index
                        && messages@[k].deep_view() == view[found[origin[k]].1] && (system
                        || !begins_with(found[origin[k]].1, '$')),
                forall|k: int, l: int|
                    #![trigger origin[k], origin[l]]
                    0 <= k < l < origin.len() ==> origin[k] < origin[l],
                forall|i: int|
                    0 <= i < index && (system || !begins_with((#[trigger] found[i]).1, '$'))
                        ==> origin.contains(i),
            decreases topics.len() - index,
        {
            let topic_name: &String = &topics[index];
            let ghost before = origin;
            proof {
                assert(topics.deep_view()[index as int] == topic_name@);
                assert(found[index as int].1 == topic_name@);
                assert(found.contains((found[index as int].0, found[index as int].1)));
                assert(view.dom().contains(topic_name@));
            }
            if system || !text_begins_with(topic_name.as_str(), '$') {
                if let Some(message) = self.messages.get(topic_name) {
                    messages.push(message.dup());
                    proof {
                        origin = origin.push(index as int);
                    }
                }
                assert(origin.len() == before.len() + 1);
                assert(origin[before.len() as int] == index);
            }
            proof {
                assert forall|i: int|
                    0 <= i < index + 1 && (system || !begins_with(
                        (#[trigger] found[i]).1,
                        '$',
                    )) implies origin.contains(i) by {
                    if i == index {
                        assert(origin[before.len() as int] == i);
                    } else {
                        assert(before.contains(i));
                        let k = before.index_of(i);
                        assert(origin[k] == i);
                    }
                }
            }
            index += 1;
        }
        proof {
            let names = Seq::new(origin.len(), |k: int| found[origin[k]].1);
            assert forall|k: int| 0 <= k < names.len() implies view.dom().contains(
                #[trigger] names[k],
            ) && takes_in(filter@, names[k]) by {
                let item = found[origin[k]];
                assert(found.contains((item.0, item.1)));
            }
            assert forall|topic: Seq<char>| #[trigger]
                view.dom().contains(topic) && takes_in(filter@, topic) implies names.contains(
                topic,
            ) by {
                assert(found.contains((levels(topic), topic)));
                let i = found.index_of((levels(topic), topic));
                assert(found[i].1 == topic);
                let k = origin.index_of(i);
                assert(names[k] == topic);
            }
            assert forall|k: int, l: int|
                #![trigger names[k], names[l]]
                0 <= k < l < names.len() implies path_before(
                levels(names[k]),
                levels(names[l]),
            ) by {
                let a = found[origin[k]];
                let b = found[origin[l]];
                assert(found.contains((a.0, a.1)));
                assert(found.contains((b.0, b.1)));
                assert(origin[k] < origin[l]);
                assert(path_before(a.0, b.0));
            }
            assert(is_matching_topics(view, filter@, names));
            assert(messages.deep_view() =~= messages_of(view, names));
        }
        RetainedMatches::many(messages)
    }

    /// Drops the messages that have expired, and returns those of the topics that a filter takes
    /// in.
    pub fn matching_valid_filter(&mut self, filter: &String, now_ms: u64) -> (result:
        RetainedMatches)
        requires
            old(self).wf(),
            valid_topic_filter(filter@),
        ensures
            final(self).wf(),
            final(self).deep_view() == unexpired(old(self).deep_view(), now_ms),
            result.wf(),
            is_matching_list(final(self).deep_view(), filter@, result.messages()),
    {
        self.expire(now_ms);
        self.matching_valid_filter_after_expire(filter)
    }

    /// Drops the messages that have expired, and returns those of the topics that a filter takes
    /// in: a shared subscription's filter by what follows its group, an invalid filter none.
    pub fn matching(&mut self, filter: &str, now_ms: u64) -> (result: RetainedMatches)
        requires
            old(self).wf(),
        ensures
            final(self).wf(),
            final(self).deep_view() == unexpired(old(self).deep_view(), now_ms),
            result.wf(),
            if valid_topic_filter(match_filter_of(filter@)) {
                is_matching_list(
                    final(self).deep_view(),
                    match_filter_of(filter@),
                    result.messages(),
                )
            } else {
                result.messages().len() == 0
            },
    {
        self.expire(now_ms);
        let matched: String = match_filter(filter);
        if !is_valid_topic_filter(matched.as_str()) {
            return RetainedMatches::Empty;
        }
        self.matching_valid_filter_after_expire(&matched)
    }
}

/// A list of the matching topics is the only one.
proof fn matching_topics_are_unique(
    messages: Map<Seq<char>, RetainedView>,
    filter: Seq<char>,
    a: Seq<Seq<char>>,
    b: Seq<Seq<char>>,
)
    requires
        is_matching_topics(messages, filter, a),
        is_matching_topics(messages, filter, b),
    ensures
        a == b,
    decreases a.len(),
{
    if a.len() == 0 {
        if b.len() > 0 {
            assert(messages.dom().contains(b[0]));
            assert(a.contains(b[0]));
        }
        assert(a =~= b);
    } else {
        let first = a[0];
        assert(messages.dom().contains(first) && takes_in(filter, first));
        assert(b.contains(first));
        let j = choose|j: int| 0 <= j < b.len() && b[j] == first;
        let other = b[0];
        assert(messages.dom().contains(other) && takes_in(filter, other));
        assert(a.contains(other));
        let i = choose|i: int| 0 <= i < a.len() && a[i] == other;
        if j > 0 {
            assert(path_before(levels(b[0]), levels(b[j])));
            if i > 0 {
                assert(path_before(levels(a[0]), levels(a[i])));
                path_before_asymmetric(levels(first), levels(other));
            } else {
                path_before_irreflexive(levels(first));
            }
        }
        assert(a[0] == b[0]);
        let rest_a = a.drop_first();
        let rest_b = b.drop_first();
        without_first(messages, filter, a);
        without_first(messages, filter, b);
        matching_topics_are_unique(messages.remove(first), filter, rest_a, rest_b);
        assert(a =~= seq![a[0]] + rest_a);
        assert(b =~= seq![b[0]] + rest_b);
    }
}

/// A list of the matching messages is the only one.
pub proof fn matching_list_is_unique(
    messages: Map<Seq<char>, RetainedView>,
    filter: Seq<char>,
    a: Seq<RetainedView>,
    b: Seq<RetainedView>,
)
    requires
        is_matching_list(messages, filter, a),
        is_matching_list(messages, filter, b),
    ensures
        a == b,
{
    let first = choose|topics: Seq<Seq<char>>| #[trigger]
        is_matching_topics(messages, filter, topics) && a == messages_of(messages, topics);
    let second = choose|topics: Seq<Seq<char>>| #[trigger]
        is_matching_topics(messages, filter, topics) && b == messages_of(messages, topics);
    matching_topics_are_unique(messages, filter, first, second);
}

proof fn without_first(
    messages: Map<Seq<char>, RetainedView>,
    filter: Seq<char>,
    topics: Seq<Seq<char>>,
)
    requires
        is_matching_topics(messages, filter, topics),
        topics.len() > 0,
    ensures
        is_matching_topics(messages.remove(topics[0]), filter, topics.drop_first()),
{
    let rest = topics.drop_first();
    let first = topics[0];
    let less = messages.remove(first);
    assert forall|i: int| 0 <= i < rest.len() implies less.dom().contains(#[trigger] rest[i])
        && takes_in(filter, rest[i]) by {
        assert(rest[i] == topics[i + 1]);
        assert(path_before(levels(topics[0]), levels(topics[i + 1])));
        path_before_irreflexive(levels(first));
    }
    assert forall|topic: Seq<char>| #[trigger]
        less.dom().contains(topic) && takes_in(filter, topic) implies rest.contains(topic) by {
        assert(messages.dom().contains(topic));
        let i = choose|i: int| 0 <= i < topics.len() && topics[i] == topic;
        assert(rest[i - 1] == topic);
    }
    assert forall|i: int, j: int|
        #![trigger rest[i], rest[j]]
        0 <= i < j < rest.len() implies path_before(levels(rest[i]), levels(rest[j])) by {
        assert(rest[i] == topics[i + 1] && rest[j] == topics[j + 1]);
    }
}

pub proof fn path_before_irreflexive(a: Seq<Seq<char>>)
    ensures
        !path_before(a, a),
    decreases a.len(),
{
    if a.len() > 0 {
        path_before_irreflexive(a.drop_first());
    }
}

proof fn path_before_asymmetric(a: Seq<Seq<char>>, b: Seq<Seq<char>>)
    requires
        path_before(a, b),
    ensures
        !path_before(b, a),
    decreases a.len(),
{
    if a.len() > 0 && b.len() > 0 && path_before(b, a) {
        if a[0] == b[0] {
            path_before_asymmetric(a.drop_first(), b.drop_first());
        } else {
            String::before_transitive(a[0], b[0], a[0]);
            String::before_irreflexive(a[0]);
        }
    }
}

proof fn path_before_transitive(a: Seq<Seq<char>>, b: Seq<Seq<char>>, c: Seq<Seq<char>>)
    requires
        path_before(a, b),
        path_before(b, c),
    ensures
        path_before(a, c),
    decreases a.len(),
{
    if a.len() > 0 && b.len() > 0 && c.len() > 0 {
        if a[0] == b[0] && b[0] == c[0] {
            path_before_transitive(a.drop_first(), b.drop_first(), c.drop_first());
        } else if a[0] != b[0] && b[0] != c[0] {
            String::before_transitive(a[0], b[0], c[0]);
            if a[0] == c[0] {
                String::before_irreflexive(a[0]);
            }
        }
    }
}

proof fn path_before_total(a: Seq<Seq<char>>, b: Seq<Seq<char>>)
    ensures
        a == b || path_before(a, b) || path_before(b, a),
    decreases a.len(),
{
    if a.len() > 0 && b.len() > 0 {
        String::before_total(a[0], b[0]);
        if a[0] == b[0] {
            path_before_total(a.drop_first(), b.drop_first());
            if a.drop_first() == b.drop_first() {
                assert(a =~= seq![a[0]] + a.drop_first());
                assert(b =~= seq![b[0]] + b.drop_first());
            }
        }
    } else if a.len() == 0 && b.len() == 0 {
        assert(a =~= b);
    }
}

/// Topics in the order of their levels.
pub open spec fn path_sorted(list: Seq<Seq<char>>) -> bool {
    forall|i: int, j: int|
        #![trigger list[i], list[j]]
        0 <= i < j < list.len() ==> path_before(
            levels(list[i]),
            levels(list[j]),
        )
}

/// A topic can be put among others in order.
proof fn sorted_insert(list: Seq<Seq<char>>, topic: Seq<char>) -> (result: Seq<
    Seq<char>,
>)
    requires
        path_sorted(list),
        forall|i: int|
            0 <= i < list.len() ==> levels(#[trigger] list[i]) != levels(
                topic,
            ),
    ensures
        path_sorted(result),
        forall|item: Seq<char>| #[trigger]
            result.contains(item) <==> list.contains(item) || item == topic,
    decreases list.len(),
{
    if list.len() == 0 {
        let result = seq![topic];
        assert(result[0] == topic);
        result
    } else {
        let last = list.len() - 1;
        let end = list[last];
        let front = list.drop_last();
        path_before_total(levels(end), levels(topic));
        assert forall|item: Seq<char>| #[trigger] list.contains(item) <==> front.contains(item)
            || item == end by {
            if front.contains(item) {
                let i = choose|i: int| 0 <= i < front.len() && front[i] == item;
                assert(list[i] == item);
            }
            if list.contains(item) && item != end {
                let i = choose|i: int| 0 <= i < list.len() && list[i] == item;
                assert(front[i] == item);
            }
        }
        if path_before(levels(end), levels(topic)) {
            let result = list.push(topic);
            assert forall|i: int, j: int|
                #![trigger result[i], result[j]]
                0 <= i < j < result.len() implies path_before(
                levels(result[i]),
                levels(result[j]),
            ) by {
                if j == result.len() - 1 && i < last {
                    assert(path_before(levels(list[i]), levels(list[last])));
                    path_before_transitive(
                        levels(list[i]),
                        levels(end),
                        levels(topic),
                    );
                } else if j < result.len() - 1 {
                    assert(path_before(levels(list[i]), levels(list[j])));
                }
            }
            pushed_holds(list, topic);
            result
        } else {
            assert forall|i: int, j: int|
                #![trigger front[i], front[j]]
                0 <= i < j < front.len() implies path_before(
                levels(front[i]),
                levels(front[j]),
            ) by {
                assert(front[i] == list[i] && front[j] == list[j]);
            }
            assert forall|i: int| 0 <= i < front.len() implies levels(
                #[trigger] front[i],
            ) != levels(topic) by {
                assert(front[i] == list[i]);
            }
            let less = sorted_insert(front, topic);
            let result = less.push(end);
            assert forall|i: int, j: int|
                #![trigger result[i], result[j]]
                0 <= i < j < result.len() implies path_before(
                levels(result[i]),
                levels(result[j]),
            ) by {
                if j == result.len() - 1 {
                    assert(less.contains(less[i]));
                    if less[i] != topic {
                        let k = choose|k: int| 0 <= k < front.len() && front[k] == less[i];
                        assert(path_before(
                            levels(list[k]),
                            levels(list[last]),
                        ));
                    }
                } else {
                    assert(path_before(levels(less[i]), levels(less[j])));
                }
            }
            pushed_holds(less, end);
            result
        }
    }
}

proof fn pushed_holds<A>(list: Seq<A>, last: A)
    ensures
        forall|item: A| #[trigger]
            list.push(last).contains(item) <==> list.contains(item) || item == last,
{
    let result = list.push(last);
    assert forall|item: A| #[trigger] result.contains(item) <==> list.contains(item) || item
        == last by {
        if list.contains(item) {
            let i = choose|i: int| 0 <= i < list.len() && list[i] == item;
            assert(result[i] == item);
        }
        assert(result[list.len() as int] == last);
        if result.contains(item) && item != last {
            let i = choose|i: int| 0 <= i < result.len() && result[i] == item;
            assert(list[i] == item);
        }
    }
}

/// The messages of the topics that a filter takes in can be listed.
pub proof fn matching_list_exists(messages: Map<Seq<char>, RetainedView>, filter: Seq<char>)
    requires
        listed::<String, RetainedView>(messages),
    ensures
        exists|list: Seq<RetainedView>| is_matching_list(messages, filter, list),
{
    let entries = entries_of::<String, RetainedView>(messages);
    let topics = matching_topics_made(entries, filter);
    assert(is_matching_topics(messages, filter, topics));
    assert(is_matching_list(messages, filter, messages_of(messages, topics)));
}

proof fn matching_topics_made(
    entries: Seq<(Seq<char>, RetainedView)>,
    filter: Seq<char>,
) -> (topics: Seq<Seq<char>>)
    requires
        ascending::<String, RetainedView>(entries),
    ensures
        is_matching_topics(map_of(entries), filter, topics),
    decreases entries.len(),
{
    if entries.len() == 0 {
        assert(map_of(entries) =~= Map::<Seq<char>, RetainedView>::empty());
        Seq::empty()
    } else {
        let last = entries.len() - 1;
        let front = entries.drop_last();
        let (topic, message) = entries[last];
        assert forall|i: int, j: int|
            #![trigger front[i], front[j]]
            0 <= i < j < front.len() implies String::before(front[i].0, front[j].0) by {
            assert(front[i] == entries[i] && front[j] == entries[j]);
        }
        if has_key(front, topic) {
            let i = key_index(front, topic);
            assert(String::before(entries[i].0, entries[last].0));
            String::before_irreflexive(topic);
        }
        assert(front.insert(last, (topic, message)) =~= entries);
        map_of_insert::<String, RetainedView>(front, last, topic, message);
        let before = map_of(front);
        let after = map_of(entries);
        let less = matching_topics_made(front, filter);
        if takes_in(filter, topic) {
            assert forall|i: int| 0 <= i < less.len() implies levels(#[trigger] less[i])
                != levels(topic) by {
                assert(before.dom().contains(less[i]));
                if levels(less[i]) == levels(topic) {
                    crate::protocol::levels_injective(less[i], topic);
                }
            }
            let list = sorted_insert(less, topic);
            assert forall|i: int| 0 <= i < list.len() implies after.dom().contains(
                #[trigger] list[i],
            ) && takes_in(filter, list[i]) by {
                assert(list.contains(list[i]));
                if list[i] != topic {
                    let k = choose|k: int| 0 <= k < less.len() && less[k] == list[i];
                    assert(before.dom().contains(less[k]));
                }
            }
            assert forall|found: Seq<char>| #[trigger]
                after.dom().contains(found) && takes_in(filter, found) implies list.contains(
                found,
            ) by {
                if found != topic {
                    assert(before.dom().contains(found));
                }
            }
            list
        } else {
            assert forall|i: int| 0 <= i < less.len() implies after.dom().contains(
                #[trigger] less[i],
            ) && takes_in(filter, less[i]) by {
                assert(before.dom().contains(less[i]));
            }
            assert forall|found: Seq<char>| #[trigger]
                after.dom().contains(found) && takes_in(filter, found) implies less.contains(
                found,
            ) by {
                assert(before.dom().contains(found));
            }
            less
        }
    }
}

} // verus!
