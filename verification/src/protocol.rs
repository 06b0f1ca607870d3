//! MQTT reason codes, and the rules of topic names and topic filters.
use vstd::prelude::*;
use vstd::string::StrSliceExecFns;

use crate::packet::QoS;
use crate::text::begins_with;
use crate::text::chars_of;
use crate::text::str_eq;
use crate::text::text_begins_with;
use crate::text::text_has;

verus! {

pub const SUCCESS: u8 = 0x00;
pub const QOS_0_GRANTED: u8 = 0x00;
pub const QOS_1_GRANTED: u8 = 0x01;
pub const QOS_2_GRANTED: u8 = 0x02;
pub const UNSPECIFIED_ERROR: u8 = 0x80;
pub const MALFORMED_PACKET: u8 = 0x81;
pub const PROTOCOL_ERROR: u8 = 0x82;
pub const CLIENT_IDENTIFIER_NOT_VALID: u8 = 0x85;
pub const BAD_USER_NAME_OR_PASSWORD: u8 = 0x86;
pub const NOT_AUTHORIZED: u8 = 0x87;
pub const SERVER_UNAVAILABLE: u8 = 0x88;
pub const SERVER_SHUTTING_DOWN: u8 = 0x8b;
pub const BAD_AUTHENTICATION_METHOD: u8 = 0x8c;
pub const TOPIC_FILTER_INVALID: u8 = 0x8f;
pub const TOPIC_NAME_INVALID: u8 = 0x90;
pub const PACKET_IDENTIFIER_IN_USE: u8 = 0x91;
pub const PACKET_IDENTIFIER_NOT_FOUND: u8 = 0x92;
pub const RECEIVE_MAXIMUM_EXCEEDED: u8 = 0x93;
pub const TOPIC_ALIAS_INVALID: u8 = 0x94;
pub const PACKET_TOO_LARGE: u8 = 0x95;
pub const QUOTA_EXCEEDED: u8 = 0x97;
pub const PAYLOAD_FORMAT_INVALID: u8 = 0x99;

pub const SERVER_RECEIVE_MAXIMUM: u16 = 1024;
pub const SERVER_MAXIMUM_PACKET_SIZE: u32 = 16_777_216;

/// The reason code that grants a quality of service.
pub fn granted_qos_code(qos: QoS) -> (result: u8)
    ensures
        result == qos.rank(),
{
    match qos {
        QoS::AtMostOnce => QOS_0_GRANTED,
        QoS::AtLeastOnce => QOS_1_GRANTED,
        QoS::ExactlyOnce => QOS_2_GRANTED,
    }
}

/// The levels of a topic: what stands between its slashes.
pub open spec fn levels(topic: Seq<char>) -> Seq<Seq<char>>
    decreases topic.len(),
{
    if topic.len() == 0 {
        seq![Seq::<char>::empty()]
    } else {
        let front = levels(topic.drop_last());
        if topic.last() == '/' {
            front.push(Seq::<char>::empty())
        } else {
            front.update(front.len() - 1, front.last().push(topic.last()))
        }
    }
}

/// The multi-level wildcard.
pub open spec fn hash_level() -> Seq<char> {
    seq!['#']
}

/// The single-level wildcard.
pub open spec fn plus_level() -> Seq<char> {
    seq!['+']
}

/// A topic name is not empty and holds no wildcard character.
pub open spec fn valid_topic_name(topic: Seq<char>) -> bool {
    &&& topic.len() > 0
    &&& !topic.contains('+')
    &&& !topic.contains('#')
}

/// A level of a filter may stand at this place: a wildcard character stands alone in its level,
/// and `#` only in the last level.
pub open spec fn valid_filter_level(level: Seq<char>, last: bool) -> bool {
    &&& level.contains('#') ==> level == hash_level() && last
    &&& level.contains('+') ==> level == plus_level()
}

/// Every level may stand at its place.
pub open spec fn valid_filter_levels(parts: Seq<Seq<char>>) -> bool {
    forall|i: int|
        0 <= i < parts.len() ==> valid_filter_level(#[trigger] parts[i], i + 1 == parts.len())
}

/// A topic filter is not empty and its wildcards stand where they may.
pub open spec fn valid_topic_filter(filter: Seq<char>) -> bool {
    filter.len() > 0 && valid_filter_levels(levels(filter))
}

/// The levels of a filter match the levels of a topic: `#` matches whatever is left, `+` one
/// level, any other level itself.
pub open spec fn levels_match(filter: Seq<Seq<char>>, topic: Seq<Seq<char>>) -> bool
    decreases filter.len(),
{
    if filter.len() == 0 {
        topic.len() == 0
    } else if filter[0] == hash_level() {
        true
    } else {
        &&& topic.len() > 0
        &&& filter[0] == plus_level() || filter[0] == topic[0]
        &&& levels_match(filter.drop_first(), topic.drop_first())
    }
}

/// A topic that starts with `$` is matched only by filters that start with `$`.
pub open spec fn system_rule(filter: Seq<char>, topic: Seq<char>) -> bool {
    begins_with(topic, '$') ==> begins_with(filter, '$')
}

/// A filter matches a topic.
pub open spec fn filter_matches(filter: Seq<char>, topic: Seq<char>) -> bool {
    &&& valid_topic_filter(filter)
    &&& valid_topic_name(topic)
    &&& system_rule(filter, topic)
    &&& levels_match(levels(filter), levels(topic))
}

/// A topic has at least one level.
pub proof fn levels_not_empty(topic: Seq<char>)
    ensures
        levels(topic).len() > 0,
    decreases topic.len(),
{
    if topic.len() > 0 {
        levels_not_empty(topic.drop_last());
    }
}

/// The levels of a topic hold just the characters of the topic that are not slashes.
pub proof fn levels_hold(topic: Seq<char>, c: char)
    requires
        c != '/',
    ensures
        topic.contains(c) <==> exists|i: int|
            0 <= i < levels(topic).len() && (#[trigger] levels(topic)[i]).contains(c),
    decreases topic.len(),
{
    let parts = levels(topic);
    if topic.len() == 0 {
        assert(parts =~= seq![Seq::<char>::empty()]);
    } else {
        let front = levels(topic.drop_last());
        let n = front.len() - 1;
        levels_not_empty(topic.drop_last());
        levels_hold(topic.drop_last(), c);
        assert(topic =~= topic.drop_last().push(topic.last()));
        if topic.contains(c) {
            if topic.last() == c {
                assert(parts[n] == front[n].push(c));
                assert(parts[n][front[n].len() as int] == c);
                assert(parts[n].contains(c));
            } else {
                let k = topic.index_of(c);
                assert(topic.drop_last()[k] == c);
                let i = choose|i: int| 0 <= i < front.len() && (#[trigger] front[i]).contains(c);
                let j = front[i].index_of(c);
                assert(parts[i][j] == c);
                assert(parts[i].contains(c));
            }
        }
        if exists|i: int| 0 <= i < parts.len() && (#[trigger] parts[i]).contains(c) {
            let i = choose|i: int| 0 <= i < parts.len() && (#[trigger] parts[i]).contains(c);
            let j = parts[i].index_of(c);
            if topic.last() == '/' {
                assert(i < front.len());
                assert(front[i].contains(c));
            } else if i == n && j == front[n].len() {
                assert(topic[topic.len() - 1] == c);
            } else {
                assert(front[i][j] == c);
                assert(front[i].contains(c));
            }
            if topic.last() != c {
                let k = topic.drop_last().index_of(c);
                assert(topic[k] == c);
            }
        }
    }
}

/// A level holds no slash.
pub proof fn levels_hold_no_slash(topic: Seq<char>, i: int)
    requires
        0 <= i < levels(topic).len(),
    ensures
        !levels(topic)[i].contains('/'),
    decreases topic.len(),
{
    if topic.len() > 0 {
        let front = levels(topic.drop_last());
        levels_not_empty(topic.drop_last());
        if i < front.len() {
            levels_hold_no_slash(topic.drop_last(), i);
        }
    }
}

/// The text whose levels are `parts`.
pub open spec fn joined(parts: Seq<Seq<char>>) -> Seq<char>
    decreases parts.len(),
{
    if parts.len() == 0 {
        Seq::<char>::empty()
    } else if parts.len() == 1 {
        parts[0]
    } else {
        joined(parts.drop_last()).push('/') + parts.last()
    }
}

/// A topic is its levels with slashes between them.
pub proof fn joined_levels(topic: Seq<char>)
    ensures
        joined(levels(topic)) == topic,
    decreases topic.len(),
{
    if topic.len() == 0 {
        assert(joined(levels(topic)) =~= topic);
    } else {
        let head = topic.drop_last();
        let front = levels(head);
        levels_not_empty(head);
        joined_levels(head);
        let parts = levels(topic);
        assert(topic =~= head.push(topic.last()));
        if topic.last() == '/' {
            assert(parts.drop_last() =~= front);
            assert(joined(parts) =~= topic);
        } else {
            assert(parts.drop_last() =~= front.drop_last());
            assert(parts.last() == front.last().push(topic.last()));
            if parts.len() == 1 {
                assert(joined(parts) =~= topic);
            } else {
                assert(joined(parts) =~= joined(front).push(topic.last()));
            }
        }
    }
}

/// Topics with the same levels are the same topic.
pub proof fn levels_injective(a: Seq<char>, b: Seq<char>)
    requires
        levels(a) == levels(b),
    ensures
        a == b,
{
    joined_levels(a);
    joined_levels(b);
}

/// The levels of a topic, as texts.
pub fn split_levels(topic: &str) -> (result: Vec<String>)
    ensures
        result.deep_view() == levels(topic@),
        result.len() > 0,
{
    let chars: Vec<char> = chars_of(topic);
    let mut result: Vec<String> = Vec::new();
    let mut start: usize = 0;
    let mut index: usize = 0;
    assert(topic@.take(0) =~= Seq::<char>::empty());
    assert(result.deep_view().push(topic@.subrange(0, 0)) =~= levels(topic@.take(0)));
    while index < chars.len()
        invariant
            chars@ == topic@,
            start <= index <= chars.len(),
            levels(topic@.take(index as int)) == result.deep_view().push(
                topic@.subrange(start as int, index as int),
            ),
        decreases chars.len() - index,
    {
        let ghost before = result.deep_view();
        let ghost parts = levels(topic@.take(index as int));
        let ghost next = topic@.take(index + 1);
        assert(next.drop_last() =~= topic@.take(index as int));
        if chars[index] == '/' {
            let level: &str = topic.substring_char(start, index);
            result.push(level.to_owned());
            start = index + 1;
            assert(result.deep_view() =~= before.push(level@));
            assert(topic@.subrange(start as int, index + 1) =~= Seq::<char>::empty());
        } else {
            assert(topic@.subrange(start as int, index + 1) =~= topic@.subrange(
                start as int,
                index as int,
            ).push(topic@[index as int]));
            assert(levels(next) =~= before.push(topic@.subrange(start as int, index + 1)));
        }
        index += 1;
    }
    let ghost before = result.deep_view();
    let level: &str = topic.substring_char(start, index);
    result.push(level.to_owned());
    assert(topic@.take(index as int) =~= topic@);
    assert(result.deep_view() =~= before.push(level@));
    result
}

/// Whether a level is the multi-level wildcard.
pub fn is_hash(level: &str) -> (result: bool)
    ensures
        result == (level@ == hash_level()),
{
    proof {
        reveal_strlit("#");
        assert("#"@ =~= hash_level());
    }
    str_eq(level, "#")
}

/// Whether a level is the single-level wildcard.
pub fn is_plus(level: &str) -> (result: bool)
    ensures
        result == (level@ == plus_level()),
{
    proof {
        reveal_strlit("+");
        assert("+"@ =~= plus_level());
    }
    str_eq(level, "+")
}

/// Whether a topic name may be published to.
pub fn is_valid_topic_name(topic: &str) -> (result: bool)
    ensures
        result == valid_topic_name(topic@),
{
    !topic.is_empty() && !text_has(topic, '+') && !text_has(topic, '#')
}

/// Whether a topic filter may be subscribed to.
pub fn is_valid_topic_filter(filter: &str) -> (result: bool)
    ensures
        result == valid_topic_filter(filter@),
{
    if filter.is_empty() {
        return false;
    }
    let parts: Vec<String> = split_levels(filter);
    let ghost model = levels(filter@);
    let mut index: usize = 0;
    while index < parts.len()
        invariant
            index <= parts.len(),
            parts.deep_view() == model,
            model == levels(filter@),
            forall|i: int|
                0 <= i < index ==> valid_filter_level(#[trigger] model[i], i + 1 == model.len()),
        decreases parts.len() - index,
    {
        let level: &str = parts[index].as_str();
        assert(model[index as int] == level@);
        if text_has(level, '#') && (!is_hash(level) || index + 1 != parts.len()) {
            assert(!valid_filter_level(model[index as int], index + 1 == model.len()));
            return false;
        }
        if text_has(level, '+') && !is_plus(level) {
            assert(!valid_filter_level(model[index as int], index + 1 == model.len()));
            return false;
        }
        index += 1;
    }
    true
}

/// Whether the levels of a filter match the levels of a topic.
pub fn match_levels(filter: &Vec<String>, topic: &Vec<String>) -> (result: bool)
    ensures
        result == levels_match(filter.deep_view(), topic.deep_view()),
{
    let ghost filters = filter.deep_view();
    let ghost topics = topic.deep_view();
    let mut index: usize = 0;
    assert(filters.skip(0) =~= filters);
    assert(topics.skip(0) =~= topics);
    while index < filter.len()
        invariant
            index <= filter.len(),
            index <= topic.len(),
            filters == filter.deep_view(),
            topics == topic.deep_view(),
            levels_match(filters, topics) == levels_match(
                filters.skip(index as int),
                topics.skip(index as int),
            ),
        decreases filter.len() - index,
    {
        let level: &str = filter[index].as_str();
        assert(filters.skip(index as int)[0] == level@);
        assert(filters.skip(index as int).drop_first() =~= filters.skip(index + 1));
        if is_hash(level) {
            return true;
        }
        if index >= topic.len() {
            return false;
        }
        assert(topics.skip(index as int)[0] == topic@[index as int]@);
        assert(topics.skip(index as int).drop_first() =~= topics.skip(index + 1));
        if !is_plus(level) && !str_eq(level, topic[index].as_str()) {
            return false;
        }
        index += 1;
    }
    index == topic.len()
}

/// Whether a topic filter matches a topic name.
pub fn topic_matches(filter: &str, topic: &str) -> (result: bool)
    ensures
        result == filter_matches(filter@, topic@),
{
    if !is_valid_topic_filter(filter) || !is_valid_topic_name(topic) {
        return false;
    }
    if text_begins_with(topic, '$') && !text_begins_with(filter, '$') {
        return false;
    }
    let filter_levels: Vec<String> = split_levels(filter);
    let topic_levels: Vec<String> = split_levels(topic);
    match_levels(&filter_levels, &topic_levels)
}

/// The position of the first slash at or after `from`, or the length where there is none.
pub open spec fn slash_from(text: Seq<char>, from: int) -> int
    decreases text.len() - from,
{
    if from >= text.len() {
        text.len() as int
    } else if text[from] == '/' {
        from
    } else {
        slash_from(text, from + 1)
    }
}

/// What a shared subscription's filter starts with.
pub open spec fn share_prefix() -> Seq<char> {
    seq!['$', 's', 'h', 'a', 'r', 'e', '/']
}

/// A filter of the form `$share/{group}/{filter}`, with a group and a filter that are not empty.
pub open spec fn is_shared_filter(filter: Seq<char>) -> bool {
    &&& share_prefix().is_prefix_of(filter)
    &&& 7 < slash_from(filter, 7) < filter.len() - 1
}

/// The group of a shared subscription's filter.
pub open spec fn shared_group(filter: Seq<char>) -> Option<Seq<char>> {
    if is_shared_filter(filter) {
        Some(filter.subrange(7, slash_from(filter, 7)))
    } else {
        None
    }
}

/// The filter that a subscription's topics are matched against: what follows the group in a
/// shared subscription, the filter itself in any other.
pub open spec fn match_filter_of(filter: Seq<char>) -> Seq<char> {
    if is_shared_filter(filter) {
        filter.subrange(slash_from(filter, 7) + 1, filter.len() as int)
    } else {
        filter
    }
}

/// The position of the slash that ends the group of a shared subscription's filter.
fn shared_group_end(filter: &str) -> (result: Option<usize>)
    ensures
        result is Some <==> is_shared_filter(filter@),
        result matches Some(end) ==> end == slash_from(filter@, 7) && 7 < end < filter@.len() - 1
            && filter@.len() <= usize::MAX,
{
    let chars: Vec<char> = chars_of(filter);
    if chars.len() < 7 {
        return None;
    }
    if !(chars[0] == '$' && chars[1] == 's' && chars[2] == 'h' && chars[3] == 'a' && chars[4] == 'r'
        && chars[5] == 'e' && chars[6] == '/') {
        assert(!share_prefix().is_prefix_of(filter@)) by {
            if share_prefix().is_prefix_of(filter@) {
                assert(forall|i: int| 0 <= i < 7 ==> share_prefix()[i] == filter@[i]);
                assert(share_prefix()[0] == filter@[0] && share_prefix()[1] == filter@[1]
                    && share_prefix()[2] == filter@[2] && share_prefix()[3] == filter@[3]
                    && share_prefix()[4] == filter@[4] && share_prefix()[5] == filter@[5]
                    && share_prefix()[6] == filter@[6]);
            }
        }
        return None;
    }
    assert(filter@.subrange(0, 7) =~= share_prefix());
    let mut index: usize = 7;
    while index < chars.len() && chars[index] != '/'
        invariant
            7 <= index <= chars.len(),
            chars@ == filter@,
            slash_from(filter@, 7) == slash_from(filter@, index as int),
        decreases chars.len() - index,
    {
        index += 1;
    }
    if 7 < index && index < chars.len() - 1 {
        Some(index)
    } else {
        None
    }
}

/// The filter inside a shared subscription's filter.
pub fn shared_subscription_filter(filter: &str) -> (result: Option<&str>)
    ensures
        result is Some <==> is_shared_filter(filter@),
        result matches Some(inner) ==> inner@ == match_filter_of(filter@),
{
    match shared_group_end(filter) {
        Some(end) => Some(filter.substring_char(end + 1, filter.unicode_len())),
        None => None,
    }
}

/// The group of a shared subscription's filter.
pub fn shared_subscription_group(filter: &str) -> (result: Option<&str>)
    ensures
        result is Some <==> is_shared_filter(filter@),
        result matches Some(group) ==> shared_group(filter@) == Some(group@),
{
    match shared_group_end(filter) {
        Some(end) => Some(filter.substring_char(7, end)),
        None => None,
    }
}

/// The filter that a subscription's topics are matched against.
pub fn match_filter(filter: &str) -> (result: String)
    ensures
        result@ == match_filter_of(filter@),
{
    match shared_subscription_filter(filter) {
        Some(inner) => inner.to_owned(),
        None => filter.to_owned(),
    }
}

} // verus!
