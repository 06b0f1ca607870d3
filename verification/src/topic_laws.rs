//! What topic filters mean, character by character and level by level.
use vstd::prelude::*;

use crate::protocol::filter_matches;
use crate::protocol::is_shared_filter;
use crate::protocol::levels;
use crate::protocol::levels_hold;
use crate::protocol::levels_match;
use crate::protocol::levels_not_empty;
use crate::protocol::match_filter_of;
use crate::protocol::shared_group;
use crate::protocol::slash_from;
use crate::protocol::valid_filter_level;
use crate::protocol::valid_filter_levels;
use crate::protocol::valid_topic_filter;
use crate::protocol::valid_topic_name;

verus! {

/// A topic has the levels that a filter asks for: level by level the same, or any where the filter
/// has a plus; and where the filter ends in a hash, any number of levels in its place.
pub open spec fn topic_fits(filter: Seq<char>, topic: Seq<char>) -> bool {
    let asked = levels(filter);
    let given = levels(topic);
    let open_end = asked.last() == seq!['#'];
    let fixed: int = if open_end {
        asked.len() - 1
    } else {
        asked.len() as int
    };
    &&& if open_end {
        fixed <= given.len()
    } else {
        fixed == given.len()
    }
    &&& forall|i: int|
        0 <= i < fixed ==> (#[trigger] asked[i]) == seq!['+'] || asked[i] == given[i]
}

/// A topic is hidden from filters that do not ask for it: both start with a dollar sign or the
/// topic does not.
pub open spec fn topic_shown(filter: Seq<char>, topic: Seq<char>) -> bool {
    (topic.len() > 0 && topic[0] == '$') ==> (filter.len() > 0 && filter[0] == '$')
}

/// Matching level by level, one after the other, is matching at every level.
proof fn matching_at_every_level(filter: Seq<Seq<char>>, topic: Seq<Seq<char>>)
    requires
        forall|i: int|
            0 <= i < filter.len() - 1 ==> #[trigger] filter[i] != seq!['#'],
    ensures
        levels_match(filter, topic) <==> {
            let open_end = filter.len() > 0 && filter.last() == seq!['#'];
            let fixed: int = if open_end {
                filter.len() - 1
            } else {
                filter.len() as int
            };
            &&& if open_end {
                fixed <= topic.len()
            } else {
                fixed == topic.len()
            }
            &&& forall|i: int|
                0 <= i < fixed ==> (#[trigger] filter[i]) == seq!['+'] || filter[i] == topic[i]
        },
    decreases filter.len(),
{
    if filter.len() > 0 {
        if filter[0] == seq!['#'] {
            assert(filter.len() == 1);
        } else if topic.len() > 0 {
            let rest = filter.drop_first();
            let left = topic.drop_first();
            assert forall|i: int| 0 <= i < rest.len() - 1 implies #[trigger] rest[i]
                != seq!['#'] by {
                assert(rest[i] == filter[i + 1]);
            }
            matching_at_every_level(rest, left);
            let open_end = filter.last() == seq!['#'];
            let fixed: int = if open_end {
                filter.len() - 1
            } else {
                filter.len() as int
            };
            if rest.len() > 0 {
                assert(rest.last() == filter.last());
            }
            if levels_match(filter, topic) {
                assert forall|i: int| 0 <= i < fixed implies (#[trigger] filter[i]) == seq!['+']
                    || filter[i] == topic[i] by {
                    if i > 0 {
                        assert(rest[i - 1] == filter[i] && left[i - 1] == topic[i]);
                    }
                }
            }
            let enough = if open_end {
                fixed <= topic.len()
            } else {
                fixed == topic.len()
            };
            if enough && forall|i: int|
                0 <= i < fixed ==> (#[trigger] filter[i]) == seq!['+'] || filter[i] == topic[i] {
                assert forall|i: int| 0 <= i < fixed - 1 implies (#[trigger] rest[i])
                    == seq!['+'] || rest[i] == left[i] by {
                    assert(rest[i] == filter[i + 1] && left[i] == topic[i + 1]);
                }
                if fixed > 0 {
                    assert(filter[0] == seq!['+'] || filter[0] == topic[0]);
                }
            }
        } else {
            let fixed: int = if filter.last() == seq!['#'] {
                filter.len() - 1
            } else {
                filter.len() as int
            };
            if filter.len() == 1 {
                assert(filter.last() == filter[0]);
            }
        }
    }
}

/// A filter that may be subscribed to matches a topic that may be published to if and only if the
/// topic has the levels that the filter asks for and is not hidden from it.
pub proof fn filters_match_by_level(filter: Seq<char>, topic: Seq<char>)
    requires
        valid_topic_filter(filter),
        valid_topic_name(topic),
    ensures
        filter_matches(filter, topic) <==> topic_fits(filter, topic) && topic_shown(filter, topic),
{
    let asked = levels(filter);
    levels_not_empty(filter);
    assert forall|i: int| 0 <= i < asked.len() - 1 implies #[trigger] asked[i] != seq!['#'] by {
        assert(valid_filter_level(asked[i], i + 1 == asked.len()));
        if asked[i] == seq!['#'] {
            assert(asked[i][0] == '#');
            assert(asked[i].contains('#'));
        }
    }
    matching_at_every_level(asked, levels(topic));
}

/// A wildcard character stands alone between slashes, and a hash at the end.
pub open spec fn wildcards_in_place(filter: Seq<char>) -> bool {
    &&& forall|i: int|
        0 <= i < filter.len() && #[trigger] filter[i] == '#' ==> i == filter.len() - 1 && (i == 0
            || filter[i - 1] == '/')
    &&& forall|i: int|
        0 <= i < filter.len() && #[trigger] filter[i] == '+' ==> (i == 0 || filter[i - 1] == '/')
            && (i == filter.len() - 1 || filter[i + 1] == '/')
}

/// The levels are well placed but for what is still to come of the last one.
spec fn levels_in_place(parts: Seq<Seq<char>>, last: bool) -> bool {
    forall|i: int|
        0 <= i < parts.len() ==> valid_filter_level(
            #[trigger] parts[i],
            last && i + 1 == parts.len(),
        )
}

/// Where wildcards stand by characters and by levels is the same.
proof fn places_agree(filter: Seq<char>)
    ensures
        levels_in_place(levels(filter), true) <==> wildcards_in_place(filter),
        filter.len() > 0 && filter.last() == '/' ==> levels(filter).last().len() == 0,
        levels(filter).last().len() == 0 ==> filter.len() == 0 || filter.last() == '/',
        levels(filter).last().len() > 0 ==> filter.len() > 0 && levels(filter).last().last()
            == filter.last(),
        levels(filter).last().len() == 1 ==> filter.len() == 1 || filter[filter.len() - 2] == '/',
        levels(filter).last().len() > 1 ==> filter.len() > 1 && filter[filter.len() - 2] != '/',
    decreases filter.len(),
{
    levels_not_empty(filter);
    let parts = levels(filter);
    if filter.len() == 0 {
        assert(parts =~= seq![Seq::<char>::empty()]);
        assert(!parts[0].contains('#') && !parts[0].contains('+'));
    } else {
        let head = filter.drop_last();
        let c = filter.last();
        let front = levels(head);
        levels_not_empty(head);
        places_agree(head);
        let n = parts.len() - 1;
        if c == '/' {
            assert(parts[n] == Seq::<char>::empty());
            assert(!parts[n].contains('#') && !parts[n].contains('+'));
            assert forall|i: int| 0 <= i < front.len() implies #[trigger] parts[i] == front[i] by {}
            if wildcards_in_place(filter) {
                assert forall|i: int| 0 <= i < head.len() && #[trigger] head[i] == '#' implies i
                    == head.len() - 1 && (i == 0 || head[i - 1] == '/') by {
                    assert(filter[i] == '#');
                }
                assert forall|i: int| 0 <= i < head.len() && #[trigger] head[i] == '+' implies (i
                    == 0 || head[i - 1] == '/') && (i == head.len() - 1 || head[i + 1]
                    == '/') by {
                    assert(filter[i] == '+');
                    if i < head.len() - 1 {
                        assert(filter[i + 1] == head[i + 1]);
                    }
                }
                levels_hold(head, '#');
                assert(!head.contains('#')) by {
                    if head.contains('#') {
                        let i = choose|i: int| 0 <= i < head.len() && head[i] == '#';
                        assert(filter[i] == '#');
                    }
                }
                assert forall|i: int| 0 <= i < parts.len() implies valid_filter_level(
                    #[trigger] parts[i],
                    true && i + 1 == parts.len(),
                ) by {
                    if i < front.len() {
                        assert(valid_filter_level(front[i], true && i + 1 == front.len()));
                        assert(!front[i].contains('#'));
                    }
                }
            }
            if levels_in_place(parts, true) {
                assert forall|i: int| 0 <= i < front.len() implies valid_filter_level(
                    #[trigger] front[i],
                    true && i + 1 == front.len(),
                ) by {
                    assert(valid_filter_level(parts[i], true && i + 1 == parts.len()));
                }
                levels_hold(head, '#');
                assert(!head.contains('#')) by {
                    if head.contains('#') {
                        let i = choose|i: int|
                            0 <= i < front.len() && (#[trigger] front[i]).contains('#');
                        assert(valid_filter_level(parts[i], true && i + 1 == parts.len()));
                    }
                }
                assert forall|i: int| 0 <= i < filter.len() && #[trigger] filter[i]
                    == '#' implies i == filter.len() - 1 && (i == 0 || filter[i - 1] == '/') by {
                    if i < head.len() {
                        assert(head[i] == '#');
                        assert(head.contains('#'));
                    }
                }
                assert forall|i: int| 0 <= i < filter.len() && #[trigger] filter[i]
                    == '+' implies (i == 0 || filter[i - 1] == '/') && (i == filter.len() - 1
                    || filter[i + 1] == '/') by {
                    assert(head[i] == '+');
                    if i < head.len() - 1 {
                        assert(head[i + 1] == filter[i + 1]);
                    }
                }
            }
        } else {
            let old_last = front.last();
            let new_last = old_last.push(c);
            assert(parts[n] == new_last);
            assert forall|i: int| 0 <= i < n implies #[trigger] parts[i] == front[i] by {}
            assert(new_last[old_last.len() as int] == c);
            if wildcards_in_place(filter) {
                assert(wildcards_in_place(head)) by {
                    assert forall|i: int| 0 <= i < head.len() && #[trigger] head[i]
                        == '#' implies i == head.len() - 1 && (i == 0 || head[i - 1] == '/') by {
                        assert(filter[i] == '#');
                    }
                    assert forall|i: int| 0 <= i < head.len() && #[trigger] head[i]
                        == '+' implies (i == 0 || head[i - 1] == '/') && (i == head.len() - 1
                        || head[i + 1] == '/') by {
                        assert(filter[i] == '+');
                        if i < head.len() - 1 {
                            assert(filter[i + 1] == head[i + 1]);
                        }
                    }
                }
                assert forall|i: int| 0 <= i < parts.len() implies valid_filter_level(
                    #[trigger] parts[i],
                    true && i + 1 == parts.len(),
                ) by {
                    assert(valid_filter_level(front[i], true && i + 1 == front.len()));
                    if i == n {
                        last_level_in_place(filter, old_last, c);
                    }
                }
            }
            if levels_in_place(parts, true) {
                assert(valid_filter_level(parts[n], true && n + 1 == parts.len()));
                assert(valid_filter_level(new_last, true));
                front_of_level_in_place(old_last, c);
                assert forall|i: int| 0 <= i < front.len() implies valid_filter_level(
                    #[trigger] front[i],
                    true && i + 1 == front.len(),
                ) by {
                    assert(valid_filter_level(parts[i], true && i + 1 == parts.len()));
                    if i == n {
                        assert(front[i] == old_last);
                    }
                }
                assert(wildcards_in_place(head));
                assert forall|i: int| 0 <= i < filter.len() && #[trigger] filter[i]
                    == '#' implies i == filter.len() - 1 && (i == 0 || filter[i - 1] == '/') by {
                    if i < head.len() {
                        assert(head[i] == '#');
                        assert(i == head.len() - 1);
                        assert(head.last() == '#');
                        assert(old_last.len() > 0 && old_last.last() == '#');
                        assert(new_last[old_last.len() - 1] == '#');
                        assert(new_last.contains('#'));
                        assert(new_last.len() == 1);
                    } else {
                        assert(new_last.contains('#'));
                        assert(new_last.len() == 1);
                    }
                }
                assert forall|i: int| 0 <= i < filter.len() && #[trigger] filter[i]
                    == '+' implies (i == 0 || filter[i - 1] == '/') && (i == filter.len() - 1
                    || filter[i + 1] == '/') by {
                    if i < head.len() {
                        assert(head[i] == '+');
                        if i == head.len() - 1 {
                            assert(head.last() == '+');
                            assert(old_last.len() > 0 && old_last.last() == '+');
                            assert(new_last[old_last.len() - 1] == '+');
                            assert(new_last.contains('+'));
                            assert(new_last.len() == 1);
                        } else {
                            assert(head[i + 1] == filter[i + 1]);
                        }
                    } else {
                        assert(new_last.contains('+'));
                        assert(new_last.len() == 1);
                    }
                }
            }
        }
    }
}

/// A level that grows by a character is in place where the character is.
proof fn last_level_in_place(filter: Seq<char>, level: Seq<char>, c: char)
    requires
        filter.len() > 0,
        filter.last() == c,
        c != '/',
        wildcards_in_place(filter),
        valid_filter_level(level, true),
        level.len() == 0 ==> filter.len() == 1 || filter[filter.len() - 2] == '/',
        level.len() > 0 ==> filter.len() > 1 && filter[filter.len() - 2] == level.last()
            && level.last() != '/',
    ensures
        valid_filter_level(level.push(c), true),
{
    let longer = level.push(c);
    let end = filter.len() - 1;
    if level.len() == 0 {
        assert(longer =~= seq![c]);
        if longer.contains('#') {
            assert(c == '#');
        }
        if longer.contains('+') {
            assert(c == '+');
        }
    } else {
        assert(filter[end] == c);
        if level.contains('#') {
            assert(level == seq!['#']);
            assert(level.last() == '#');
            assert(filter[end - 1] == '#');
        }
        if level.contains('+') {
            assert(level == seq!['+']);
            assert(level.last() == '+');
            assert(filter[end - 1] == '+');
        }
        if longer.contains('#') {
            let k = choose|k: int| 0 <= k < longer.len() && longer[k] == '#';
            if k < level.len() {
                assert(level[k] == '#');
            }
        }
        if longer.contains('+') {
            let k = choose|k: int| 0 <= k < longer.len() && longer[k] == '+';
            if k < level.len() {
                assert(level[k] == '+');
            }
        }
    }
}

/// What comes before the last character of a level in place is in place.
proof fn front_of_level_in_place(level: Seq<char>, c: char)
    requires
        valid_filter_level(level.push(c), true),
    ensures
        valid_filter_level(level, true),
{
    let longer = level.push(c);
    if level.contains('#') {
        let k = choose|k: int| 0 <= k < level.len() && level[k] == '#';
        assert(longer[k] == '#');
        assert(longer.contains('#'));
        assert(longer.len() == 1);
    }
    if level.contains('+') {
        let k = choose|k: int| 0 <= k < level.len() && level[k] == '+';
        assert(longer[k] == '+');
        assert(longer.contains('+'));
        assert(longer.len() == 1);
    }
}

/// A filter may be subscribed to if and only if it is not empty, a hash stands only at its end, and
/// every wildcard character stands alone between slashes.
pub proof fn filters_are_valid_by_character(filter: Seq<char>)
    ensures
        valid_topic_filter(filter) <==> filter.len() > 0 && wildcards_in_place(filter),
{
    places_agree(filter);
    let parts = levels(filter);
    if valid_filter_levels(parts) {
        assert forall|i: int| 0 <= i < parts.len() implies valid_filter_level(
            #[trigger] parts[i],
            true && i + 1 == parts.len(),
        ) by {}
    }
    if levels_in_place(parts, true) {
        assert forall|i: int| 0 <= i < parts.len() implies valid_filter_level(
            #[trigger] parts[i],
            i + 1 == parts.len(),
        ) by {
            assert(valid_filter_level(parts[i], true && i + 1 == parts.len()));
        }
    }
}

/// The first slash behind a text without slashes is where the text ends.
proof fn slash_behind(text: Seq<char>, from: int, end: int)
    requires
        0 <= from <= end < text.len(),
        text[end] == '/',
        forall|i: int| from <= i < end ==> #[trigger] text[i] != '/',
    ensures
        slash_from(text, from) == end,
    decreases end - from,
{
    if from < end {
        assert(text[from] != '/');
        slash_behind(text, from + 1, end);
    }
}

/// How the filter of a shared subscription is written.
pub open spec fn shared_text(group: Seq<char>, inner: Seq<char>) -> Seq<char> {
    seq!['$', 's', 'h', 'a', 'r', 'e', '/'] + group + seq!['/'] + inner
}

/// The filter of a shared subscription is told apart into its group and the filter that its topics
/// are matched against.
pub proof fn shared_filter_is_told_apart(group: Seq<char>, inner: Seq<char>)
    requires
        group.len() > 0,
        !group.contains('/'),
        inner.len() > 0,
    ensures
        shared_group(shared_text(group, inner)) == Some(group),
        match_filter_of(shared_text(group, inner)) == inner,
{
    let prefix = seq!['$', 's', 'h', 'a', 'r', 'e', '/'];
    let filter = shared_text(group, inner);
    let end = 7 + group.len() as int;
    assert(filter.subrange(0, 7) =~= prefix);
    assert forall|i: int| 7 <= i < end implies #[trigger] filter[i] != '/' by {
        assert(filter[i] == group[i - 7]);
    }
    assert(filter[end] == '/');
    slash_behind(filter, 7, end);
    assert(filter.subrange(7, end) =~= group);
    assert(filter.subrange(end + 1, filter.len() as int) =~= inner);
}

/// Any other filter is not shared, and its topics are matched against itself.
pub proof fn other_filters_are_not_shared(filter: Seq<char>)
    requires
        forall|group: Seq<char>, inner: Seq<char>|
            group.len() > 0 && !group.contains('/') && inner.len() > 0 ==> filter
                != #[trigger] shared_text(group, inner),
    ensures
        shared_group(filter) is None,
        match_filter_of(filter) == filter,
{
    if is_shared_filter(filter) {
        let end = slash_from(filter, 7);
        let group = filter.subrange(7, end);
        let inner = filter.subrange(end + 1, filter.len() as int);
        slash_is_first(filter, 7);
        assert(!group.contains('/')) by {
            if group.contains('/') {
                let i = choose|i: int| 0 <= i < group.len() && group[i] == '/';
                assert(filter[i + 7] == '/');
            }
        }
        assert(filter.subrange(0, 7) =~= seq!['$', 's', 'h', 'a', 'r', 'e', '/']);
        assert(filter =~= shared_text(group, inner));
    }
}

/// Where a filter may be subscribed to, so may the filter that its topics are matched against.
pub proof fn inner_filter_is_valid(filter: Seq<char>)
    requires
        valid_topic_filter(filter),
    ensures
        valid_topic_filter(match_filter_of(filter)),
{
    filters_are_valid_by_character(filter);
    if is_shared_filter(filter) {
        slash_is_first(filter, 7);
        let end = slash_from(filter, 7);
        let inner = filter.subrange(end + 1, filter.len() as int);
        assert forall|i: int| 0 <= i < inner.len() && #[trigger] inner[i] == '#' implies i
            == inner.len() - 1 && (i == 0 || inner[i - 1] == '/') by {
            assert(filter[end + 1 + i] == '#');
        }
        assert forall|i: int| 0 <= i < inner.len() && #[trigger] inner[i] == '+' implies (i == 0
            || inner[i - 1] == '/') && (i == inner.len() - 1 || inner[i + 1] == '/') by {
            assert(filter[end + 1 + i] == '+');
        }
        filters_are_valid_by_character(inner);
    }
}

/// No slash stands before the first one.
proof fn slash_is_first(text: Seq<char>, from: int)
    requires
        0 <= from <= text.len(),
    ensures
        from <= slash_from(text, from) <= text.len(),
        forall|i: int| from <= i < slash_from(text, from) ==> #[trigger] text[i] != '/',
        slash_from(text, from) < text.len() ==> text[slash_from(text, from)] == '/',
    decreases text.len() - from,
{
    if from < text.len() && text[from] != '/' {
        slash_is_first(text, from + 1);
    }
}

} // verus!
