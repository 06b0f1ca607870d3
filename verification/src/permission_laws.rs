//! Who may come in, and what they may do.
use vstd::prelude::*;
use vstd::utf8::decode_utf8;
use vstd::utf8::valid_utf8;

use crate::auth::AuthAclConfig;
use crate::auth::AuthAction;
use crate::auth::AuthConfig;
use crate::auth::AuthUserConfig;
use crate::auth::auth_defect;
use crate::auth::authenticated;
use crate::auth::filter_covers;
use crate::auth::has_user;
use crate::auth::is_user;
use crate::auth::levels_cover;
use crate::auth::may_publish;
use crate::auth::may_subscribe;
use crate::auth::publish_allowed;
use crate::auth::rules_defect;
use crate::auth::subscribe_allowed;
use crate::auth::users_defect;
use crate::protocol::filter_matches;
use crate::protocol::hash_level;
use crate::protocol::levels;
use crate::protocol::levels_not_empty;
use crate::protocol::match_filter_of;
use crate::protocol::plus_level;
use crate::protocol::valid_filter_level;
use crate::protocol::valid_topic_filter;
use crate::protocol::valid_topic_name;
use crate::retained_copy_laws::is_unshared_filter;
use crate::topic_laws::filters_match_by_level;
use crate::topic_laws::inner_filter_is_valid;
use crate::topic_laws::other_filters_are_not_shared;
use crate::topic_laws::topic_fits;
use crate::topic_laws::topic_shown;

verus! {

/// Where permissions are not kept, whoever brings no name and no password comes in as nobody, and
/// nobody else does. Where they are, whoever brings the name and the password of a user comes in as
/// that user, and nobody else does.
pub proof fn users_come_in_by_password(
    config: AuthConfig,
    username: Option<Seq<char>>,
    password: Option<Seq<u8>>,
)
    ensures
        ({
            let result = authenticated(config, username, password);
            &&& !config.enabled && username is None && password is None ==> result == Some(
                None::<Seq<char>>,
            )
            &&& !config.enabled && (username is Some || password is Some) ==> result is None
            &&& config.enabled ==> {
                let known = username is Some && password is Some && valid_utf8(password->0)
                    && exists|i: int|
                    0 <= i < config.users@.len() && (#[trigger] config.users@[i]).username@
                        == username->0 && config.users@[i].password@ == decode_utf8(password->0);
                &&& known ==> result == Some(username)
                &&& !known ==> result is None
            }
        }),
{
    if username is Some && password is Some {
        assert(is_user(config.users@, username->0, decode_utf8(password->0)) <==> exists|i: int|
            0 <= i < config.users@.len() && (#[trigger] config.users@[i]).username@ == username->0
                && config.users@[i].password@ == decode_utf8(password->0));
    }
}

/// A user may publish to a topic where permissions are not kept, or where a rule of theirs that
/// lets publish has a filter that the topic fits; nobody else may.
pub proof fn users_publish_by_rule(
    config: AuthConfig,
    principal: Option<Seq<char>>,
    topic: Seq<char>,
)
    requires
        valid_topic_name(topic),
        forall|i: int|
            0 <= i < config.acl@.len() ==> valid_topic_filter(
                (#[trigger] config.acl@[i]).topic_filter@,
            ),
    ensures
        publish_allowed(config, principal, topic) <==> !config.enabled || (principal is Some
            && exists|i: int|
            {
                &&& 0 <= i < config.acl@.len()
                &&& (#[trigger] config.acl@[i]).username@ == principal->0
                &&& config.acl@[i].action == AuthAction::Publish
                &&& topic_fits(config.acl@[i].topic_filter@, topic)
                &&& topic_shown(config.acl@[i].topic_filter@, topic)
            }),
{
    assert forall|i: int| 0 <= i < config.acl@.len() implies (filter_matches(
        (#[trigger] config.acl@[i]).topic_filter@,
        topic,
    ) <==> topic_fits(config.acl@[i].topic_filter@, topic) && topic_shown(
        config.acl@[i].topic_filter@,
        topic,
    )) by {
        filters_match_by_level(config.acl@[i].topic_filter@, topic);
    }
    if let Some(name) = principal {
        if may_publish(config.acl@, name, topic) {
            let i = choose|i: int|
                0 <= i < config.acl@.len() && (#[trigger] config.acl@[i]).username@ == name
                    && config.acl@[i].action == AuthAction::Publish && filter_matches(
                    config.acl@[i].topic_filter@,
                    topic,
                );
            assert(topic_fits(config.acl@[i].topic_filter@, topic));
        }
    }
}

/// A level is just a character.
pub open spec fn alone(level: Seq<char>, c: char) -> bool {
    level.len() == 1 && level[0] == c
}

/// The levels of one filter allow those of another: one by one the same or any, an open end only
/// where their own is open, and any level only where they ask for any.
pub open spec fn allows_levels(asked: Seq<Seq<char>>, given: Seq<Seq<char>>) -> bool {
    let open_end = asked.len() > 0 && alone(asked.last(), '#');
    let fixed: int = if open_end {
        asked.len() - 1
    } else {
        asked.len() as int
    };
    &&& if open_end {
        fixed <= given.len()
    } else {
        fixed == given.len()
    }
    &&& forall|i: int| 0 <= i < fixed ==> allows_level(#[trigger] asked[i], given[i])
}

/// A level allows another: neither is an open end, and it is any, or they are the same and not any.
pub open spec fn allows_level(asked: Seq<char>, given: Seq<char>) -> bool {
    !alone(given, '#') && (alone(asked, '+') || (!alone(given, '+') && asked == given))
}

/// One filter allows another: its levels do, and topics that are hidden from it are not allowed.
pub open spec fn allows(outer: Seq<char>, inner: Seq<char>) -> bool {
    &&& allows_levels(levels(outer), levels(inner))
    &&& inner.len() > 0 && inner[0] == '$' ==> outer.len() > 0 && outer[0] == '$'
}

proof fn alone_is_wildcard(level: Seq<char>)
    ensures
        alone(level, '#') <==> level == hash_level(),
        alone(level, '+') <==> level == plus_level(),
{
    if alone(level, '#') {
        assert(level =~= hash_level());
    }
    if alone(level, '+') {
        assert(level =~= plus_level());
    }
}

/// Covering level by level, one after the other, is covering at every level.
proof fn covering_at_every_level(asked: Seq<Seq<char>>, given: Seq<Seq<char>>)
    requires
        forall|i: int| 0 <= i < asked.len() - 1 ==> !alone(#[trigger] asked[i], '#'),
    ensures
        levels_cover(asked, given) <==> allows_levels(asked, given),
    decreases asked.len(),
{
    if asked.len() > 0 {
        alone_is_wildcard(asked[0]);
        if alone(asked[0], '#') {
            assert(asked.len() == 1);
        } else if given.len() > 0 {
            alone_is_wildcard(given[0]);
            let rest = asked.drop_first();
            let left = given.drop_first();
            assert forall|i: int| 0 <= i < rest.len() - 1 implies !alone(
                #[trigger] rest[i],
                '#',
            ) by {
                assert(rest[i] == asked[i + 1]);
            }
            covering_at_every_level(rest, left);
            let open_end = alone(asked.last(), '#');
            let fixed: int = if open_end {
                asked.len() - 1
            } else {
                asked.len() as int
            };
            if rest.len() > 0 {
                assert(rest.last() == asked.last());
            } else {
                assert(asked.last() == asked[0]);
            }
            if levels_cover(asked, given) {
                assert(allows_levels(rest, left));
                assert forall|i: int| 0 <= i < fixed implies allows_level(
                    #[trigger] asked[i],
                    given[i],
                ) by {
                    if i > 0 {
                        assert(allows_level(rest[i - 1], left[i - 1]));
                    }
                }
            }
            if allows_levels(asked, given) {
                assert(allows_level(asked[0], given[0]));
                assert forall|i: int| 0 <= i < fixed - 1 implies allows_level(
                    #[trigger] rest[i],
                    left[i],
                ) by {
                    assert(allows_level(asked[i + 1], given[i + 1]));
                }
                assert(allows_levels(rest, left));
            }
        } else if asked.len() == 1 {
            assert(asked.last() == asked[0]);
        }
    }
}

/// A user may subscribe to a filter where permissions are not kept, or where a rule of theirs that
/// lets subscribe has a filter that allows it; of a shared subscription what counts is the filter
/// that its topics are matched against. Nobody else may.
pub proof fn users_subscribe_by_rule(
    config: AuthConfig,
    principal: Option<Seq<char>>,
    filter: Seq<char>,
)
    requires
        valid_topic_filter(filter),
        is_unshared_filter(match_filter_of(filter)),
        forall|i: int|
            0 <= i < config.acl@.len() ==> valid_topic_filter(
                (#[trigger] config.acl@[i]).topic_filter@,
            ) && is_unshared_filter(config.acl@[i].topic_filter@),
    ensures
        subscribe_allowed(config, principal, filter) <==> !config.enabled || (principal is Some
            && exists|i: int|
            {
                &&& 0 <= i < config.acl@.len()
                &&& (#[trigger] config.acl@[i]).username@ == principal->0
                &&& config.acl@[i].action == AuthAction::Subscribe
                &&& allows(config.acl@[i].topic_filter@, match_filter_of(filter))
            }),
{
    let inner = match_filter_of(filter);
    inner_filter_is_valid(filter);
    other_filters_are_not_shared(inner);
    assert forall|i: int| 0 <= i < config.acl@.len() implies (filter_covers(
        (#[trigger] config.acl@[i]).topic_filter@,
        inner,
    ) <==> allows(config.acl@[i].topic_filter@, inner)) by {
        let outer = config.acl@[i].topic_filter@;
        other_filters_are_not_shared(outer);
        levels_not_empty(outer);
        let asked = levels(outer);
        assert forall|k: int| 0 <= k < asked.len() - 1 implies !alone(
            #[trigger] asked[k],
            '#',
        ) by {
            assert(valid_filter_level(asked[k], k + 1 == asked.len()));
            if alone(asked[k], '#') {
                assert(asked[k].contains('#'));
            }
        }
        covering_at_every_level(asked, levels(inner));
    }
    if let Some(name) = principal {
        if may_subscribe(config.acl@, name, filter) {
            let i = choose|i: int|
                0 <= i < config.acl@.len() && (#[trigger] config.acl@[i]).username@ == name
                    && config.acl@[i].action == AuthAction::Subscribe && filter_covers(
                    config.acl@[i].topic_filter@,
                    inner,
                );
            assert(allows(config.acl@[i].topic_filter@, inner));
        }
    }
}

/// Permissions are in order where they are not kept; or there are users, none without a name or a
/// password and no two of one name, and every rule is for one of them and has a filter that is one.
pub proof fn permissions_are_in_order(config: AuthConfig)
    ensures
        auth_defect(config) is None <==> !config.enabled || {
            let users = config.users@;
            let rules = config.acl@;
            &&& users.len() > 0
            &&& forall|i: int|
                0 <= i < users.len() ==> (#[trigger] users[i]).username@.len() > 0
                    && users[i].password@.len() > 0
            &&& forall|i: int, j: int|
                #![trigger users[i], users[j]]
                0 <= i < j < users.len() ==> users[i].username@ != users[j].username@
            &&& forall|k: int|
                0 <= k < rules.len() ==> valid_topic_filter((#[trigger] rules[k]).topic_filter@)
                    && exists|i: int|
                    0 <= i < users.len() && (#[trigger] users[i]).username@ == rules[k].username@
        },
{
    users_are_in_order(config.users@);
    rules_are_in_order(config.users@, config.acl@);
    assert forall|k: int| 0 <= k < config.acl@.len() implies has_user(
        config.users@,
        (#[trigger] config.acl@[k]).username@,
    ) == exists|i: int|
        0 <= i < config.users@.len() && (#[trigger] config.users@[i]).username@
            == config.acl@[k].username@ by {}
}

proof fn users_are_in_order(users: Seq<AuthUserConfig>)
    ensures
        users_defect(users) is None <==> {
            &&& forall|i: int|
                0 <= i < users.len() ==> (#[trigger] users[i]).username@.len() > 0
                    && users[i].password@.len() > 0
            &&& forall|i: int, j: int|
                #![trigger users[i], users[j]]
                0 <= i < j < users.len() ==> users[i].username@ != users[j].username@
        },
    decreases users.len(),
{
    if users.len() > 0 {
        let front = users.drop_last();
        let last = users.len() - 1;
        users_are_in_order(front);
        assert forall|i: int| 0 <= i < front.len() implies #[trigger] front[i] == users[i] by {}
        if users_defect(users) is None {
            assert forall|i: int| 0 <= i < users.len() implies (
            #[trigger] users[i]).username@.len() > 0 && users[i].password@.len() > 0 by {
                if i < last {
                    assert(front[i] == users[i]);
                }
            }
            assert forall|i: int, j: int|
                #![trigger users[i], users[j]]
                0 <= i < j < users.len() implies users[i].username@ != users[j].username@ by {
                assert(front[i] == users[i]);
                if j < last {
                    assert(front[j] == users[j]);
                }
            }
        } else {
            if has_user(front, users[last].username@) {
                let i = choose|i: int|
                    0 <= i < front.len() && (#[trigger] front[i]).username@
                        == users[last].username@;
                assert(users[i].username@ == users[last].username@);
            }
            if users_defect(front) is Some {
                if forall|i: int|
                    0 <= i < users.len() ==> (#[trigger] users[i]).username@.len() > 0
                        && users[i].password@.len() > 0 {
                    assert forall|i: int| 0 <= i < front.len() implies (
                    #[trigger] front[i]).username@.len() > 0 && front[i].password@.len() > 0 by {
                        assert(users[i].username@.len() > 0);
                    }
                    let (i, j) = choose|i: int, j: int|
                        #![trigger front[i], front[j]]
                        0 <= i < j < front.len() && front[i].username@ == front[j].username@;
                    assert(users[i].username@ == users[j].username@);
                }
            }
            assert(users[last].username@.len() == 0 || users[last].password@.len() == 0 || has_user(
                front,
                users[last].username@,
            ) || users_defect(front) is Some);
        }
    }
}

proof fn rules_are_in_order(users: Seq<AuthUserConfig>, rules: Seq<AuthAclConfig>)
    ensures
        rules_defect(users, rules) is None <==> forall|k: int|
            0 <= k < rules.len() ==> valid_topic_filter((#[trigger] rules[k]).topic_filter@)
                && has_user(users, rules[k].username@),
    decreases rules.len(),
{
    if rules.len() > 0 {
        let front = rules.drop_last();
        let last = rules.len() - 1;
        rules_are_in_order(users, front);
        if rules_defect(users, rules) is None {
            assert forall|k: int| 0 <= k < rules.len() implies valid_topic_filter(
                (#[trigger] rules[k]).topic_filter@,
            ) && has_user(users, rules[k].username@) by {
                if k < last {
                    assert(front[k] == rules[k]);
                }
            }
        } else if rules_defect(users, front) is Some {
            let k = choose|k: int|
                0 <= k < front.len() && !(valid_topic_filter((#[trigger] front[k]).topic_filter@)
                    && has_user(users, front[k].username@));
            assert(rules[k] == front[k]);
        } else {
            assert(rules[last] == rules.last());
        }
    }
}

} // verus!
