//! Who may connect, publish and subscribe.
use vstd::prelude::*;
use vstd::string::StringExecFns;
use vstd::utf8::decode_utf8;
use vstd::utf8::valid_utf8;

use crate::ordered_map::TextSet;
use crate::protocol::BAD_USER_NAME_OR_PASSWORD;
use crate::protocol::filter_matches;
use crate::protocol::hash_level;
use crate::protocol::is_hash;
use crate::protocol::is_plus;
use crate::protocol::is_valid_topic_filter;
use crate::protocol::levels;
use crate::protocol::levels_match;
use crate::protocol::match_filter;
use crate::protocol::match_filter_of;
use crate::protocol::plus_level;
use crate::protocol::split_levels;
use crate::protocol::topic_matches;
use crate::protocol::valid_topic_filter;
use crate::text::begins_with;
use crate::text::text_begins_with;
use crate::text::text_concat;
use crate::text::utf8_text;
use crate::value::Value;

verus! {

/// What a rule allows.
#[derive(Clone, Copy, Debug, PartialEq, Eq, Structural)]
pub enum AuthAction {
    Publish,
    Subscribe,
}

/// A user and the password.
#[derive(Debug)]
pub struct AuthUserConfig {
    pub username: String,
    pub password: String,
}

/// A rule that allows a user something on the topics that a filter covers.
#[derive(Debug)]
pub struct AuthAclConfig {
    pub username: String,
    pub action: AuthAction,
    pub topic_filter: String,
}

/// Who may do what.
#[derive(Debug)]
pub struct AuthConfig {
    pub enabled: bool,
    pub users: Vec<AuthUserConfig>,
    pub acl: Vec<AuthAclConfig>,
}

/// Who a client is.
#[derive(Debug)]
pub struct Authentication {
    pub principal: Option<String>,
}

/// The levels of a filter take in everything that the levels of another do.
pub open spec fn levels_cover(allowed: Seq<Seq<char>>, requested: Seq<Seq<char>>) -> bool
    decreases allowed.len(),
{
    if allowed.len() == 0 {
        requested.len() == 0
    } else if allowed[0] == hash_level() {
        true
    } else if requested.len() == 0 || requested[0] == hash_level() {
        false
    } else {
        &&& allowed[0] == plus_level() || (requested[0] != plus_level() && allowed[0]
            == requested[0])
        &&& levels_cover(allowed.drop_first(), requested.drop_first())
    }
}

/// An allowed filter takes in everything that a requested filter does, by what follows the group
/// where one of them is shared.
pub open spec fn filter_covers(allowed: Seq<char>, requested: Seq<char>) -> bool {
    let outer = match_filter_of(allowed);
    let inner = match_filter_of(requested);
    &&& valid_topic_filter(outer)
    &&& valid_topic_filter(inner)
    &&& begins_with(inner, '$') ==> begins_with(outer, '$')
    &&& levels_cover(levels(outer), levels(inner))
}

/// Whether an allowed filter takes in everything that a requested filter does.
pub fn topic_filter_covers(allowed_filter: &str, requested_filter: &str) -> (result: bool)
    ensures
        result == filter_covers(allowed_filter@, requested_filter@),
{
    let outer: String = match_filter(allowed_filter);
    let inner: String = match_filter(requested_filter);
    if !is_valid_topic_filter(outer.as_str()) || !is_valid_topic_filter(inner.as_str()) {
        return false;
    }
    if text_begins_with(inner.as_str(), '$') && !text_begins_with(outer.as_str(), '$') {
        return false;
    }
    let allowed: Vec<String> = split_levels(outer.as_str());
    let requested: Vec<String> = split_levels(inner.as_str());
    cover_levels(&allowed, &requested)
}

/// Whether the levels of a filter take in everything that the levels of another do.
fn cover_levels(allowed: &Vec<String>, requested: &Vec<String>) -> (result: bool)
    ensures
        result == levels_cover(allowed.deep_view(), requested.deep_view()),
{
    let ghost a = allowed.deep_view();
    let ghost r = requested.deep_view();
    let mut index: usize = 0;
    assert(a.skip(0) =~= a);
    assert(r.skip(0) =~= r);
    while index < allowed.len()
        invariant
            index <= allowed.len(),
            index <= requested.len(),
            a == allowed.deep_view(),
            r == requested.deep_view(),
            levels_cover(a, r) == levels_cover(a.skip(index as int), r.skip(index as int)),
        decreases allowed.len() - index,
    {
        assert(a.skip(index as int)[0] == allowed@[index as int]@);
        assert(a.skip(index as int).drop_first() =~= a.skip(index + 1));
        if is_hash(allowed[index].as_str()) {
            return true;
        }
        if index == requested.len() {
            return false;
        }
        assert(r.skip(index as int)[0] == requested@[index as int]@);
        assert(r.skip(index as int).drop_first() =~= r.skip(index + 1));
        if is_hash(requested[index].as_str()) {
            return false;
        }
        if !is_plus(allowed[index].as_str()) && (is_plus(requested[index].as_str())
            || !allowed[index].same(&requested[index])) {
            return false;
        }
        index += 1;
    }
    index == requested.len()
}

/// Levels that cover others match whatever the others match.
proof fn cover_matches(allowed: Seq<Seq<char>>, requested: Seq<Seq<char>>, topic: Seq<Seq<char>>)
    requires
        levels_cover(allowed, requested),
        levels_match(requested, topic),
    ensures
        levels_match(allowed, topic),
    decreases allowed.len(),
{
    if allowed.len() > 0 && allowed[0] != hash_level() {
        cover_matches(allowed.drop_first(), requested.drop_first(), topic.drop_first());
    }
}

/// A filter that covers another matches every topic that the other matches.
pub proof fn covering_filter_matches(
    allowed: Seq<char>,
    requested: Seq<char>,
    topic: Seq<char>,
)
    requires
        filter_covers(allowed, requested),
        filter_matches(match_filter_of(requested), topic),
    ensures
        filter_matches(match_filter_of(allowed), topic),
{
    cover_matches(
        levels(match_filter_of(allowed)),
        levels(match_filter_of(requested)),
        levels(topic),
    );
}

/// The user with this name has this password.
pub open spec fn is_user(
    users: Seq<AuthUserConfig>,
    username: Seq<char>,
    password: Seq<char>,
) -> bool {
    exists|i: int|
        0 <= i < users.len() && (#[trigger] users[i]).username@ == username && users[i].password@
            == password
}

/// Some rule allows a user to publish to a topic.
pub open spec fn may_publish(
    rules: Seq<AuthAclConfig>,
    principal: Seq<char>,
    topic: Seq<char>,
) -> bool {
    exists|i: int|
        0 <= i < rules.len() && (#[trigger] rules[i]).username@ == principal && rules[i].action
            == AuthAction::Publish && filter_matches(rules[i].topic_filter@, topic)
}

/// Some rule allows a user to subscribe to a filter.
pub open spec fn may_subscribe(
    rules: Seq<AuthAclConfig>,
    principal: Seq<char>,
    filter: Seq<char>,
) -> bool {
    exists|i: int|
        0 <= i < rules.len() && (#[trigger] rules[i]).username@ == principal && rules[i].action
            == AuthAction::Subscribe && filter_covers(
            rules[i].topic_filter@,
            match_filter_of(filter),
        )
}

/// Who a client is by name and password, where that is known.
pub open spec fn authenticated(
    config: AuthConfig,
    username: Option<Seq<char>>,
    password: Option<Seq<u8>>,
) -> Option<Option<Seq<char>>> {
    if !config.enabled {
        if username is None && password is None {
            Some(None)
        } else {
            None
        }
    } else {
        match (username, password) {
            (Some(name), Some(word)) => if valid_utf8(word) && is_user(
                config.users@,
                name,
                decode_utf8(word),
            ) {
                Some(Some(name))
            } else {
                None
            },
            _ => None,
        }
    }
}

/// A client that authenticated as somebody may publish to a topic.
pub open spec fn publish_allowed(
    config: AuthConfig,
    principal: Option<Seq<char>>,
    topic: Seq<char>,
) -> bool {
    !config.enabled || (principal matches Some(name) && may_publish(config.acl@, name, topic))
}

/// A client that authenticated as somebody may subscribe to a filter.
pub open spec fn subscribe_allowed(
    config: AuthConfig,
    principal: Option<Seq<char>>,
    filter: Seq<char>,
) -> bool {
    !config.enabled || (principal matches Some(name) && may_subscribe(config.acl@, name, filter))
}

impl Default for AuthConfig {
    fn default() -> (result: Self)
        ensures
            !result.enabled,
            result.users@.len() == 0,
            result.acl@.len() == 0,
    {
        AuthConfig { enabled: false, users: Vec::new(), acl: Vec::new() }
    }
}

/// Decides by a configuration.
#[derive(Debug)]
pub struct ConfiguredAuthenticator {
    config: AuthConfig,
}

impl Default for ConfiguredAuthenticator {
    fn default() -> (result: Self)
        ensures
            !result.rules().enabled,
            result.rules().users@.len() == 0,
            result.rules().acl@.len() == 0,
    {
        ConfiguredAuthenticator::new(AuthConfig::default())
    }
}

impl ConfiguredAuthenticator {
    /// The configuration.
    pub closed spec fn rules(&self) -> AuthConfig {
        self.config
    }

    /// Decides by a configuration.
    pub fn new(config: AuthConfig) -> (result: Self)
        ensures
            result.rules() == config,
    {
        ConfiguredAuthenticator { config }
    }

    /// Who a client is by name and password.
    pub fn authenticate(&self, username: &Option<String>, password: &Option<Vec<u8>>) -> (result:
        Result<Authentication, u8>)
        ensures
            match authenticated(self.rules(), username.deep_view(), password.deep_view()) {
                Some(principal) => result matches Ok(found) && found.principal.deep_view()
                    == principal,
                None => result == Err::<Authentication, u8>(BAD_USER_NAME_OR_PASSWORD),
            },
    {
        if !self.config.enabled {
            return if username.is_none() && password.is_none() {
                Ok(Authentication { principal: None })
            } else {
                Err(BAD_USER_NAME_OR_PASSWORD)
            };
        }
        let name: &String = match username {
            Some(name) => name,
            None => return Err(BAD_USER_NAME_OR_PASSWORD),
        };
        let word: String = match password {
            Some(bytes) => {
                assert(bytes.deep_view() =~= bytes@);
                match utf8_text(bytes.as_slice()) {
                    Some(word) => word,
                    None => return Err(BAD_USER_NAME_OR_PASSWORD),
                }
            },
            None => return Err(BAD_USER_NAME_OR_PASSWORD),
        };
        let mut index: usize = 0;
        while index < self.config.users.len()
            invariant
                index <= self.config.users@.len(),
                forall|i: int|
                    0 <= i < index ==> !((#[trigger] self.config.users@[i]).username@ == name@
                        && self.config.users@[i].password@ == word@),
                self.config.enabled,
                *username == Some(*name),
                password matches Some(bytes) && valid_utf8(bytes.deep_view()) && decode_utf8(
                    bytes.deep_view(),
                ) == word@,
            decreases self.config.users@.len() - index,
        {
            let user: &AuthUserConfig = &self.config.users[index];
            if user.username.same(name) && user.password.same(&word) {
                assert(is_user(self.config.users@, name@, word@)) by {
                    assert(self.config.users@[index as int].username@ == name@);
                }
                return Ok(Authentication { principal: Some(name.dup()) });
            }
            index += 1;
        }
        Err(BAD_USER_NAME_OR_PASSWORD)
    }

    /// Whether a client may publish to a topic.
    pub fn authorize_publish(&self, principal: &Option<String>, topic_name: &str) -> (result: bool)
        ensures
            result == publish_allowed(self.rules(), principal.deep_view(), topic_name@),
    {
        if !self.config.enabled {
            return true;
        }
        let name: &String = match principal {
            Some(name) => name,
            None => return false,
        };
        let mut index: usize = 0;
        while index < self.config.acl.len()
            invariant
                index <= self.config.acl@.len(),
                self.config.enabled,
                *principal == Some(*name),
                forall|i: int|
                    0 <= i < index ==> !((#[trigger] self.config.acl@[i]).username@ == name@
                        && self.config.acl@[i].action == AuthAction::Publish && filter_matches(
                        self.config.acl@[i].topic_filter@,
                        topic_name@,
                    )),
            decreases self.config.acl@.len() - index,
        {
            let rule: &AuthAclConfig = &self.config.acl[index];
            if rule.username.same(name) && rule.action == AuthAction::Publish && topic_matches(
                rule.topic_filter.as_str(),
                topic_name,
            ) {
                assert(self.config.acl@[index as int].username@ == name@);
                return true;
            }
            index += 1;
        }
        false
    }

    /// Whether a client may subscribe to a filter.
    pub fn authorize_subscribe(&self, principal: &Option<String>, topic_filter: &str) -> (result:
        bool)
        ensures
            result == subscribe_allowed(self.rules(), principal.deep_view(), topic_filter@),
    {
        if !self.config.enabled {
            return true;
        }
        let name: &String = match principal {
            Some(name) => name,
            None => return false,
        };
        let requested: String = match_filter(topic_filter);
        let mut index: usize = 0;
        while index < self.config.acl.len()
            invariant
                index <= self.config.acl@.len(),
                self.config.enabled,
                *principal == Some(*name),
                requested@ == match_filter_of(topic_filter@),
                forall|i: int|
                    0 <= i < index ==> !((#[trigger] self.config.acl@[i]).username@ == name@
                        && self.config.acl@[i].action == AuthAction::Subscribe && filter_covers(
                        self.config.acl@[i].topic_filter@,
                        requested@,
                    )),
            decreases self.config.acl@.len() - index,
        {
            let rule: &AuthAclConfig = &self.config.acl[index];
            if rule.username.same(name) && rule.action == AuthAction::Subscribe
                && topic_filter_covers(rule.topic_filter.as_str(), requested.as_str()) {
                assert(self.config.acl@[index as int].username@ == name@);
                return true;
            }
            index += 1;
        }
        false
    }
}

/// A text in a message, between quotes.
pub open spec fn quoted(before: Seq<char>, text: Seq<char>, after: Seq<char>) -> Seq<char> {
    before + text + after
}

/// The names of the users are those of the first of them.
pub open spec fn has_user(users: Seq<AuthUserConfig>, username: Seq<char>) -> bool {
    exists|i: int| 0 <= i < users.len() && (#[trigger] users[i]).username@ == username
}

/// The first thing that is wrong with some users.
pub open spec fn users_defect(users: Seq<AuthUserConfig>) -> Option<Seq<char>>
    decreases users.len(),
{
    if users.len() == 0 {
        None
    } else {
        let last = users.last();
        match users_defect(users.drop_last()) {
            Some(defect) => Some(defect),
            None => if last.username@.len() == 0 {
                Some("auth.users.username must not be empty"@)
            } else if last.password@.len() == 0 {
                Some("auth.users.password must not be empty"@)
            } else if has_user(users.drop_last(), last.username@) {
                Some(quoted("auth.users contains duplicate username `"@, last.username@, "`"@))
            } else {
                None
            },
        }
    }
}

/// What is wrong with a rule.
pub open spec fn rule_defect(users: Seq<AuthUserConfig>, rule: AuthAclConfig) -> Option<Seq<char>> {
    if !has_user(users, rule.username@) {
        Some(quoted("auth.acl references unknown username `"@, rule.username@, "`"@))
    } else if !valid_topic_filter(rule.topic_filter@) {
        Some(
            quoted(
                "auth.acl topic_filter `"@,
                rule.topic_filter@,
                "` is not a valid MQTT topic filter"@,
            ),
        )
    } else {
        None
    }
}

/// The first thing that is wrong with some rules.
pub open spec fn rules_defect(users: Seq<AuthUserConfig>, rules: Seq<AuthAclConfig>) -> Option<
    Seq<char>,
>
    decreases rules.len(),
{
    if rules.len() == 0 {
        None
    } else {
        match rules_defect(users, rules.drop_last()) {
            Some(defect) => Some(defect),
            None => rule_defect(users, rules.last()),
        }
    }
}

/// The first thing that is wrong with a configuration.
pub open spec fn auth_defect(config: AuthConfig) -> Option<Seq<char>> {
    if !config.enabled {
        None
    } else if config.users@.len() == 0 {
        Some("auth.users must contain at least one user when auth.enabled is true"@)
    } else {
        match users_defect(config.users@) {
            Some(defect) => Some(defect),
            None => rules_defect(config.users@, config.acl@),
        }
    }
}

proof fn users_defect_of_prefix(users: Seq<AuthUserConfig>, count: int)
    requires
        0 <= count <= users.len(),
        users_defect(users.take(count)) is Some,
    ensures
        users_defect(users) == users_defect(users.take(count)),
    decreases users.len(),
{
    if count == users.len() {
        assert(users.take(count) =~= users);
    } else {
        assert(users.drop_last().take(count) =~= users.take(count));
        users_defect_of_prefix(users.drop_last(), count);
    }
}

proof fn rules_defect_of_prefix(
    users: Seq<AuthUserConfig>,
    rules: Seq<AuthAclConfig>,
    count: int,
)
    requires
        0 <= count <= rules.len(),
        rules_defect(users, rules.take(count)) is Some,
    ensures
        rules_defect(users, rules) == rules_defect(users, rules.take(count)),
    decreases rules.len(),
{
    if count == rules.len() {
        assert(rules.take(count) =~= rules);
    } else {
        assert(rules.drop_last().take(count) =~= rules.take(count));
        rules_defect_of_prefix(users, rules.drop_last(), count);
    }
}

impl AuthConfig {
    /// Checks a configuration.
    pub fn validate(&self) -> (result: Result<(), String>)
        ensures
            match result {
                Ok(()) => auth_defect(*self) is None,
                Err(message) => auth_defect(*self) == Some(message@),
            },
    {
        if !self.enabled {
            return Ok(());
        }
        if self.users.len() == 0 {
            return Err(
                "auth.users must contain at least one user when auth.enabled is true".to_owned(),
            );
        }
        let mut usernames: TextSet = TextSet::new();
        match self.check_users(&mut usernames) {
            Ok(()) => {},
            Err(defect) => return Err(defect),
        }
        let ghost rules = self.acl@;
        let mut index: usize = 0;
        while index < self.acl.len()
            invariant
                index <= self.acl@.len(),
                rules == self.acl@,
                self.enabled,
                self.users@.len() > 0,
                users_defect(self.users@) is None,
                rules_defect(self.users@, rules.take(index as int)) is None,
                forall|name: Seq<char>| #[trigger]
                    usernames.deep_view().dom().contains(name) <==> has_user(self.users@, name),
            decreases self.acl@.len() - index,
        {
            let rule: &AuthAclConfig = &self.acl[index];
            proof {
                assert(rules.take(index + 1).drop_last() =~= rules.take(index as int));
                assert(rules.take(index + 1).last() == *rule);
                if rules_defect(self.users@, rules.take(index + 1)) is Some {
                    rules_defect_of_prefix(self.users@, rules, index + 1);
                }
            }
            if !usernames.contains_key(&rule.username) {
                return Err(
                    text_concat(
                        "auth.acl references unknown username `",
                        rule.username.as_str(),
                    ).concat("`"),
                );
            }
            if !is_valid_topic_filter(rule.topic_filter.as_str()) {
                return Err(
                    text_concat("auth.acl topic_filter `", rule.topic_filter.as_str()).concat(
                        "` is not a valid MQTT topic filter",
                    ),
                );
            }
            index += 1;
        }
        assert(rules.take(index as int) =~= rules);
        Ok(())
    }

    /// Checks the users, and collects their names.
    fn check_users(&self, usernames: &mut TextSet) -> (result: Result<(), String>)
        requires
            old(usernames).deep_view() == Map::<Seq<char>, ()>::empty(),
        ensures
            match result {
                Ok(()) => users_defect(self.users@) is None && forall|name: Seq<char>| #[trigger]
                    final(usernames).deep_view().dom().contains(name) <==> has_user(
                        self.users@,
                        name,
                    ),
                Err(message) => users_defect(self.users@) == Some(message@),
            },
    {
        let ghost users = self.users@;
        let mut index: usize = 0;
        while index < self.users.len()
            invariant
                index <= self.users@.len(),
                users == self.users@,
                users_defect(users.take(index as int)) is None,
                forall|name: Seq<char>| #[trigger]
                    usernames.deep_view().dom().contains(name) <==> has_user(
                        users.take(index as int),
                        name,
                    ),
            decreases self.users@.len() - index,
        {
            let user: &AuthUserConfig = &self.users[index];
            let ghost before = users.take(index as int);
            let ghost after = users.take(index + 1);
            proof {
                assert(after.drop_last() =~= before);
                assert(after.last() == *user);
                if users_defect(after) is Some {
                    users_defect_of_prefix(users, index + 1);
                }
            }
            if user.username.as_str().is_empty() {
                return Err("auth.users.username must not be empty".to_owned());
            }
            if user.password.as_str().is_empty() {
                return Err("auth.users.password must not be empty".to_owned());
            }
            if usernames.insert(user.username.dup(), ()).is_some() {
                return Err(
                    text_concat(
                        "auth.users contains duplicate username `",
                        user.username.as_str(),
                    ).concat("`"),
                );
            }
            proof {
                assert forall|name: Seq<char>| #[trigger]
                    usernames.deep_view().dom().contains(name) <==> has_user(after, name) by {
                    if has_user(before, name) {
                        let i = choose|i: int|
                            0 <= i < before.len() && (#[trigger] before[i]).username@ == name;
                        assert(after[i].username@ == name);
                    }
                    if has_user(after, name) {
                        let i = choose|i: int|
                            0 <= i < after.len() && (#[trigger] after[i]).username@ == name;
                        if i < index {
                            assert(before[i].username@ == name);
                        }
                    }
                    assert(after[index as int].username@ == user.username@);
                }
            }
            index += 1;
        }
        assert(users.take(index as int) =~= users);
        Ok(())
    }
}

} // verus!
