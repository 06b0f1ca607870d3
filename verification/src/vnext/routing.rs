//! Subscriptions by the levels of their filters.
use vstd::prelude::*;
use vstd::string::StringExecFns;

use crate::protocol::filter_matches;
use crate::protocol::hash_level;
use crate::protocol::is_valid_topic_filter;
use crate::protocol::is_valid_topic_name;
use crate::protocol::levels;
use crate::protocol::levels_hold;
use crate::protocol::levels_injective;
use crate::protocol::levels_match;
use crate::protocol::match_filter;
use crate::protocol::match_filter_of;
use crate::protocol::plus_level;
use crate::protocol::shared_group;
use crate::protocol::shared_subscription_group;
use crate::protocol::split_levels;
use crate::protocol::valid_filter_level;
use crate::protocol::valid_topic_filter;
use crate::protocol::valid_topic_name;
use crate::storage::delta::lookup;
use crate::subscription::filter_step;
use crate::text::begins_with;
use crate::text::str_eq;
use crate::text::text_begins_with;
use crate::value::Value;

verus! {

/// A subscription of a client.
#[derive(Debug, PartialEq)]
pub struct RouteSubscription {
    pub client_id: String,
    pub filter: String,
    pub match_filter: String,
    pub shared_group: Option<String>,
    pub subscription_identifier: Option<u32>,
}

/// What a `RouteSubscription` stands for.
pub struct RouteView {
    pub client_id: Seq<char>,
    pub filter: Seq<char>,
    pub match_filter: Seq<char>,
    pub shared_group: Option<Seq<char>>,
    pub subscription_identifier: Option<u32>,
}

impl DeepView for RouteSubscription {
    type V = RouteView;

    open spec fn deep_view(&self) -> RouteView {
        RouteView {
            client_id: self.client_id.deep_view(),
            filter: self.filter.deep_view(),
            match_filter: self.match_filter.deep_view(),
            shared_group: self.shared_group.deep_view(),
            subscription_identifier: self.subscription_identifier.deep_view(),
        }
    }
}

impl Value for RouteSubscription {
    fn dup(&self) -> (copy: Self) {
        RouteSubscription {
            client_id: self.client_id.dup(),
            filter: self.filter.dup(),
            match_filter: self.match_filter.dup(),
            shared_group: self.shared_group.dup(),
            subscription_identifier: self.subscription_identifier.dup(),
        }
    }

    fn same(&self, other: &Self) -> (result: bool) {
        self.client_id.same(&other.client_id)
            && self.filter.same(&other.filter)
            && self.match_filter.same(&other.match_filter)
            && self.shared_group.same(&other.shared_group)
            && self.subscription_identifier.same(&other.subscription_identifier)
    }
}

/// The subscription of a client under a filter.
pub open spec fn route_for(
    client_id: Seq<char>,
    filter: Seq<char>,
    subscription_identifier: Option<u32>,
) -> RouteView {
    RouteView {
        client_id,
        filter,
        match_filter: match_filter_of(filter),
        shared_group: shared_group(filter),
        subscription_identifier,
    }
}

/// A subscription is that of a client under a filter.
pub open spec fn is_route(route: RouteView, client_id: Seq<char>, filter: Seq<char>) -> bool {
    route.client_id == client_id && route.filter == filter
}

/// The first position of a client's subscription under a filter.
pub open spec fn route_position(
    routes: Seq<RouteView>,
    client_id: Seq<char>,
    filter: Seq<char>,
) -> Option<int>
    decreases routes.len(),
{
    if routes.len() == 0 {
        None
    } else {
        match route_position(routes.drop_last(), client_id, filter) {
            Some(index) => Some(index),
            None => if is_route(routes.last(), client_id, filter) {
                Some(routes.len() - 1)
            } else {
                None
            },
        }
    }
}

/// The subscriptions with one put: in the place of the client's own under the filter, or at the
/// end.
pub open spec fn route_put(routes: Seq<RouteView>, route: RouteView) -> Seq<RouteView> {
    match route_position(routes, route.client_id, route.filter) {
        Some(index) => routes.update(index, route),
        None => routes.push(route),
    }
}

/// The subscriptions without those of a client under a filter.
pub open spec fn route_removed(
    routes: Seq<RouteView>,
    client_id: Seq<char>,
    filter: Seq<char>,
) -> Seq<RouteView> {
    routes.filter(|route: RouteView| !is_route(route, client_id, filter))
}

impl RouteSubscription {
    /// The subscription of a client under a filter.
    pub fn new(client_id: &str, filter: &str, subscription_identifier: Option<u32>) -> (result:
        Self)
        ensures
            result.deep_view() == route_for(client_id@, filter@, subscription_identifier),
    {
        RouteSubscription {
            client_id: client_id.to_owned(),
            filter: filter.to_owned(),
            match_filter: match_filter(filter),
            shared_group: match shared_subscription_group(filter) {
                Some(group) => Some(group.to_owned()),
                None => None,
            },
            subscription_identifier,
        }
    }

    fn key_matches(&self, client_id: &str, filter: &str) -> (result: bool)
        ensures
            result == is_route(self.deep_view(), client_id@, filter@),
    {
        str_eq(self.client_id.as_str(), client_id) && str_eq(self.filter.as_str(), filter)
    }
}

/// Puts a subscription: in the place of the client's own under the filter, or at the end.
fn upsert_subscription(routes: &mut Vec<RouteSubscription>, route: RouteSubscription)
    ensures
        final(routes).deep_view() == route_put(old(routes).deep_view(), route.deep_view()),
{
    let ghost list = routes.deep_view();
    let ghost view = route.deep_view();
    let mut index: usize = 0;
    while index < routes.len()
        invariant
            index <= routes@.len(),
            list == routes.deep_view(),
            *routes == *old(routes),
            view == route.deep_view(),
            route_position(list.take(index as int), view.client_id, view.filter) is None,
        decreases routes@.len() - index,
    {
        proof {
            assert(list.take(index + 1).drop_last() =~= list.take(index as int));
            assert(list.take(index + 1).last() == routes@[index as int].deep_view());
        }
        if routes[index].key_matches(route.client_id.as_str(), route.filter.as_str()) {
            proof {
                route_position_stays(list, index + 1, view.client_id, view.filter);
            }
            routes[index] = route;
            assert(routes.deep_view() =~= list.update(index as int, view));
            return;
        }
        index += 1;
    }
    assert(list.take(index as int) =~= list);
    routes.push(route);
    assert(routes.deep_view() =~= list.push(view));
}

proof fn route_position_stays(
    routes: Seq<RouteView>,
    count: int,
    client_id: Seq<char>,
    filter: Seq<char>,
)
    requires
        0 <= count <= routes.len(),
        route_position(routes.take(count), client_id, filter) is Some,
    ensures
        route_position(routes, client_id, filter) == route_position(
            routes.take(count),
            client_id,
            filter,
        ),
    decreases routes.len(),
{
    if count == routes.len() {
        assert(routes.take(count) =~= routes);
    } else {
        assert(routes.drop_last().take(count) =~= routes.take(count));
        route_position_stays(routes.drop_last(), count, client_id, filter);
    }
}

/// Removes the subscriptions of a client under a filter.
fn remove_subscription(routes: &mut Vec<RouteSubscription>, client_id: &str, filter: &str)
    ensures
        final(routes).deep_view() == route_removed(old(routes).deep_view(), client_id@, filter@),
{
    let ghost keep = |route: RouteView| !is_route(route, client_id@, filter@);
    let ghost list = routes.deep_view();
    let mut kept: Vec<RouteSubscription> = Vec::new();
    let mut index: usize = 0;
    proof {
        assert(list.take(0).filter(keep) =~= Seq::<RouteView>::empty()) by {
            reveal(Seq::filter);
        }
        assert(kept.deep_view() =~= Seq::<RouteView>::empty());
    }
    while index < routes.len()
        invariant
            index <= routes@.len(),
            list == routes.deep_view(),
            keep == (|route: RouteView| !is_route(route, client_id@, filter@)),
            kept.deep_view() == list.take(index as int).filter(keep),
        decreases routes@.len() - index,
    {
        let ghost before = kept.deep_view();
        proof {
            filter_step(list, index as int, keep);
            assert(list[index as int] == routes@[index as int].deep_view());
        }
        if !routes[index].key_matches(client_id, filter) {
            let route: RouteSubscription = routes[index].dup();
            let ghost view = route.deep_view();
            kept.push(route);
            assert(kept.deep_view() =~= before.push(view));
        }
        index += 1;
    }
    assert(list.take(index as int) =~= list);
    *routes = kept;
}

/// A node of the index: the levels that follow, and the subscriptions whose filter ends here.
pub struct TrieNode {
    names: Vec<String>,
    children: Vec<TrieNode>,
    routes: Vec<RouteSubscription>,
}

impl TrieNode {
    /// No level follows a node twice, here and below.
    pub closed spec fn wf(self) -> bool
        decreases self,
    {
        &&& self.names@.len() == self.children@.len()
        &&& forall|i: int, j: int|
            #![trigger self.names@[i], self.names@[j]]
            0 <= i < j < self.names@.len() ==> self.names@[i]@ != self.names@[j]@
        &&& forall|i: int| 0 <= i < self.children@.len() ==> (#[trigger] self.children@[i]).wf()
    }

    closed spec fn has_child(self, name: Seq<char>) -> bool {
        exists|i: int| 0 <= i < self.names@.len() && (#[trigger] self.names@[i])@ == name
    }

    closed spec fn child_index(self, name: Seq<char>) -> int {
        choose|i: int| 0 <= i < self.names@.len() && (#[trigger] self.names@[i])@ == name
    }

    /// The subscriptions whose filter has some levels.
    pub closed spec fn at(self, path: Seq<Seq<char>>) -> Seq<RouteView>
        decreases path.len(),
    {
        if path.len() == 0 {
            self.routes.deep_view()
        } else if self.has_child(path[0]) {
            self.children@[self.child_index(path[0])].at(path.drop_first())
        } else {
            Seq::empty()
        }
    }

    /// The subscriptions that the levels of a topic lead to: those under `#`, then those that end
    /// here where the topic does, or else those below the next level and then those below `+`.
    pub closed spec fn collected(self, levels: Seq<Seq<char>>) -> Seq<RouteView>
        decreases levels.len(), 0nat,
    {
        let hash = self.at(seq![hash_level()]);
        if levels.len() == 0 {
            hash + self.routes.deep_view()
        } else {
            hash + self.collected_below(levels[0], levels.drop_first()) + self.collected_below(
                plus_level(),
                levels.drop_first(),
            )
        }
    }

    closed spec fn collected_below(self, name: Seq<char>, rest: Seq<Seq<char>>) -> Seq<RouteView>
        decreases rest.len(), 1nat,
    {
        if self.has_child(name) {
            self.children@[self.child_index(name)].collected(rest)
        } else {
            Seq::empty()
        }
    }

    proof fn child_index_is(self, index: int)
        requires
            self.wf(),
            0 <= index < self.names@.len(),
        ensures
            self.has_child(self.names@[index]@),
            self.child_index(self.names@[index]@) == index,
    {
        let name = self.names@[index]@;
        assert(self.names@[index]@ == name);
        let found = self.child_index(name);
        if found < index {
            assert(self.names@[found]@ != self.names@[index]@);
        } else if index < found {
            assert(self.names@[index]@ != self.names@[found]@);
        }
    }

    /// The empty index.
    pub fn new() -> (result: Self)
        ensures
            result.wf(),
            forall|path: Seq<Seq<char>>|
                (#[trigger] result.at(path)) == Seq::<RouteView>::empty(),
    {
        let result: TrieNode = TrieNode {
            names: Vec::new(),
            children: Vec::new(),
            routes: Vec::new(),
        };
        assert(result.routes.deep_view() =~= Seq::<RouteView>::empty());
        result
    }

    /// The position of a level that follows.
    fn find(&self, name: &str) -> (result: Option<usize>)
        requires
            self.wf(),
        ensures
            match result {
                Some(index) => index < self.names@.len() && self.names@[index as int]@ == name@
                    && self.has_child(name@) && self.child_index(name@) == index,
                None => !self.has_child(name@),
            },
    {
        let mut index: usize = 0;
        while index < self.names.len()
            invariant
                self.wf(),
                index <= self.names@.len(),
                forall|i: int| 0 <= i < index ==> (#[trigger] self.names@[i])@ != name@,
            decreases self.names@.len() - index,
        {
            if str_eq(self.names[index].as_str(), name) {
                proof {
                    self.child_index_is(index as int);
                }
                return Some(index);
            }
            index += 1;
        }
        None
    }

    /// One child was replaced: what is below it is as it was there, all else is as before.
    proof fn child_replaced(self, before: Self, slot: int)
        requires
            before.wf(),
            self.names@ == before.names@,
            self.routes == before.routes,
            0 <= slot < before.names@.len(),
            self.children@.len() == before.children@.len(),
            self.children@[slot].wf(),
            forall|i: int|
                0 <= i < before.children@.len() && i != slot ==> self.children@[i]
                    == before.children@[i],
        ensures
            self.wf(),
            forall|path: Seq<Seq<char>>|
                (#[trigger] self.at(path)) == (if path.len() > 0 && path[0]
                    == before.names@[slot]@ {
                    self.children@[slot].at(path.drop_first())
                } else {
                    before.at(path)
                }),
    {
        assert(self.wf()) by {
            assert forall|i: int| 0 <= i < self.children@.len() implies (
            #[trigger] self.children@[i]).wf() by {
                if i != slot {
                    assert(self.children@[i] == before.children@[i]);
                }
            }
        }
        assert forall|path: Seq<Seq<char>>|
            (#[trigger] self.at(path)) == (if path.len() > 0 && path[0] == before.names@[slot]@ {
                self.children@[slot].at(path.drop_first())
            } else {
                before.at(path)
            }) by {
            self.child_index_is(slot);
            if path.len() > 0 && path[0] != before.names@[slot]@ {
                assert(self.has_child(path[0]) == before.has_child(path[0]));
                if before.has_child(path[0]) {
                    let i = before.child_index(path[0]);
                    before.child_index_is(i);
                    self.child_index_is(i);
                }
            }
        }
    }

    /// One child was added.
    proof fn child_added(self, before: Self)
        requires
            before.wf(),
            self.routes == before.routes,
            self.names@.len() == before.names@.len() + 1,
            self.names@.drop_last() == before.names@,
            self.children@.len() == self.names@.len(),
            self.children@.drop_last() == before.children@,
            !before.has_child(self.names@.last()@),
            self.children@.last().wf(),
        ensures
            self.wf(),
            forall|path: Seq<Seq<char>>|
                (#[trigger] self.at(path)) == (if path.len() > 0 && path[0]
                    == self.names@.last()@ {
                    self.children@.last().at(path.drop_first())
                } else {
                    before.at(path)
                }),
    {
        let last = before.names@.len() as int;
        assert forall|i: int| 0 <= i < last implies self.names@[i] == before.names@[i]
            && self.children@[i] == before.children@[i] by {
            assert(self.names@.drop_last()[i] == before.names@[i]);
            assert(self.children@.drop_last()[i] == before.children@[i]);
        }
        assert(self.wf()) by {
            assert forall|i: int, j: int|
                #![trigger self.names@[i], self.names@[j]]
                0 <= i < j < self.names@.len() implies self.names@[i]@ != self.names@[j]@ by {
                if j == last {
                    assert(before.names@[i]@ != self.names@[last]@);
                }
            }
            assert forall|i: int| 0 <= i < self.children@.len() implies (
            #[trigger] self.children@[i]).wf() by {
                if i < last {
                    assert(before.children@[i].wf());
                }
            }
        }
        assert forall|path: Seq<Seq<char>>|
            (#[trigger] self.at(path)) == (if path.len() > 0 && path[0] == self.names@.last()@ {
                self.children@.last().at(path.drop_first())
            } else {
                before.at(path)
            }) by {
            self.child_index_is(last);
            if path.len() > 0 && path[0] != self.names@.last()@ {
                if before.has_child(path[0]) {
                    let i = before.child_index(path[0]);
                    before.child_index_is(i);
                    self.child_index_is(i);
                } else if self.has_child(path[0]) {
                    let i = self.child_index(path[0]);
                    assert(before.names@[i]@ == path[0]);
                }
            }
        }
    }

    /// Puts a subscription under some levels, from a level on.
    fn insert_levels(&mut self, levels: &Vec<String>, index: usize, route: RouteSubscription)
        requires
            old(self).wf(),
            index <= levels@.len(),
        ensures
            final(self).wf(),
            forall|path: Seq<Seq<char>>|
                (#[trigger] final(self).at(path)) == (if path == levels.deep_view().skip(
                    index as int,
                ) {
                    route_put(old(self).at(path), route.deep_view())
                } else {
                    old(self).at(path)
                }),
        decreases levels@.len() - index,
    {
        let ghost whole = levels.deep_view().skip(index as int);
        let ghost view = route.deep_view();
        let ghost start = *self;
        if index == levels.len() {
            upsert_subscription(&mut self.routes, route);
            assert(whole =~= Seq::<Seq<char>>::empty());
            proof {
                self.own_routes_changed(start, whole);
            }
            return;
        }
        let ghost rest = levels.deep_view().skip(index + 1);
        assert(whole.drop_first() =~= rest);
        assert(whole[0] == levels@[index as int]@);
        match self.find(levels[index].as_str()) {
            Some(slot) => {
                assert(start.children@[slot as int].wf());
                self.children[slot].insert_levels(levels, index + 1, route);
                proof {
                    self.child_replaced(start, slot as int);
                    assert forall|path: Seq<Seq<char>>|
                        (#[trigger] self.at(path)) == (if path == whole {
                            route_put(start.at(path), view)
                        } else {
                            start.at(path)
                        }) by {
                        path_split(path, whole);
                        if path.len() > 0 && path[0] == whole[0] {
                            assert(start.at(path) == start.children@[slot as int].at(
                                path.drop_first(),
                            ));
                        }
                    }
                }
            },
            None => {
                let mut child: TrieNode = TrieNode::new();
                let ghost blank = child;
                child.insert_levels(levels, index + 1, route);
                let ghost made = child;
                self.names.push(levels[index].dup());
                self.children.push(child);
                proof {
                    assert(self.names@.drop_last() =~= start.names@);
                    assert(self.children@.drop_last() =~= start.children@);
                    self.child_added(start);
                    assert forall|path: Seq<Seq<char>>|
                        (#[trigger] self.at(path)) == (if path == whole {
                            route_put(start.at(path), view)
                        } else {
                            start.at(path)
                        }) by {
                        path_split(path, whole);
                        if path.len() > 0 && path[0] == whole[0] {
                            assert(blank.at(path.drop_first()) == Seq::<RouteView>::empty());
                            assert(start.at(path) == Seq::<RouteView>::empty());
                        }
                    }
                }
            },
        }
    }

    /// Only the subscriptions that end here changed.
    proof fn own_routes_changed(self, before: Self, whole: Seq<Seq<char>>)
        requires
            before.wf(),
            self.names == before.names,
            self.children == before.children,
            whole == Seq::<Seq<char>>::empty(),
        ensures
            self.wf(),
            forall|path: Seq<Seq<char>>|
                (#[trigger] self.at(path)) == (if path == whole {
                    self.routes.deep_view()
                } else {
                    before.at(path)
                }),
            before.at(whole) == before.routes.deep_view(),
    {
        assert forall|path: Seq<Seq<char>>|
            (#[trigger] self.at(path)) == (if path == whole {
                self.routes.deep_view()
            } else {
                before.at(path)
            }) by {
            if path.len() == 0 {
                assert(path =~= whole);
            } else {
                assert(self.has_child(path[0]) == before.has_child(path[0]));
                assert(self.child_index(path[0]) == before.child_index(path[0]));
            }
        }
    }

    /// Removes the subscriptions of a client under a filter, from a level on.
    fn remove_levels(
        &mut self,
        levels: &Vec<String>,
        index: usize,
        client_id: &str,
        filter: &str,
    )
        requires
            old(self).wf(),
            index <= levels@.len(),
        ensures
            final(self).wf(),
            forall|path: Seq<Seq<char>>|
                (#[trigger] final(self).at(path)) == (if path == levels.deep_view().skip(
                    index as int,
                ) {
                    route_removed(old(self).at(path), client_id@, filter@)
                } else {
                    old(self).at(path)
                }),
        decreases levels@.len() - index,
    {
        let ghost whole = levels.deep_view().skip(index as int);
        let ghost start = *self;
        if index == levels.len() {
            remove_subscription(&mut self.routes, client_id, filter);
            assert(whole =~= Seq::<Seq<char>>::empty());
            proof {
                self.own_routes_changed(start, whole);
            }
            return;
        }
        let ghost rest = levels.deep_view().skip(index + 1);
        assert(whole.drop_first() =~= rest);
        assert(whole[0] == levels@[index as int]@);
        match self.find(levels[index].as_str()) {
            Some(slot) => {
                assert(start.children@[slot as int].wf());
                self.children[slot].remove_levels(levels, index + 1, client_id, filter);
                proof {
                    self.child_replaced(start, slot as int);
                    assert forall|path: Seq<Seq<char>>|
                        (#[trigger] self.at(path)) == (if path == whole {
                            route_removed(start.at(path), client_id@, filter@)
                        } else {
                            start.at(path)
                        }) by {
                        path_split(path, whole);
                        if path.len() > 0 && path[0] == whole[0] {
                            assert(start.at(path) == start.children@[slot as int].at(
                                path.drop_first(),
                            ));
                        }
                    }
                }
            },
            None => {
                proof {
                    assert(start.at(whole) == Seq::<RouteView>::empty());
                    assert(route_removed(Seq::empty(), client_id@, filter@)
                        =~= Seq::<RouteView>::empty()) by {
                        reveal(Seq::filter);
                    }
                }
            },
        }
    }

    /// Adds the subscriptions of a child that the levels of a topic lead to.
    fn collect_below(
        &self,
        name: &str,
        levels: &Vec<String>,
        index: usize,
        matches: &mut Vec<RouteSubscription>,
    )
        requires
            self.wf(),
            index < levels.len(),
        ensures
            final(matches).deep_view() == old(matches).deep_view() + self.collected_below(
                name@,
                levels.deep_view().skip(index + 1),
            ),
        decreases levels@.len() - index, 0nat,
    {
        match self.find(name) {
            Some(slot) => {
                assert(self.children@[slot as int].wf());
                self.children[slot].collect(levels, index + 1, matches);
            },
            None => {
                assert(matches.deep_view() + Seq::<RouteView>::empty() =~= matches.deep_view());
            },
        }
    }

    /// Adds the subscriptions that the levels of a topic lead to, from a level on.
    fn collect(&self, levels: &Vec<String>, index: usize, matches: &mut Vec<RouteSubscription>)
        requires
            self.wf(),
            index <= levels@.len(),
        ensures
            final(matches).deep_view() == old(matches).deep_view() + self.collected(
                levels.deep_view().skip(index as int),
            ),
        decreases levels@.len() - index, 1nat,
    {
        let ghost start = matches.deep_view();
        let ghost rest = levels.deep_view().skip(index as int);
        let ghost hash = self.at(seq![hash_level()]);
        proof {
            reveal_strlit("#");
            reveal_strlit("+");
            assert("#"@ =~= hash_level());
            assert("+"@ =~= plus_level());
            assert(seq![hash_level()].drop_first() =~= Seq::<Seq<char>>::empty());
        }
        match self.find("#") {
            Some(slot) => {
                append_routes(matches, &self.children[slot].routes);
                proof {
                    let child = self.children@[slot as int];
                    assert(hash == child.at(seq![hash_level()].drop_first()));
                    assert(child.at(Seq::empty()) == child.routes.deep_view());
                }
            },
            None => {
                assert(start + hash =~= start);
            },
        }
        assert(matches.deep_view() == start + hash);
        if index == levels.len() {
            append_routes(matches, &self.routes);
            assert(rest =~= Seq::<Seq<char>>::empty());
            assert(matches.deep_view() =~= start + self.collected(rest));
            return;
        }
        assert(rest[0] == levels@[index as int]@);
        assert(rest.drop_first() =~= levels.deep_view().skip(index + 1));
        self.collect_below(levels[index].as_str(), levels, index, matches);
        self.collect_below("+", levels, index, matches);
        assert(matches.deep_view() =~= start + self.collected(rest));
    }

    /// A subscription that a topic leads to is under levels that match those of the topic.
    proof fn collected_matches(self, levels: Seq<Seq<char>>, route: RouteView)
        requires
            self.wf(),
            self.collected(levels).contains(route),
        ensures
            exists|path: Seq<Seq<char>>|
                (#[trigger] self.at(path)).contains(route) && levels_match(path, levels),
        decreases levels.len(),
    {
        let hash = self.at(seq![hash_level()]);
        if hash.contains(route) {
            assert(levels_match(seq![hash_level()], levels));
        } else if levels.len() == 0 {
            let none = Seq::<Seq<char>>::empty();
            assert(self.at(none) == self.routes.deep_view());
            let i = choose|i: int| 0 <= i < self.collected(levels).len()
                && self.collected(levels)[i] == route;
            if i < hash.len() {
                assert(hash[i] == route);
            } else {
                assert(self.routes.deep_view()[i - hash.len()] == route);
            }
            assert(levels_match(none, levels));
        } else {
            let rest = levels.drop_first();
            let literal = self.collected_below(levels[0], rest);
            let plus = self.collected_below(plus_level(), rest);
            let i = choose|i: int| 0 <= i < self.collected(levels).len()
                && self.collected(levels)[i] == route;
            if i < hash.len() {
                assert(hash[i] == route);
            } else if i < hash.len() + literal.len() {
                assert(literal[i - hash.len()] == route);
                self.collected_below_matches(levels[0], levels, route);
            } else {
                assert(plus[i - hash.len() - literal.len()] == route);
                self.collected_below_matches(plus_level(), levels, route);
            }
        }
    }

    proof fn collected_below_matches(
        self,
        name: Seq<char>,
        levels: Seq<Seq<char>>,
        route: RouteView,
    )
        requires
            self.wf(),
            levels.len() > 0,
            name == levels[0] || name == plus_level(),
            self.collected_below(name, levels.drop_first()).contains(route),
        ensures
            exists|path: Seq<Seq<char>>|
                (#[trigger] self.at(path)).contains(route) && levels_match(path, levels),
        decreases levels.len(), 0nat,
    {
        let rest = levels.drop_first();
        let slot = self.child_index(name);
        let child = self.children@[slot];
        assert(self.has_child(name));
        child.collected_matches(rest, route);
        let below = choose|path: Seq<Seq<char>>|
            (#[trigger] child.at(path)).contains(route) && levels_match(path, rest);
        let path = seq![name] + below;
        assert(path.drop_first() =~= below);
        assert(self.at(path) == child.at(below));
        assert(levels_match(path, levels));
    }

    /// A subscription under levels that match those of a topic is one that the topic leads to.
    proof fn matching_is_collected(
        self,
        path: Seq<Seq<char>>,
        levels: Seq<Seq<char>>,
        route: RouteView,
    )
        requires
            self.wf(),
            hash_only_last(path),
            self.at(path).contains(route),
            levels_match(path, levels),
        ensures
            self.collected(levels).contains(route),
        decreases levels.len(),
    {
        let hash = self.at(seq![hash_level()]);
        let all = self.collected(levels);
        if path.len() > 0 && path[0] == hash_level() {
            assert(path =~= seq![hash_level()]);
            let i = choose|i: int| 0 <= i < hash.len() && hash[i] == route;
            assert(all[i] == route);
        } else if path.len() == 0 {
            let own = self.routes.deep_view();
            let i = choose|i: int| 0 <= i < own.len() && own[i] == route;
            assert(all[hash.len() + i] == route);
        } else {
            let rest = levels.drop_first();
            let below = path.drop_first();
            let literal = self.collected_below(levels[0], rest);
            let plus = self.collected_below(plus_level(), rest);
            assert(self.has_child(path[0]));
            let child = self.children@[self.child_index(path[0])];
            assert forall|i: int| 0 <= i < below.len() && #[trigger] below[i]
                == hash_level() implies i == below.len() - 1 by {
                assert(path[i + 1] == below[i]);
            }
            child.matching_is_collected(below, rest, route);
            if path[0] == levels[0] {
                let i = choose|i: int| 0 <= i < literal.len() && literal[i] == route;
                assert(all[hash.len() + i] == route);
            } else {
                let i = choose|i: int| 0 <= i < plus.len() && plus[i] == route;
                assert(all[hash.len() + literal.len() + i] == route);
            }
        }
    }

    /// Where a subscription stands is told by its filter, so that no two subscriptions of one
    /// client under one filter are collected.
    proof fn collected_keys_differ(self, prefix: Seq<Seq<char>>, parts: Seq<Seq<char>>)
        requires
            self.wf(),
            forall|path: Seq<Seq<char>>| keys_differ(#[trigger] self.at(path)),
            forall|path: Seq<Seq<char>>, i: int|
                #![trigger self.at(path)[i]]
                0 <= i < self.at(path).len() ==> place_of(self.at(path)[i]) == prefix + path,
            forall|i: int|
                0 <= i < parts.len() ==> (#[trigger] parts[i]) != plus_level() && parts[i]
                    != hash_level(),
        ensures
            keys_differ(self.collected(parts)),
        decreases parts.len(), 0nat,
    {
        let hash = self.at(seq![hash_level()]);
        let depth = prefix.len() as int;
        let all = self.collected(parts);
        assert(hash_level()[0] == '#' && plus_level()[0] == '+');
        assert forall|i: int| 0 <= i < hash.len() implies place_of(#[trigger] hash[i]).len()
            > depth && place_of(hash[i])[depth] == hash_level() by {
            assert(self.at(seq![hash_level()])[i] == hash[i]);
            assert(place_of(hash[i]) == prefix + seq![hash_level()]);
        }
        if parts.len() == 0 {
            let none = Seq::<Seq<char>>::empty();
            let own = self.at(none);
            assert(own == self.routes.deep_view());
            assert forall|i: int| 0 <= i < own.len() implies place_of(#[trigger] own[i]).len()
                == depth by {
                assert(self.at(none)[i] == own[i]);
                assert(place_of(own[i]) == prefix + none);
            }
            parts_keys_differ(hash, own);
        } else {
            let rest = parts.drop_first();
            let literal = self.collected_below(parts[0], rest);
            let plus = self.collected_below(plus_level(), rest);
            self.below_keys_differ(prefix, parts[0], rest);
            self.below_keys_differ(prefix, plus_level(), rest);
            assert forall|i: int, j: int|
                0 <= i < hash.len() && 0 <= j < literal.len() implies place_of(
                #[trigger] hash[i],
            ) != place_of(#[trigger] literal[j]) by {
                assert(place_of(literal[j])[depth] == parts[0]);
                assert(parts[0] != hash_level());
            }
            parts_keys_differ(hash, literal);
            let both = hash + literal;
            assert forall|i: int, j: int|
                0 <= i < both.len() && 0 <= j < plus.len() implies place_of(
                #[trigger] both[i],
            ) != place_of(#[trigger] plus[j]) by {
                assert(place_of(plus[j])[depth] == plus_level());
                assert(parts[0] != plus_level());
                if i < hash.len() {
                    assert(both[i] == hash[i]);
                } else {
                    assert(both[i] == literal[i - hash.len()]);
                    assert(place_of(literal[i - hash.len()])[depth] == parts[0]);
                }
            }
            parts_keys_differ(both, plus);
            assert(all == both + plus);
        }
    }

    /// What is collected below a level stands below that level, and no two of it are of one client
    /// under one filter.
    proof fn below_keys_differ(
        self,
        prefix: Seq<Seq<char>>,
        name: Seq<char>,
        rest: Seq<Seq<char>>,
    )
        requires
            self.wf(),
            forall|path: Seq<Seq<char>>| keys_differ(#[trigger] self.at(path)),
            forall|path: Seq<Seq<char>>, i: int|
                #![trigger self.at(path)[i]]
                0 <= i < self.at(path).len() ==> place_of(self.at(path)[i]) == prefix + path,
            forall|i: int|
                0 <= i < rest.len() ==> (#[trigger] rest[i]) != plus_level() && rest[i]
                    != hash_level(),
        ensures
            keys_differ(self.collected_below(name, rest)),
            forall|i: int|
                0 <= i < self.collected_below(name, rest).len() ==> {
                    let place = place_of(#[trigger] self.collected_below(name, rest)[i]);
                    place.len() > prefix.len() && place[prefix.len() as int] == name
                },
        decreases rest.len(), 1nat,
    {
        if self.has_child(name) {
            let child = self.children@[self.child_index(name)];
            let deeper = prefix.push(name);
            assert forall|path: Seq<Seq<char>>| #[trigger] child.at(path) == self.at(
                seq![name] + path,
            ) by {
                assert((seq![name] + path).drop_first() =~= path);
            }
            assert forall|path: Seq<Seq<char>>| keys_differ(#[trigger] child.at(path)) by {
                assert(keys_differ(self.at(seq![name] + path)));
            }
            assert forall|path: Seq<Seq<char>>, i: int|
                #![trigger child.at(path)[i]]
                0 <= i < child.at(path).len() implies place_of(child.at(path)[i]) == deeper
                + path by {
                assert(self.at(seq![name] + path)[i] == child.at(path)[i]);
                assert(prefix + (seq![name] + path) =~= deeper + path);
            }
            child.collected_keys_differ(deeper, rest);
            let found = self.collected_below(name, rest);
            assert forall|i: int| 0 <= i < found.len() implies ({
                let place = place_of(#[trigger] found[i]);
                place.len() > prefix.len() && place[prefix.len() as int] == name
            }) by {
                let route = found[i];
                assert(child.collected(rest).contains(route));
                child.collected_matches(rest, route);
                let path = choose|path: Seq<Seq<char>>|
                    (#[trigger] child.at(path)).contains(route) && levels_match(path, rest);
                let list = child.at(path);
                let k = choose|k: int| 0 <= k < list.len() && list[k] == route;
                assert(place_of(child.at(path)[k]) == deeper + path);
            }
        }
    }
}

/// Two subscriptions are of one client under one filter.
pub open spec fn same_key(a: RouteView, b: RouteView) -> bool {
    a.client_id == b.client_id && a.filter == b.filter
}

/// No two of some subscriptions are of one client under one filter.
pub open spec fn keys_differ(routes: Seq<RouteView>) -> bool {
    forall|i: int, j: int|
        #![trigger routes[i], routes[j]]
        0 <= i < j < routes.len() ==> !same_key(routes[i], routes[j])
}

/// The levels that a subscription stands under by its filter.
pub open spec fn place_of(route: RouteView) -> Seq<Seq<char>> {
    levels(match_filter_of(route.filter))
}

/// Subscriptions that stand under different levels are not of one client under one filter.
proof fn parts_keys_differ(first: Seq<RouteView>, second: Seq<RouteView>)
    requires
        keys_differ(first),
        keys_differ(second),
        forall|i: int, j: int|
            0 <= i < first.len() && 0 <= j < second.len() ==> place_of(#[trigger] first[i])
                != place_of(#[trigger] second[j]),
    ensures
        keys_differ(first + second),
{
    let all = first + second;
    assert forall|i: int, j: int|
        #![trigger all[i], all[j]]
        0 <= i < j < all.len() implies !same_key(all[i], all[j]) by {
        if j < first.len() {
            assert(all[i] == first[i] && all[j] == first[j]);
        } else if i >= first.len() {
            assert(all[i] == second[i - first.len()] && all[j] == second[j - first.len()]);
        } else {
            assert(all[i] == first[i] && all[j] == second[j - first.len()]);
        }
    }
}

/// A `#` level stands only at the end.
pub open spec fn hash_only_last(path: Seq<Seq<char>>) -> bool {
    forall|i: int|
        0 <= i < path.len() && #[trigger] path[i] == hash_level() ==> i == path.len() - 1
}

proof fn path_split(path: Seq<Seq<char>>, whole: Seq<Seq<char>>)
    requires
        whole.len() > 0,
    ensures
        path == whole <==> path.len() > 0 && path[0] == whole[0] && path.drop_first()
            == whole.drop_first(),
{
    if path.len() > 0 {
        assert(path =~= seq![path[0]] + path.drop_first());
        assert(whole =~= seq![whole[0]] + whole.drop_first());
    }
}

/// Adds copies of some subscriptions.
fn append_routes(matches: &mut Vec<RouteSubscription>, routes: &Vec<RouteSubscription>)
    ensures
        final(matches).deep_view() == old(matches).deep_view() + routes.deep_view(),
{
    let ghost start = matches.deep_view();
    let mut copy: Vec<RouteSubscription> = routes.dup();
    let ghost more = copy.deep_view();
    matches.append(&mut copy);
    assert(matches.deep_view() =~= start + more);
}

/// Subscriptions by the levels of their filters.
pub struct RouterIndex {
    root: TrieNode,
}

/// A topic that starts with `$` is sent only under filters that do.
pub open spec fn heeds_system(topic: Seq<char>, route: RouteView) -> bool {
    !begins_with(topic, '$') || begins_with(route.match_filter, '$')
}

impl RouterIndex {
    /// The index is in order, and each subscription is under the levels of its filter.
    pub closed spec fn wf(&self) -> bool {
        &&& self.root.wf()
        &&& forall|path: Seq<Seq<char>>, i: int|
            #![trigger self.root.at(path)[i]]
            0 <= i < self.root.at(path).len() ==> levels(self.root.at(path)[i].match_filter)
                == path
    }

    /// The subscriptions that match a topic by a filter.
    pub closed spec fn under(&self, match_filter: Seq<char>) -> Seq<RouteView> {
        self.root.at(levels(match_filter))
    }

    /// The subscriptions that the levels of a topic lead to, in order.
    pub closed spec fn led_to(&self, topic: Seq<char>) -> Seq<RouteView> {
        self.root.collected(levels(topic))
    }

    /// The subscriptions that a topic is sent under, in order.
    pub open spec fn matching(&self, topic: Seq<char>) -> Seq<RouteView> {
        if valid_topic_name(topic) {
            self.led_to(topic).filter(|route: RouteView| heeds_system(topic, route))
        } else {
            Seq::empty()
        }
    }

    /// The empty index.
    pub fn new() -> (result: Self)
        ensures
            result.wf(),
            forall|filter: Seq<char>| (
                #[trigger] result.under(filter)
            ) == Seq::<RouteView>::empty(),
    {
        RouterIndex { root: TrieNode::new() }
    }

    /// Puts a subscription, if its filter may be subscribed to.
    pub fn insert(&mut self, route: RouteSubscription)
        requires
            old(self).wf(),
        ensures
            final(self).wf(),
            forall|filter: Seq<char>|
                (#[trigger] final(self).under(filter)) == (if valid_topic_filter(
                    route.deep_view().filter,
                ) && filter == route.deep_view().match_filter {
                    route_put(old(self).under(filter), route.deep_view())
                } else {
                    old(self).under(filter)
                }),
    {
        if !is_valid_topic_filter(route.filter.as_str()) {
            return;
        }
        let ghost view = route.deep_view();
        let ghost start = self.root;
        let levels: Vec<String> = split_levels(route.match_filter.as_str());
        self.root.insert_levels(&levels, 0, route);
        proof {
            let whole = crate::protocol::levels(view.match_filter);
            assert(levels.deep_view().skip(0) =~= whole);
            assert forall|path: Seq<Seq<char>>, i: int|
                #![trigger self.root.at(path)[i]]
                0 <= i < self.root.at(path).len() implies crate::protocol::levels(
                self.root.at(path)[i].match_filter,
            ) == path by {
                let before = start.at(path);
                if path == whole {
                    route_position_inside(before, view.client_id, view.filter);
                    if self.root.at(path)[i] != view {
                        assert(before[i] == self.root.at(path)[i]);
                    }
                } else {
                    assert(before[i] == self.root.at(path)[i]);
                }
            }
            assert forall|filter: Seq<char>| (#[trigger] self.under(filter)) == (if filter
                == view.match_filter {
                route_put(old(self).under(filter), view)
            } else {
                old(self).under(filter)
            }) by {
                if crate::protocol::levels(filter) == whole {
                    levels_injective(filter, view.match_filter);
                }
            }
        }
    }

    /// Removes the subscriptions of a client under a filter.
    pub fn remove(&mut self, client_id: &str, filter: &str)
        requires
            old(self).wf(),
        ensures
            final(self).wf(),
            forall|matched: Seq<char>|
                (#[trigger] final(self).under(matched)) == (if matched == match_filter_of(filter@) {
                    route_removed(old(self).under(matched), client_id@, filter@)
                } else {
                    old(self).under(matched)
                }),
    {
        let ghost start = self.root;
        let matched: String = match_filter(filter);
        let levels: Vec<String> = split_levels(matched.as_str());
        self.root.remove_levels(&levels, 0, client_id, filter);
        proof {
            let whole = crate::protocol::levels(matched@);
            assert(levels.deep_view().skip(0) =~= whole);
            assert forall|path: Seq<Seq<char>>, i: int|
                #![trigger self.root.at(path)[i]]
                0 <= i < self.root.at(path).len() implies crate::protocol::levels(
                self.root.at(path)[i].match_filter,
            ) == path by {
                let before = start.at(path);
                let route = self.root.at(path)[i];
                assert(self.root.at(path).contains(route));
                if path == whole {
                    let keep = |route: RouteView| !is_route(route, client_id@, filter@);
                    filter_keeps(before, keep, route);
                }
                let j = choose|j: int| 0 <= j < before.len() && before[j] == route;
                assert(before[j] == route);
            }
            assert forall|other: Seq<char>| (#[trigger] self.under(other)) == (if other
                == match_filter_of(filter@) {
                route_removed(old(self).under(other), client_id@, filter@)
            } else {
                old(self).under(other)
            }) by {
                if crate::protocol::levels(other) == whole {
                    levels_injective(other, matched@);
                }
            }
        }
    }

    /// The subscriptions that a topic is sent under.
    pub fn matches(&self, topic_name: &str) -> (result: Vec<RouteSubscription>)
        requires
            self.wf(),
        ensures
            result.deep_view() == self.matching(topic_name@),
    {
        let mut kept: Vec<RouteSubscription> = Vec::new();
        assert(kept.deep_view() =~= Seq::<RouteView>::empty());
        if !is_valid_topic_name(topic_name) {
            return kept;
        }
        let topic_is_system: bool = text_begins_with(topic_name, '$');
        let levels: Vec<String> = split_levels(topic_name);
        let mut matches: Vec<RouteSubscription> = Vec::new();
        proof {
            assert(matches.deep_view() =~= Seq::<RouteView>::empty());
            assert(levels.deep_view().skip(0) =~= levels.deep_view());
        }
        self.root.collect(&levels, 0, &mut matches);
        let ghost list = matches.deep_view();
        let ghost keep = |route: RouteView| heeds_system(topic_name@, route);
        proof {
            assert(list =~= self.led_to(topic_name@));
            assert(list.take(0).filter(keep) =~= Seq::<RouteView>::empty()) by {
                reveal(Seq::filter);
            }
        }
        let mut index: usize = 0;
        while index < matches.len()
            invariant
                index <= matches@.len(),
                list == matches.deep_view(),
                topic_is_system == begins_with(topic_name@, '$'),
                keep == (|route: RouteView| heeds_system(topic_name@, route)),
                kept.deep_view() == list.take(index as int).filter(keep),
            decreases matches@.len() - index,
        {
            let ghost before = kept.deep_view();
            proof {
                filter_step(list, index as int, keep);
                assert(list[index as int] == matches@[index as int].deep_view());
            }
            if !topic_is_system || text_begins_with(matches[index].match_filter.as_str(), '$') {
                let route: RouteSubscription = matches[index].dup();
                let ghost view = route.deep_view();
                kept.push(route);
                assert(kept.deep_view() =~= before.push(view));
            }
            index += 1;
        }
        assert(list.take(index as int) =~= list);
        kept
    }

    /// A topic is sent under a subscription that the index holds where and only where the filter
    /// that the subscription matches by takes in the topic.
    pub proof fn sent_under_matching_filters(&self, topic: Seq<char>, route: RouteView)
        requires
            self.wf(),
            valid_topic_filter(route.match_filter),
        ensures
            self.matching(topic).contains(route) <==> self.under(route.match_filter).contains(route)
                && filter_matches(route.match_filter, topic),
    {
        if valid_topic_name(topic) {
            let keep = |route: RouteView| heeds_system(topic, route);
            let led = self.led_to(topic);
            let path = levels(route.match_filter);
            filter_keeps(led, keep, route);
            if led.contains(route) {
                self.root.collected_matches(levels(topic), route);
                let found = choose|found: Seq<Seq<char>>|
                    (#[trigger] self.root.at(found)).contains(route) && levels_match(
                        found,
                        levels(topic),
                    );
                let list = self.root.at(found);
                let i = choose|i: int| 0 <= i < list.len() && list[i] == route;
                assert(levels(self.root.at(found)[i].match_filter) == found);
            }
            if self.under(route.match_filter).contains(route) && levels_match(
                path,
                levels(topic),
            ) {
                assert forall|i: int| 0 <= i < path.len() && #[trigger] path[i]
                    == hash_level() implies i == path.len() - 1 by {
                    assert(valid_filter_level(path[i], i == path.len() - 1));
                    assert(hash_level()[0] == '#');
                    assert(path[i].contains('#'));
                }
                self.root.matching_is_collected(path, levels(topic), route);
            }
        }
    }
}

/// A position that is found is inside, and is that of a subscription of the client under the
/// filter.
pub proof fn route_position_inside(
    routes: Seq<RouteView>,
    client_id: Seq<char>,
    filter: Seq<char>,
)
    ensures
        route_position(routes, client_id, filter) matches Some(index) ==> 0 <= index
            < routes.len() && is_route(routes[index], client_id, filter),
    decreases routes.len(),
{
    if routes.len() > 0 {
        route_position_inside(routes.drop_last(), client_id, filter);
    }
}

/// What a filter keeps of a list are the items of the list that it is for.
proof fn filter_keeps<A>(items: Seq<A>, keep: spec_fn(A) -> bool, item: A)
    ensures
        items.filter(keep).contains(item) <==> items.contains(item) && keep(item),
    decreases items.len(),
{
    reveal(Seq::filter);
    if items.len() > 0 {
        let front = items.drop_last();
        let last = items.last();
        filter_keeps(front, keep, item);
        assert(items.contains(item) <==> front.contains(item) || item == last) by {
            if front.contains(item) {
                let i = choose|i: int| 0 <= i < front.len() && front[i] == item;
                assert(items[i] == item);
            }
            if items.contains(item) {
                let i = choose|i: int| 0 <= i < items.len() && items[i] == item;
                if i < front.len() {
                    assert(front[i] == item);
                }
            }
            assert(items[items.len() - 1] == last);
        }
        let kept = front.filter(keep);
        if keep(last) {
            assert(items.filter(keep) =~= kept.push(last));
            assert(kept.push(last).contains(item) <==> kept.contains(item) || item == last) by {
                if kept.contains(item) {
                    let i = choose|i: int| 0 <= i < kept.len() && kept[i] == item;
                    assert(kept.push(last)[i] == item);
                }
                assert(kept.push(last)[kept.len() as int] == last);
                if kept.push(last).contains(item) {
                    let i = choose|i: int| 0 <= i < kept.push(last).len() && kept.push(last)[i]
                        == item;
                    if i < kept.len() {
                        assert(kept[i] == item);
                    }
                }
            }
        } else {
            assert(items.filter(keep) =~= kept);
        }
    }
}

/// What a filter keeps of subscriptions with different keys has different keys.
proof fn filtered_keys_differ(routes: Seq<RouteView>, keep: spec_fn(RouteView) -> bool)
    requires
        keys_differ(routes),
    ensures
        keys_differ(routes.filter(keep)),
    decreases routes.len(),
{
    reveal(Seq::filter);
    if routes.len() > 0 {
        let front = routes.drop_last();
        let last = routes.last();
        let kept = front.filter(keep);
        assert forall|i: int, j: int|
            #![trigger front[i], front[j]]
            0 <= i < j < front.len() implies !same_key(front[i], front[j]) by {
            assert(!same_key(routes[i], routes[j]));
        }
        filtered_keys_differ(front, keep);
        let all = routes.filter(keep);
        if keep(last) {
            assert(all =~= kept.push(last));
            assert forall|i: int, j: int|
                #![trigger all[i], all[j]]
                0 <= i < j < all.len() implies !same_key(all[i], all[j]) by {
                assert(all[i] == kept[i]);
                if j < kept.len() {
                    assert(all[j] == kept[j]);
                } else {
                    filter_keeps(front, keep, kept[i]);
                    assert(kept.contains(kept[i]));
                    let k = choose|k: int| 0 <= k < front.len() && front[k] == kept[i];
                    assert(!same_key(routes[k], routes[routes.len() - 1]));
                }
            }
        } else {
            assert(all =~= kept);
        }
    }
}

/// A subscription that is put takes the place of the client's own under the filter, and leaves the
/// others.
proof fn put_replaces(routes: Seq<RouteView>, route: RouteView, other: RouteView)
    requires
        keys_differ(routes),
    ensures
        keys_differ(route_put(routes, route)),
        route_put(routes, route).contains(other) <==> other == route || (routes.contains(other)
            && !same_key(other, route)),
{
    let after = route_put(routes, route);
    route_position_inside(routes, route.client_id, route.filter);
    route_position_absent(routes, route.client_id, route.filter);
    let slot = match route_position(routes, route.client_id, route.filter) {
        Some(index) => index,
        None => routes.len() as int,
    };
    assert(after[slot] == route);
    assert forall|i: int| 0 <= i < after.len() && i != slot implies #[trigger] after[i]
        == routes[i] && !same_key(after[i], route) by {
        if slot < routes.len() {
            if i < slot {
                assert(!same_key(routes[i], routes[slot]));
            } else {
                assert(!same_key(routes[slot], routes[i]));
            }
        }
    }
    assert forall|i: int, j: int|
        #![trigger after[i], after[j]]
        0 <= i < j < after.len() implies !same_key(after[i], after[j]) by {
        if i != slot && j != slot {
            assert(!same_key(routes[i], routes[j]));
        }
    }
    if after.contains(other) {
        let i = choose|i: int| 0 <= i < after.len() && after[i] == other;
        if i != slot {
            assert(routes[i] == other);
        }
    }
    if routes.contains(other) && !same_key(other, route) {
        let i = choose|i: int| 0 <= i < routes.len() && routes[i] == other;
        assert(after[i] == other);
    }
}

/// Where no position is found there is no subscription of the client under the filter.
proof fn route_position_absent(routes: Seq<RouteView>, client_id: Seq<char>, filter: Seq<char>)
    ensures
        route_position(routes, client_id, filter) is None ==> forall|i: int|
            0 <= i < routes.len() ==> !is_route(#[trigger] routes[i], client_id, filter),
    decreases routes.len(),
{
    if routes.len() > 0 {
        let front = routes.drop_last();
        route_position_absent(front, client_id, filter);
        if route_position(routes, client_id, filter) is None {
            assert forall|i: int| 0 <= i < routes.len() implies !is_route(
                #[trigger] routes[i],
                client_id,
                filter,
            ) by {
                if i < front.len() {
                    assert(front[i] == routes[i]);
                }
            }
        }
    }
}

/// The subscriptions of clients under filters.
pub type Live = Map<(Seq<char>, Seq<char>), RouteView>;

impl RouterIndex {
    /// The index holds just some subscriptions, one for each client and filter: each under the
    /// filter that it matches by, which may be subscribed to.
    pub open spec fn tracks(&self, live: Live) -> bool {
        &&& self.wf()
        &&& forall|filter: Seq<char>| keys_differ(#[trigger] self.under(filter))
        &&& forall|filter: Seq<char>, i: int|
            #![trigger self.under(filter)[i]]
            0 <= i < self.under(filter).len() ==> {
                let route = self.under(filter)[i];
                &&& route.match_filter == filter
                &&& route.match_filter == match_filter_of(route.filter)
                &&& valid_topic_filter(route.match_filter)
            }
        &&& forall|route: RouteView|
            (#[trigger] self.under(route.match_filter)).contains(route) <==> lookup(
                live,
                (route.client_id, route.filter),
            ) == Some(route)
    }

    /// The new index holds no subscription.
    pub proof fn new_index_is_empty(&self)
        requires
            self.wf(),
            forall|filter: Seq<char>| (
                #[trigger] self.under(filter)
            ) == Seq::<RouteView>::empty(),
        ensures
            self.tracks(Map::empty()),
    {
    }

    /// After a subscription was put, the index holds it in the place of the one that the client had
    /// under the filter, and the others as before; where the filter may not be subscribed to, it
    /// holds what it held.
    pub proof fn inserted_is_held(&self, after: &RouterIndex, route: RouteView, live: Live)
        requires
            self.tracks(live),
            after.wf(),
            forall|filter: Seq<char>|
                (#[trigger] after.under(filter)) == (if valid_topic_filter(route.filter)
                    && filter == route.match_filter {
                    route_put(self.under(filter), route)
                } else {
                    self.under(filter)
                }),
            route.match_filter == match_filter_of(route.filter),
            valid_topic_filter(route.filter) ==> valid_topic_filter(route.match_filter),
        ensures
            after.tracks(
                if valid_topic_filter(route.filter) {
                    live.insert((route.client_id, route.filter), route)
                } else {
                    live
                },
            ),
    {
        if valid_topic_filter(route.filter) {
            let next = live.insert((route.client_id, route.filter), route);
            let own = self.under(route.match_filter);
            put_replaces(own, route, route);
            assert forall|filter: Seq<char>| keys_differ(#[trigger] after.under(filter)) by {
                assert(keys_differ(self.under(filter)));
            }
            assert forall|filter: Seq<char>, i: int|
                #![trigger after.under(filter)[i]]
                0 <= i < after.under(filter).len() implies ({
                let found = after.under(filter)[i];
                &&& found.match_filter == filter
                &&& found.match_filter == match_filter_of(found.filter)
                &&& valid_topic_filter(found.match_filter)
            }) by {
                let found = after.under(filter)[i];
                assert(after.under(filter).contains(found));
                if filter == route.match_filter {
                    put_replaces(own, route, found);
                }
                if found != route || filter != route.match_filter {
                    let list = self.under(filter);
                    let k = choose|k: int| 0 <= k < list.len() && list[k] == found;
                    assert(self.under(filter)[k] == found);
                }
            }
            assert forall|other: RouteView|
                (#[trigger] after.under(other.match_filter)).contains(other) <==> lookup(
                    next,
                    (other.client_id, other.filter),
                ) == Some(other) by {
                let list = self.under(other.match_filter);
                if other.match_filter == route.match_filter {
                    put_replaces(own, route, other);
                } else if list.contains(other) {
                    let k = choose|k: int| 0 <= k < list.len() && list[k] == other;
                    assert(self.under(other.match_filter)[k] == other);
                }
            }
        } else {
            assert forall|filter: Seq<char>| #[trigger] after.under(filter) == self.under(
                filter,
            ) by {}
        }
    }

    /// After a subscription was removed, the index holds the others as before.
    pub proof fn removed_is_gone(
        &self,
        after: &RouterIndex,
        client_id: Seq<char>,
        filter: Seq<char>,
        live: Live,
    )
        requires
            self.tracks(live),
            after.wf(),
            forall|matched: Seq<char>|
                (#[trigger] after.under(matched)) == (if matched == match_filter_of(filter) {
                    route_removed(self.under(matched), client_id, filter)
                } else {
                    self.under(matched)
                }),
        ensures
            after.tracks(live.remove((client_id, filter))),
    {
        let keep = |route: RouteView| !is_route(route, client_id, filter);
        let next = live.remove((client_id, filter));
        let own = self.under(match_filter_of(filter));
        filtered_keys_differ(own, keep);
        assert forall|matched: Seq<char>| keys_differ(#[trigger] after.under(matched)) by {
            assert(keys_differ(self.under(matched)));
        }
        assert forall|matched: Seq<char>, i: int|
            #![trigger after.under(matched)[i]]
            0 <= i < after.under(matched).len() implies ({
            let found = after.under(matched)[i];
            &&& found.match_filter == matched
            &&& found.match_filter == match_filter_of(found.filter)
            &&& valid_topic_filter(found.match_filter)
        }) by {
            let found = after.under(matched)[i];
            assert(after.under(matched).contains(found));
            if matched == match_filter_of(filter) {
                filter_keeps(own, keep, found);
            }
            let list = self.under(matched);
            let k = choose|k: int| 0 <= k < list.len() && list[k] == found;
            assert(self.under(matched)[k] == found);
        }
        assert forall|other: RouteView|
            (#[trigger] after.under(other.match_filter)).contains(other) <==> lookup(
                next,
                (other.client_id, other.filter),
            ) == Some(other) by {
            let list = self.under(other.match_filter);
            if other.match_filter == match_filter_of(filter) {
                filter_keeps(own, keep, other);
            } else if list.contains(other) {
                let k = choose|k: int| 0 <= k < list.len() && list[k] == other;
                assert(self.under(other.match_filter)[k] == other);
            }
        }
    }

    /// A topic is sent under just those of the subscriptions that the index holds whose filter
    /// matches it, each once; under none where it is no topic to publish to.
    pub proof fn matches_are_those_held(&self, live: Live, topic: Seq<char>)
        requires
            self.tracks(live),
        ensures
            keys_differ(self.matching(topic)),
            forall|route: RouteView| #[trigger]
                self.matching(topic).contains(route) <==> lookup(
                    live,
                    (route.client_id, route.filter),
                ) == Some(route) && filter_matches(route.match_filter, topic),
            !valid_topic_name(topic) ==> self.matching(topic) == Seq::<RouteView>::empty(),
    {
        let parts = levels(topic);
        let keep = |route: RouteView| heeds_system(topic, route);
        if valid_topic_name(topic) {
            levels_hold(topic, '+');
            levels_hold(topic, '#');
            assert forall|i: int| 0 <= i < parts.len() implies (#[trigger] parts[i])
                != plus_level() && parts[i] != hash_level() by {
                assert(plus_level()[0] == '+' && hash_level()[0] == '#');
                if parts[i] == plus_level() {
                    assert(parts[i].contains('+'));
                }
                if parts[i] == hash_level() {
                    assert(parts[i].contains('#'));
                }
            }
            assert forall|path: Seq<Seq<char>>| keys_differ(#[trigger] self.root.at(path)) by {
                let list = self.root.at(path);
                if list.len() > 0 {
                    assert(levels(self.root.at(path)[0].match_filter) == path);
                    assert(keys_differ(self.under(list[0].match_filter)));
                }
            }
            assert forall|path: Seq<Seq<char>>, i: int|
                #![trigger self.root.at(path)[i]]
                0 <= i < self.root.at(path).len() implies place_of(self.root.at(path)[i])
                == Seq::<Seq<char>>::empty() + path by {
                let route = self.root.at(path)[i];
                assert(levels(route.match_filter) == path);
                assert(self.under(route.match_filter)[i] == route);
                assert(Seq::<Seq<char>>::empty() + path =~= path);
            }
            self.root.collected_keys_differ(Seq::empty(), parts);
            filtered_keys_differ(self.led_to(topic), keep);
        }
        assert forall|route: RouteView| #[trigger] self.matching(topic).contains(route) <==> (
        lookup(live, (route.client_id, route.filter)) == Some(route) && filter_matches(
            route.match_filter,
            topic,
        )) by {
            if valid_topic_filter(route.match_filter) {
                self.sent_under_matching_filters(topic, route);
            } else if self.matching(topic).contains(route) {
                let led = self.led_to(topic);
                filter_keeps(led, keep, route);
                self.root.collected_matches(parts, route);
                let found = choose|found: Seq<Seq<char>>|
                    (#[trigger] self.root.at(found)).contains(route) && levels_match(found, parts);
                let list = self.root.at(found);
                let i = choose|i: int| 0 <= i < list.len() && list[i] == route;
                assert(levels(self.root.at(found)[i].match_filter) == found);
                assert(self.under(route.match_filter)[i] == route);
            }
        }
    }

    /// What putting a subscription does to the subscriptions that a topic is sent under: the one
    /// that the client had under the filter is gone, the new one is there where its filter matches
    /// the topic, and the others stay. Putting it again changes nothing, and where the filter may
    /// not be subscribed to nothing changes.
    pub proof fn inserting_changes_matches(
        &self,
        after: &RouterIndex,
        route: RouteView,
        live: Live,
        topic: Seq<char>,
    )
        requires
            self.tracks(live),
            after.wf(),
            forall|filter: Seq<char>|
                (#[trigger] after.under(filter)) == (if valid_topic_filter(route.filter)
                    && filter == route.match_filter {
                    route_put(self.under(filter), route)
                } else {
                    self.under(filter)
                }),
            route.match_filter == match_filter_of(route.filter),
            valid_topic_filter(route.filter) ==> valid_topic_filter(route.match_filter),
        ensures
            keys_differ(after.matching(topic)),
            forall|other: RouteView| #[trigger]
                after.matching(topic).contains(other) <==> if valid_topic_filter(route.filter) {
                    (other == route && filter_matches(route.match_filter, topic)) || (
                    self.matching(topic).contains(other) && !same_key(other, route))
                } else {
                    self.matching(topic).contains(other)
                },
    {
        self.inserted_is_held(after, route, live);
        let next = if valid_topic_filter(route.filter) {
            live.insert((route.client_id, route.filter), route)
        } else {
            live
        };
        self.matches_are_those_held(live, topic);
        after.matches_are_those_held(next, topic);
    }

    /// What removing a subscription does to the subscriptions that a topic is sent under: the one
    /// of the client under the filter is gone, and the others stay.
    pub proof fn removing_changes_matches(
        &self,
        after: &RouterIndex,
        client_id: Seq<char>,
        filter: Seq<char>,
        live: Live,
        topic: Seq<char>,
    )
        requires
            self.tracks(live),
            after.wf(),
            forall|matched: Seq<char>|
                (#[trigger] after.under(matched)) == (if matched == match_filter_of(filter) {
                    route_removed(self.under(matched), client_id, filter)
                } else {
                    self.under(matched)
                }),
        ensures
            keys_differ(after.matching(topic)),
            forall|other: RouteView| #[trigger]
                after.matching(topic).contains(other) <==> self.matching(topic).contains(other)
                    && !is_route(other, client_id, filter),
    {
        self.removed_is_gone(after, client_id, filter, live);
        self.matches_are_those_held(live, topic);
        after.matches_are_those_held(live.remove((client_id, filter)), topic);
    }
}

} // verus!
