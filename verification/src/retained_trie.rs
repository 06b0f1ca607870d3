//! An index of topics by their levels.
use vstd::prelude::*;

use crate::ordered_map::OrderedKey;
use crate::protocol::hash_level;
use crate::protocol::is_hash;
use crate::protocol::is_plus;
use crate::protocol::levels_match;
use crate::protocol::plus_level;
use crate::protocol::split_levels;
use crate::protocol::valid_filter_level;
use crate::protocol::valid_filter_levels;
use crate::value::Value;

verus! {

/// A node of the index: the levels that follow, in ascending order, and the topic that ends here.
pub struct RetainedTrieNode {
    names: Vec<String>,
    children: Vec<RetainedTrieNode>,
    retained_topic: Option<String>,
}

/// Levels in ascending order, level by level; a topic comes before those below it.
pub open spec fn path_before(a: Seq<Seq<char>>, b: Seq<Seq<char>>) -> bool
    decreases a.len(),
{
    if b.len() == 0 {
        false
    } else if a.len() == 0 {
        true
    } else if a[0] != b[0] {
        String::before(a[0], b[0])
    } else {
        path_before(a.drop_first(), b.drop_first())
    }
}

/// Topics with their levels, in ascending order.
pub open spec fn path_ordered(found: Seq<(Seq<Seq<char>>, Seq<char>)>) -> bool {
    forall|i: int, j: int|
        #![trigger found[i], found[j]]
        0 <= i < j < found.len() ==> path_before(found[i].0, found[j].0)
}

/// Topics below a level.
pub open spec fn below(
    name: Seq<char>,
    found: Seq<(Seq<Seq<char>>, Seq<char>)>,
) -> Seq<(Seq<Seq<char>>, Seq<char>)> {
    Seq::new(found.len(), |i: int| (seq![name] + found[i].0, found[i].1))
}

/// The topics without their levels.
pub open spec fn topics_of(found: Seq<(Seq<Seq<char>>, Seq<char>)>) -> Seq<Seq<char>> {
    Seq::new(found.len(), |i: int| found[i].1)
}

impl RetainedTrieNode {
    /// The levels of a node are in ascending order, here and below.
    pub closed spec fn wf(self) -> bool
        decreases self,
    {
        &&& self.names@.len() == self.children@.len()
        &&& forall|i: int, j: int|
            #![trigger self.names@[i], self.names@[j]]
            0 <= i < j < self.names@.len() ==> String::before(self.names@[i]@, self.names@[j]@)
        &&& forall|i: int| 0 <= i < self.children@.len() ==> (#[trigger] self.children@[i]).wf()
    }

    closed spec fn has_child(self, name: Seq<char>) -> bool {
        exists|i: int| 0 <= i < self.names@.len() && (#[trigger] self.names@[i])@ == name
    }

    closed spec fn child_index(self, name: Seq<char>) -> int {
        choose|i: int| 0 <= i < self.names@.len() && (#[trigger] self.names@[i])@ == name
    }

    /// The topic that the index holds under some levels.
    pub closed spec fn at(self, path: Seq<Seq<char>>) -> Option<Seq<char>>
        decreases path.len(),
    {
        if path.len() == 0 {
            self.retained_topic.deep_view()
        } else if self.has_child(path[0]) {
            self.children@[self.child_index(path[0])].at(path.drop_first())
        } else {
            None
        }
    }

    closed spec fn own(self) -> Seq<(Seq<Seq<char>>, Seq<char>)> {
        match self.retained_topic {
            Some(topic) => seq![(Seq::<Seq<char>>::empty(), topic@)],
            None => Seq::empty(),
        }
    }

    /// The topics of the index with their levels, in order.
    pub closed spec fn all(self) -> Seq<(Seq<Seq<char>>, Seq<char>)>
        decreases self, 1nat, 0nat,
    {
        self.own() + self.all_from(0)
    }

    closed spec fn all_from(self, index: int) -> Seq<(Seq<Seq<char>>, Seq<char>)>
        decreases self, 0nat, self.children@.len() - index,
    {
        if index < 0 || index >= self.children@.len() {
            Seq::empty()
        } else {
            below(self.names@[index]@, self.children@[index].all()) + self.all_from(index + 1)
        }
    }

    /// The topics of the index that a filter's levels match, with their levels, in order.
    pub closed spec fn matching(self, filter: Seq<Seq<char>>) -> Seq<(Seq<Seq<char>>, Seq<char>)>
        decreases filter.len(), 1nat, 0int,
    {
        if filter.len() == 0 {
            self.own()
        } else if filter[0] == hash_level() && filter.len() == 1 {
            self.all()
        } else if filter[0] == plus_level() {
            self.matching_from(filter, 0)
        } else if self.has_child(filter[0]) {
            below(
                filter[0],
                self.children@[self.child_index(filter[0])].matching(filter.drop_first()),
            )
        } else {
            Seq::empty()
        }
    }

    closed spec fn matching_from(self, filter: Seq<Seq<char>>, index: int) -> Seq<
        (Seq<Seq<char>>, Seq<char>),
    >
        decreases filter.len(), 0nat, self.children@.len() - index,
        when filter.len() > 0
    {
        if index < 0 || index >= self.children@.len() {
            Seq::empty()
        } else {
            below(
                self.names@[index]@,
                self.children@[index].matching(filter.drop_first()),
            ) + self.matching_from(filter, index + 1)
        }
    }

    proof fn child_index_is(self, index: int)
        requires
            self.wf(),
            0 <= index < self.names@.len(),
        ensures
            self.has_child(self.names@[index]@),
            self.child_index(self.names@[index]@) == index,
    {
        let name = self.names@[index]@;
        assert(self.names@[index]@ == name);
        let found = self.child_index(name);
        String::before_irreflexive(name);
        if found < index {
            assert(String::before(self.names@[found]@, self.names@[index]@));
        } else if index < found {
            assert(String::before(self.names@[index]@, self.names@[found]@));
        }
    }

    /// The empty index.
    pub fn new() -> (result: Self)
        ensures
            result.wf(),
            forall|path: Seq<Seq<char>>| (#[trigger] result.at(path)) is None,
    {
        RetainedTrieNode { names: Vec::new(), children: Vec::new(), retained_topic: None }
    }

    /// The first position whose level does not come before `name`.
    fn slot(&self, name: &String) -> (result: usize)
        requires
            self.wf(),
        ensures
            result <= self.names@.len(),
            forall|i: int|
                0 <= i < result ==> String::before((#[trigger] self.names@[i])@, name@),
            result < self.names@.len() ==> !String::before(self.names@[result as int]@, name@),
    {
        let mut index: usize = 0;
        while index < self.names.len() && self.names[index].is_before(name)
            invariant
                index <= self.names@.len(),
                forall|i: int|
                    0 <= i < index ==> String::before((#[trigger] self.names@[i])@, name@),
            decreases self.names@.len() - index,
        {
            index += 1;
        }
        index
    }

    proof fn slot_decides(self, name: String, slot: int)
        requires
            self.wf(),
            0 <= slot <= self.names@.len(),
            forall|i: int| 0 <= i < slot ==> String::before((#[trigger] self.names@[i])@, name@),
            slot < self.names@.len() ==> !String::before(self.names@[slot]@, name@),
            !(slot < self.names@.len() && self.names@[slot]@ == name@),
        ensures
            !self.has_child(name@),
            forall|i: int|
                slot <= i < self.names@.len() ==> String::before(
                    name@,
                    (#[trigger] self.names@[i])@,
                ),
    {
        assert forall|i: int| slot <= i < self.names@.len() implies String::before(
            name@,
            (#[trigger] self.names@[i])@,
        ) by {
            String::before_total(self.names@[slot]@, name@);
            if i > slot {
                assert(String::before(self.names@[slot]@, self.names@[i]@));
                String::before_transitive(name@, self.names@[slot]@, self.names@[i]@);
            }
        }
        String::before_irreflexive(name@);
        if self.has_child(name@) {
            let i = self.child_index(name@);
            if i < slot {
                assert(String::before(self.names@[i]@, name@));
            } else {
                assert(String::before(name@, self.names@[i]@));
            }
        }
    }

    /// Puts a topic under some levels, from a level on.
    fn insert_levels(&mut self, levels: &Vec<String>, index: usize, topic: &str)
        requires
            old(self).wf(),
            index <= levels@.len(),
        ensures
            final(self).wf(),
            forall|path: Seq<Seq<char>>|
                (#[trigger] final(self).at(path)) == (if path == levels.deep_view().skip(
                    index as int,
                ) {
                    Some(topic@)
                } else {
                    old(self).at(path)
                }),
        decreases levels@.len() - index,
    {
        let ghost whole = levels.deep_view().skip(index as int);
        if index == levels.len() {
            self.retained_topic = Some(topic.to_owned());
            assert(whole =~= Seq::<Seq<char>>::empty());
            proof {
                assert forall|path: Seq<Seq<char>>|
                    (#[trigger] self.at(path)) == (if path == whole {
                        Some(topic@)
                    } else {
                        old(self).at(path)
                    }) by {
                    if path.len() == 0 {
                        assert(path =~= whole);
                    } else {
                        assert(self.has_child(path[0]) == old(self).has_child(path[0]));
                    }
                }
            }
            return;
        }
        let name: &String = &levels[index];
        let ghost rest = levels.deep_view().skip(index + 1);
        assert(whole.drop_first() =~= rest);
        assert(whole[0] == name@);
        let slot: usize = self.slot(name);
        let ghost start = *self;
        if slot < self.names.len() && self.names[slot].same(name) {
            proof {
                start.child_index_is(slot as int);
                assert(start.children@[slot as int].wf());
            }
            self.children[slot].insert_levels(levels, index + 1, topic);
            proof {
                assert(self.names@ == start.names@);
                assert(self.wf()) by {
                    assert forall|i: int| 0 <= i < self.children@.len() implies (
                    #[trigger] self.children@[i]).wf() by {
                        if i != slot {
                            assert(self.children@[i] == start.children@[i]);
                        }
                    }
                }
                self.replaced(start, slot as int, whole, topic@);
            }
        } else {
            proof {
                start.slot_decides(*name, slot as int);
            }
            let mut child: RetainedTrieNode = RetainedTrieNode::new();
            let ghost blank = child;
            child.insert_levels(levels, index + 1, topic);
            let ghost made = child;
            self.names.insert(slot, name.dup());
            self.children.insert(slot, child);
            proof {
                assert(self.names@.remove(slot as int) =~= start.names@);
                self.inserted(start, slot as int, name@, made);
                assert forall|path: Seq<Seq<char>>|
                    (#[trigger] self.at(path)) == (if path == whole {
                        Some(topic@)
                    } else {
                        start.at(path)
                    }) by {
                    if path.len() > 0 && path[0] == name@ {
                        assert(path == whole <==> path.drop_first() == rest) by {
                            assert(path =~= seq![path[0]] + path.drop_first());
                            assert(whole =~= seq![whole[0]] + whole.drop_first());
                        }
                        assert(blank.at(path.drop_first()) is None);
                    }
                }
            }
        }
    }

    /// One child was replaced, and only its topics changed.
    proof fn replaced(self, before: Self, slot: int, whole: Seq<Seq<char>>, topic: Seq<char>)
        requires
            before.wf(),
            self.wf(),
            self.names@ == before.names@,
            self.retained_topic == before.retained_topic,
            0 <= slot < before.names@.len(),
            self.children@.len() == before.children@.len(),
            forall|i: int|
                0 <= i < before.children@.len() && i != slot ==> self.children@[i]
                    == before.children@[i],
            whole.len() > 0,
            whole[0] == before.names@[slot]@,
            forall|path: Seq<Seq<char>>|
                (#[trigger] self.children@[slot].at(path)) == (if path == whole.drop_first() {
                    Some(topic)
                } else {
                    before.children@[slot].at(path)
                }),
        ensures
            forall|path: Seq<Seq<char>>|
                (#[trigger] self.at(path)) == (if path == whole {
                    Some(topic)
                } else {
                    before.at(path)
                }),
    {
        before.child_index_is(slot);
        self.child_index_is(slot);
        assert forall|path: Seq<Seq<char>>|
            (#[trigger] self.at(path)) == (if path == whole {
                Some(topic)
            } else {
                before.at(path)
            }) by {
            if path.len() > 0 {
                assert(path == whole <==> path[0] == whole[0] && path.drop_first()
                    == whole.drop_first()) by {
                    assert(path =~= seq![path[0]] + path.drop_first());
                    assert(whole =~= seq![whole[0]] + whole.drop_first());
                }
                if before.has_child(path[0]) {
                    let i = before.child_index(path[0]);
                    before.child_index_is(i);
                    self.child_index_is(i);
                    assert(before.at(path) == before.children@[i].at(path.drop_first()));
                    assert(self.at(path) == self.children@[i].at(path.drop_first()));
                } else {
                    if self.has_child(path[0]) {
                        let i = self.child_index(path[0]);
                        assert(before.names@[i]@ == path[0]);
                    }
                    assert(path != whole);
                }
            }
        }
    }

    /// A child was put between the others.
    proof fn inserted(self, before: Self, slot: int, name: Seq<char>, child: Self)
        requires
            before.wf(),
            child.wf(),
            0 <= slot <= before.names@.len(),
            self.names@.len() == before.names@.len() + 1,
            self.names@[slot]@ == name,
            self.names@.remove(slot) == before.names@,
            self.children@ == before.children@.insert(slot, child),
            self.retained_topic == before.retained_topic,
            !before.has_child(name),
            forall|i: int|
                0 <= i < slot ==> String::before((#[trigger] before.names@[i])@, name),
            forall|i: int|
                slot <= i < before.names@.len() ==> String::before(
                    name,
                    (#[trigger] before.names@[i])@,
                ),
        ensures
            self.wf(),
            forall|path: Seq<Seq<char>>|
                (#[trigger] self.at(path)) == (if path.len() > 0 && path[0] == name {
                    child.at(path.drop_first())
                } else {
                    before.at(path)
                }),
    {
        let shift = |i: int| if i < slot { i } else { i - 1 };
        assert forall|i: int| 0 <= i < self.names@.len() && i != slot implies (
        #[trigger] self.names@[i]) == before.names@[shift(i)] by {
            assert(self.names@.remove(slot)[shift(i)] == self.names@[i]);
        }
        assert(self.wf()) by {
            assert forall|i: int, j: int|
                #![trigger self.names@[i], self.names@[j]]
                0 <= i < j < self.names@.len() implies String::before(
                self.names@[i]@,
                self.names@[j]@,
            ) by {
                if i != slot {
                    assert(self.names@[i] == before.names@[shift(i)]);
                }
                if j != slot {
                    assert(self.names@[j] == before.names@[shift(j)]);
                }
            }
            assert forall|i: int| 0 <= i < self.children@.len() implies (
            #[trigger] self.children@[i]).wf() by {
                if i != slot {
                    assert(self.children@[i] == before.children@[shift(i)]);
                }
            }
        }
        assert forall|path: Seq<Seq<char>>|
            (#[trigger] self.at(path)) == (if path.len() > 0 && path[0] == name {
                child.at(path.drop_first())
            } else {
                before.at(path)
            }) by {
            if path.len() > 0 {
                if path[0] == name {
                    self.child_index_is(slot);
                } else if before.has_child(path[0]) {
                    let i = before.child_index(path[0]);
                    let j = if i < slot {
                        i
                    } else {
                        i + 1
                    };
                    assert(self.names@[j] == before.names@[i]);
                    self.child_index_is(j);
                    assert(self.children@[j] == before.children@[i]);
                } else if self.has_child(path[0]) {
                    let j = self.child_index(path[0]);
                    assert(self.names@[j] == before.names@[shift(j)]);
                    assert(before.has_child(path[0]));
                }
            }
        }
    }

    /// Puts a topic into the index.
    pub fn insert(&mut self, topic: &str)
        requires
            old(self).wf(),
        ensures
            final(self).wf(),
            forall|path: Seq<Seq<char>>|
                (#[trigger] final(self).at(path)) == (if path == crate::protocol::levels(topic@) {
                    Some(topic@)
                } else {
                    old(self).at(path)
                }),
    {
        let parts: Vec<String> = split_levels(topic);
        assert(parts.deep_view().skip(0) =~= crate::protocol::levels(topic@));
        self.insert_levels(&parts, 0, topic);
    }

    /// Removes what is under some levels, from a level on. Nodes that hold nothing are removed
    /// too: the result is whether this one holds nothing.
    fn remove_levels(&mut self, levels: &Vec<String>, index: usize) -> (empty: bool)
        requires
            old(self).wf(),
            index <= levels@.len(),
        ensures
            final(self).wf(),
            forall|path: Seq<Seq<char>>|
                (#[trigger] final(self).at(path)) == (if path == levels.deep_view().skip(
                    index as int,
                ) {
                    None
                } else {
                    old(self).at(path)
                }),
            empty ==> forall|path: Seq<Seq<char>>| (#[trigger] final(self).at(path)) is None,
        decreases levels@.len() - index,
    {
        let ghost whole = levels.deep_view().skip(index as int);
        let ghost start = *self;
        if index == levels.len() {
            self.retained_topic = None;
            assert(whole =~= Seq::<Seq<char>>::empty());
            proof {
                assert forall|path: Seq<Seq<char>>|
                    (#[trigger] self.at(path)) == (if path == whole {
                        None
                    } else {
                        start.at(path)
                    }) by {
                    if path.len() == 0 {
                        assert(path =~= whole);
                    } else {
                        assert(self.has_child(path[0]) == start.has_child(path[0]));
                    }
                }
            }
            return self.names.len() == 0;
        }
        let name: &String = &levels[index];
        let ghost rest = levels.deep_view().skip(index + 1);
        assert(whole.drop_first() =~= rest);
        assert(whole[0] == name@);
        let slot: usize = self.slot(name);
        if slot < self.names.len() && self.names[slot].same(name) {
            proof {
                start.child_index_is(slot as int);
                assert(start.children@[slot as int].wf());
            }
            let emptied: bool = self.children[slot].remove_levels(levels, index + 1);
            let ghost middle = *self;
            proof {
                assert(middle.wf()) by {
                    assert forall|i: int| 0 <= i < middle.children@.len() implies (
                    #[trigger] middle.children@[i]).wf() by {
                        if i != slot {
                            assert(middle.children@[i] == start.children@[i]);
                        }
                    }
                }
                middle.emptied(start, slot as int, whole);
            }
            if emptied {
                self.names.remove(slot);
                self.children.remove(slot);
                proof {
                    self.pruned(middle, slot as int);
                }
            }
        } else {
            proof {
                start.slot_decides(*name, slot as int);
                assert(start.at(whole) is None);
            }
        }
        self.retained_topic.is_none() && self.names.len() == 0
    }

    /// One child lost a topic.
    proof fn emptied(self, before: Self, slot: int, whole: Seq<Seq<char>>)
        requires
            before.wf(),
            self.wf(),
            self.names@ == before.names@,
            self.retained_topic == before.retained_topic,
            0 <= slot < before.names@.len(),
            self.children@.len() == before.children@.len(),
            forall|i: int|
                0 <= i < before.children@.len() && i != slot ==> self.children@[i]
                    == before.children@[i],
            whole.len() > 0,
            whole[0] == before.names@[slot]@,
            forall|path: Seq<Seq<char>>|
                (#[trigger] self.children@[slot].at(path)) == (if path == whole.drop_first() {
                    None
                } else {
                    before.children@[slot].at(path)
                }),
        ensures
            forall|path: Seq<Seq<char>>|
                (#[trigger] self.at(path)) == (if path == whole {
                    None
                } else {
                    before.at(path)
                }),
    {
        before.child_index_is(slot);
        self.child_index_is(slot);
        assert forall|path: Seq<Seq<char>>|
            (#[trigger] self.at(path)) == (if path == whole {
                None
            } else {
                before.at(path)
            }) by {
            if path.len() > 0 {
                assert(path == whole <==> path[0] == whole[0] && path.drop_first()
                    == whole.drop_first()) by {
                    assert(path =~= seq![path[0]] + path.drop_first());
                    assert(whole =~= seq![whole[0]] + whole.drop_first());
                }
                if before.has_child(path[0]) {
                    let i = before.child_index(path[0]);
                    before.child_index_is(i);
                    self.child_index_is(i);
                    assert(before.at(path) == before.children@[i].at(path.drop_first()));
                    assert(self.at(path) == self.children@[i].at(path.drop_first()));
                } else {
                    if self.has_child(path[0]) {
                        let i = self.child_index(path[0]);
                        assert(before.names@[i]@ == path[0]);
                    }
                    assert(path != whole);
                }
            }
        }
    }

    /// A child that held nothing was removed.
    proof fn pruned(self, before: Self, slot: int)
        requires
            before.wf(),
            0 <= slot < before.names@.len(),
            self.names@ == before.names@.remove(slot),
            self.children@ == before.children@.remove(slot),
            self.retained_topic == before.retained_topic,
            forall|path: Seq<Seq<char>>| (#[trigger] before.children@[slot].at(path)) is None,
        ensures
            self.wf(),
            forall|path: Seq<Seq<char>>| (#[trigger] self.at(path)) == before.at(path),
    {
        let shift = |i: int| if i < slot { i } else { i + 1 };
        assert(self.wf()) by {
            assert forall|i: int, j: int|
                #![trigger self.names@[i], self.names@[j]]
                0 <= i < j < self.names@.len() implies String::before(
                self.names@[i]@,
                self.names@[j]@,
            ) by {
                assert(self.names@[i] == before.names@[shift(i)]);
                assert(self.names@[j] == before.names@[shift(j)]);
            }
            assert forall|i: int| 0 <= i < self.children@.len() implies (
            #[trigger] self.children@[i]).wf() by {
                assert(self.children@[i] == before.children@[shift(i)]);
            }
        }
        before.child_index_is(slot);
        assert forall|path: Seq<Seq<char>>| (#[trigger] self.at(path)) == before.at(path) by {
            if path.len() > 0 {
                if before.has_child(path[0]) {
                    let i = before.child_index(path[0]);
                    if i == slot {
                        assert(before.children@[slot].at(path.drop_first()) is None);
                        if self.has_child(path[0]) {
                            let j = self.child_index(path[0]);
                            assert(self.names@[j] == before.names@[shift(j)]);
                            before.child_index_is(shift(j));
                        }
                    } else {
                        let j = if i < slot {
                            i
                        } else {
                            i - 1
                        };
                        assert(self.names@[j] == before.names@[i]);
                        self.child_index_is(j);
                        assert(self.children@[j] == before.children@[i]);
                    }
                } else if self.has_child(path[0]) {
                    let j = self.child_index(path[0]);
                    assert(self.names@[j] == before.names@[shift(j)]);
                    assert(before.has_child(path[0]));
                }
            }
        }
    }

    /// Removes a topic from the index.
    pub fn remove(&mut self, topic: &str)
        requires
            old(self).wf(),
        ensures
            final(self).wf(),
            forall|path: Seq<Seq<char>>|
                (#[trigger] final(self).at(path)) == (if path == crate::protocol::levels(topic@) {
                    None
                } else {
                    old(self).at(path)
                }),
    {
        let parts: Vec<String> = split_levels(topic);
        assert(parts.deep_view().skip(0) =~= crate::protocol::levels(topic@));
        self.remove_levels(&parts, 0);
    }

    /// Appends the topic that ends here.
    fn collect_own(&self, matches: &mut Vec<String>)
        ensures
            final(matches).deep_view() == old(matches).deep_view() + topics_of(self.own()),
    {
        let ghost before = matches.deep_view();
        if let Some(topic) = &self.retained_topic {
            matches.push(topic.dup());
            assert(matches.deep_view() =~= before + topics_of(self.own()));
        } else {
            assert(matches.deep_view() =~= before + topics_of(self.own()));
        }
    }

    /// Appends every topic, in order.
    pub fn collect_all(&self, matches: &mut Vec<String>)
        requires
            self.wf(),
        ensures
            final(matches).deep_view() == old(matches).deep_view() + topics_of(self.all()),
        decreases *self,
    {
        let ghost start = matches.deep_view();
        self.collect_own(matches);
        let mut index: usize = 0;
        assert(matches.deep_view() + topics_of(self.all_from(0)) =~= start + topics_of(
            self.all(),
        ));
        while index < self.children.len()
            invariant
                index <= self.children@.len(),
                self.wf(),
                matches.deep_view() + topics_of(self.all_from(index as int)) == start
                    + topics_of(self.all()),
            decreases self.children@.len() - index,
        {
            let ghost before = matches.deep_view();
            assert(self.children@[index as int].wf());
            self.children[index].collect_all(matches);
            assert(matches.deep_view() + topics_of(self.all_from(index + 1)) =~= before
                + topics_of(self.all_from(index as int)));
            index += 1;
        }
        assert(matches.deep_view() =~= start + topics_of(self.all()));
    }

    /// Appends the topics that a filter's levels match from a level on, in order.
    pub fn collect_matches(&self, filter_levels: &Vec<String>, index: usize, matches: &mut Vec<
        String,
    >)
        requires
            self.wf(),
            index <= filter_levels@.len(),
        ensures
            final(matches).deep_view() == old(matches).deep_view() + topics_of(
                self.matching(filter_levels.deep_view().skip(index as int)),
            ),
        decreases filter_levels@.len() - index,
    {
        let ghost filter = filter_levels.deep_view().skip(index as int);
        if index == filter_levels.len() {
            self.collect_own(matches);
            return;
        }
        let level: &String = &filter_levels[index];
        assert(filter[0] == level@);
        assert(filter.drop_first() =~= filter_levels.deep_view().skip(index + 1));
        if is_hash(level.as_str()) && index + 1 == filter_levels.len() {
            self.collect_all(matches);
        } else if is_plus(level.as_str()) {
            let ghost start = matches.deep_view();
            let mut child: usize = 0;
            let count: usize = filter_levels.len();
            assert(filter[0] != hash_level()) by {
                assert(hash_level()[0] != plus_level()[0]);
            }
            while child < self.children.len()
                invariant
                    child <= self.children@.len(),
                    index < count == filter_levels@.len(),
                    self.wf(),
                    filter == filter_levels.deep_view().skip(index as int),
                    filter.drop_first() == filter_levels.deep_view().skip(index + 1),
                    filter.len() > 0,
                    matches.deep_view() + topics_of(self.matching_from(filter, child as int))
                        == start + topics_of(self.matching_from(filter, 0)),
                decreases self.children@.len() - child,
            {
                let ghost before = matches.deep_view();
                assert(self.children@[child as int].wf());
                self.children[child].collect_matches(filter_levels, index + 1, matches);
                assert(matches.deep_view() + topics_of(self.matching_from(filter, child + 1))
                    =~= before + topics_of(self.matching_from(filter, child as int)));
                child += 1;
            }
            assert(matches.deep_view() =~= start + topics_of(self.matching_from(filter, 0)));
        } else {
            let slot: usize = self.slot(level);
            let ghost start = matches.deep_view();
            if slot < self.names.len() && self.names[slot].same(level) {
                proof {
                    self.child_index_is(slot as int);
                    assert(self.children@[slot as int].wf());
                }
                self.children[slot].collect_matches(filter_levels, index + 1, matches);
                assert(matches.deep_view() =~= start + topics_of(self.matching(filter)));
            } else {
                proof {
                    self.slot_decides(*level, slot as int);
                }
                assert(matches.deep_view() =~= start + topics_of(self.matching(filter)));
            }
        }
    }
}

/// What is below a level.
proof fn below_holds(name: Seq<char>, found: Seq<(Seq<Seq<char>>, Seq<char>)>)
    ensures
        path_ordered(found) ==> path_ordered(below(name, found)),
        forall|path: Seq<Seq<char>>, topic: Seq<char>|
            #![trigger below(name, found).contains((path, topic))]
            below(name, found).contains((path, topic)) <==> path.len() > 0 && path[0] == name
                && found.contains((path.drop_first(), topic)),
{
    let lower = below(name, found);
    assert forall|path: Seq<Seq<char>>, topic: Seq<char>|
        #![trigger lower.contains((path, topic))]
        lower.contains((path, topic)) <==> path.len() > 0 && path[0] == name && found.contains(
            (path.drop_first(), topic),
        ) by {
        if lower.contains((path, topic)) {
            let i = lower.index_of((path, topic));
            assert(path.drop_first() =~= found[i].0);
            assert(found[i] == (path.drop_first(), topic));
        }
        if path.len() > 0 && path[0] == name && found.contains((path.drop_first(), topic)) {
            let i = found.index_of((path.drop_first(), topic));
            assert(path =~= seq![name] + path.drop_first());
            assert(lower[i] == (path, topic));
        }
    }
    if path_ordered(found) {
        assert forall|i: int, j: int|
            #![trigger lower[i], lower[j]]
            0 <= i < j < lower.len() implies path_before(lower[i].0, lower[j].0) by {
            assert(path_before(found[i].0, found[j].0));
            assert((seq![name] + found[i].0).drop_first() =~= found[i].0);
            assert((seq![name] + found[j].0).drop_first() =~= found[j].0);
        }
    }
}

/// Ordered topics after other ordered topics, all of which come before them.
proof fn ordered_join(
    first: Seq<(Seq<Seq<char>>, Seq<char>)>,
    second: Seq<(Seq<Seq<char>>, Seq<char>)>,
)
    requires
        path_ordered(first),
        path_ordered(second),
        forall|i: int, j: int|
            #![trigger first[i], second[j]]
            0 <= i < first.len() && 0 <= j < second.len() ==> path_before(
                first[i].0,
                second[j].0,
            ),
    ensures
        path_ordered(first + second),
        forall|item: (Seq<Seq<char>>, Seq<char>)|
            #![trigger (first + second).contains(item)]
            (first + second).contains(item) <==> first.contains(item) || second.contains(item),
{
    let all = first + second;
    assert forall|i: int, j: int|
        #![trigger all[i], all[j]]
        0 <= i < j < all.len() implies path_before(all[i].0, all[j].0) by {
        if j < first.len() {
            assert(all[i] == first[i] && all[j] == first[j]);
        } else if i >= first.len() {
            assert(all[i] == second[i - first.len()] && all[j] == second[j - first.len()]);
        } else {
            assert(all[i] == first[i] && all[j] == second[j - first.len()]);
        }
    }
    assert forall|item: (Seq<Seq<char>>, Seq<char>)|
        #![trigger all.contains(item)]
        all.contains(item) <==> first.contains(item) || second.contains(item) by {
        if first.contains(item) {
            let i = first.index_of(item);
            assert(all[i] == item);
        }
        if second.contains(item) {
            let i = second.index_of(item);
            assert(all[first.len() + i] == item);
        }
        if all.contains(item) {
            let i = all.index_of(item);
            if i < first.len() {
                assert(first[i] == item);
            } else {
                assert(second[i - first.len()] == item);
            }
        }
    }
}

impl RetainedTrieNode {
    proof fn own_is(self)
        ensures
            path_ordered(self.own()),
            forall|path: Seq<Seq<char>>, topic: Seq<char>|
                #![trigger self.own().contains((path, topic))]
                self.own().contains((path, topic)) <==> path.len() == 0 && self.at(path) == Some(
                    topic,
                ),
    {
        assert forall|path: Seq<Seq<char>>, topic: Seq<char>|
            #![trigger self.own().contains((path, topic))]
            self.own().contains((path, topic)) <==> path.len() == 0 && self.at(path) == Some(
                topic,
            ) by {
            if path.len() == 0 && self.at(path) == Some(topic) {
                assert(path =~= Seq::<Seq<char>>::empty());
                assert(self.own()[0] == (path, topic));
            }
        }
    }

    /// The index lists each of its topics with its levels, in ascending order.
    pub proof fn all_is(self)
        requires
            self.wf(),
        ensures
            path_ordered(self.all()),
            forall|path: Seq<Seq<char>>, topic: Seq<char>|
                #![trigger self.all().contains((path, topic))]
                self.all().contains((path, topic)) <==> self.at(path) == Some(topic),
        decreases self, 1nat, 0int,
    {
        self.own_is();
        self.all_from_is(0);
        let own = self.own();
        let rest = self.all_from(0);
        assert forall|i: int, j: int|
            #![trigger own[i], rest[j]]
            0 <= i < own.len() && 0 <= j < rest.len() implies path_before(own[i].0, rest[j].0) by {
            assert(rest.contains((rest[j].0, rest[j].1)));
        }
        ordered_join(own, rest);
        assert forall|path: Seq<Seq<char>>, topic: Seq<char>|
            #![trigger self.all().contains((path, topic))]
            self.all().contains((path, topic)) <==> self.at(path) == Some(topic) by {
            assert((own + rest).contains((path, topic)) <==> own.contains((path, topic))
                || rest.contains((path, topic)));
        }
    }

    /// The topics below the children from a position on.
    proof fn all_from_is(self, index: int)
        requires
            self.wf(),
            0 <= index <= self.children@.len(),
        ensures
            path_ordered(self.all_from(index)),
            forall|path: Seq<Seq<char>>, topic: Seq<char>|
                #![trigger self.all_from(index).contains((path, topic))]
                self.all_from(index).contains((path, topic)) <==> path.len() > 0 && self.at(path)
                    == Some(topic) && self.child_index(path[0]) >= index,
        decreases self, 0nat, self.children@.len() - index,
    {
        if index == self.children@.len() {
            assert forall|path: Seq<Seq<char>>, topic: Seq<char>|
                #![trigger self.all_from(index).contains((path, topic))]
                self.all_from(index).contains((path, topic)) <==> path.len() > 0 && self.at(path)
                    == Some(topic) && self.child_index(path[0]) >= index by {
                if path.len() > 0 && self.has_child(path[0]) {
                    assert(self.child_index(path[0]) < self.children@.len());
                }
            }
        } else {
            let name = self.names@[index]@;
            let child = self.children@[index];
            assert(child.wf());
            child.all_is();
            self.all_from_is(index + 1);
            self.child_index_is(index);
            below_holds(name, child.all());
            let first = below(name, child.all());
            let rest = self.all_from(index + 1);
            self.child_before_rest(first, rest, index);
            ordered_join(first, rest);
            assert forall|path: Seq<Seq<char>>, topic: Seq<char>|
                #![trigger self.all_from(index).contains((path, topic))]
                self.all_from(index).contains((path, topic)) <==> path.len() > 0 && self.at(path)
                    == Some(topic) && self.child_index(path[0]) >= index by {
                assert((first + rest).contains((path, topic)) <==> first.contains((path, topic))
                    || rest.contains((path, topic)));
                assert(first.contains((path, topic)) <==> path.len() > 0 && path[0] == name
                    && child.all().contains((path.drop_first(), topic)));
                if path.len() > 0 && self.has_child(path[0]) && self.child_index(path[0])
                    == index {
                    assert(self.names@[self.child_index(path[0])]@ == path[0]);
                }
            }
        }
    }

    /// Topics below one child come before topics below later children.
    proof fn child_before_rest(
        self,
        first: Seq<(Seq<Seq<char>>, Seq<char>)>,
        rest: Seq<(Seq<Seq<char>>, Seq<char>)>,
        index: int,
    )
        requires
            self.wf(),
            0 <= index < self.children@.len(),
            forall|path: Seq<Seq<char>>, topic: Seq<char>|
                #![trigger first.contains((path, topic))]
                first.contains((path, topic)) ==> path.len() > 0 && path[0]
                    == self.names@[index]@,
            forall|path: Seq<Seq<char>>, topic: Seq<char>|
                #![trigger rest.contains((path, topic))]
                rest.contains((path, topic)) ==> path.len() > 0 && self.at(path) == Some(topic)
                    && self.child_index(path[0]) >= index + 1,
        ensures
            forall|i: int, j: int|
                #![trigger first[i], rest[j]]
                0 <= i < first.len() && 0 <= j < rest.len() ==> path_before(
                    first[i].0,
                    rest[j].0,
                ),
    {
        assert forall|i: int, j: int|
            #![trigger first[i], rest[j]]
            0 <= i < first.len() && 0 <= j < rest.len() implies path_before(
            first[i].0,
            rest[j].0,
        ) by {
            assert(first.contains((first[i].0, first[i].1)));
            assert(rest.contains((rest[j].0, rest[j].1)));
            let later = self.child_index(rest[j].0[0]);
            assert(self.has_child(rest[j].0[0]));
            assert(self.names@[later]@ == rest[j].0[0]);
            assert(String::before(self.names@[index]@, self.names@[later]@));
            String::before_irreflexive(self.names@[index]@);
        }
    }

    /// The index finds just the topics whose levels a filter's levels match, in ascending order.
    pub proof fn matching_is(self, filter: Seq<Seq<char>>)
        requires
            self.wf(),
            valid_filter_levels(filter),
        ensures
            path_ordered(self.matching(filter)),
            forall|path: Seq<Seq<char>>, topic: Seq<char>|
                #![trigger self.matching(filter).contains((path, topic))]
                self.matching(filter).contains((path, topic)) <==> self.at(path) == Some(topic)
                    && levels_match(filter, path),
        decreases filter.len(), 1nat, 0int,
    {
        if filter.len() == 0 {
            self.own_is();
        } else {
            let rest = filter.drop_first();
            assert(valid_filter_levels(rest)) by {
                assert forall|i: int| 0 <= i < rest.len() implies valid_filter_level(
                    #[trigger] rest[i],
                    i + 1 == rest.len(),
                ) by {
                    assert(rest[i] == filter[i + 1]);
                }
            }
            assert(valid_filter_level(filter[0], 1 == filter.len()));
            if filter[0] == hash_level() {
                assert(hash_level()[0] == '#');
                assert(filter[0].contains('#'));
                self.all_is();
            } else if filter[0] == plus_level() {
                self.matching_from_is(filter, 0);
                assert forall|path: Seq<Seq<char>>, topic: Seq<char>|
                    #![trigger self.matching(filter).contains((path, topic))]
                    self.matching(filter).contains((path, topic)) <==> self.at(path) == Some(topic)
                        && levels_match(filter, path) by {
                    assert(self.matching_from(filter, 0).contains((path, topic)) <==> path.len()
                        > 0 && self.at(path) == Some(topic) && levels_match(
                        rest,
                        path.drop_first(),
                    ) && self.child_index(path[0]) >= 0);
                    if path.len() > 0 && self.has_child(path[0]) {
                        assert(self.child_index(path[0]) >= 0);
                    }
                }
            } else if self.has_child(filter[0]) {
                let index = self.child_index(filter[0]);
                let child = self.children@[index];
                assert(child.wf());
                child.matching_is(rest);
                below_holds(filter[0], child.matching(rest));
                let found = below(filter[0], child.matching(rest));
                assert forall|path: Seq<Seq<char>>, topic: Seq<char>|
                    #![trigger self.matching(filter).contains((path, topic))]
                    self.matching(filter).contains((path, topic)) <==> self.at(path) == Some(topic)
                        && levels_match(filter, path) by {
                    assert(found.contains((path, topic)) <==> path.len() > 0 && path[0]
                        == filter[0] && child.matching(rest).contains((path.drop_first(), topic)));
                }
            } else {
                assert forall|path: Seq<Seq<char>>, topic: Seq<char>|
                    #![trigger self.matching(filter).contains((path, topic))]
                    self.matching(filter).contains((path, topic)) <==> self.at(path) == Some(topic)
                        && levels_match(filter, path) by {}
            }
        }
    }

    /// The topics below the children from a position on that a filter's levels match.
    proof fn matching_from_is(self, filter: Seq<Seq<char>>, index: int)
        requires
            self.wf(),
            filter.len() > 0,
            valid_filter_levels(filter.drop_first()),
            0 <= index <= self.children@.len(),
        ensures
            path_ordered(self.matching_from(filter, index)),
            forall|path: Seq<Seq<char>>, topic: Seq<char>|
                #![trigger self.matching_from(filter, index).contains((path, topic))]
                self.matching_from(filter, index).contains((path, topic)) <==> path.len() > 0
                    && self.at(path) == Some(topic) && levels_match(
                    filter.drop_first(),
                    path.drop_first(),
                ) && self.child_index(path[0]) >= index,
        decreases filter.len(), 0nat, self.children@.len() - index,
    {
        let rest = filter.drop_first();
        if index == self.children@.len() {
            assert forall|path: Seq<Seq<char>>, topic: Seq<char>|
                #![trigger self.matching_from(filter, index).contains((path, topic))]
                self.matching_from(filter, index).contains((path, topic)) <==> path.len() > 0
                    && self.at(path) == Some(topic) && levels_match(rest, path.drop_first())
                    && self.child_index(path[0]) >= index by {
                if path.len() > 0 && self.has_child(path[0]) {
                    assert(self.child_index(path[0]) < self.children@.len());
                }
            }
        } else {
            let name = self.names@[index]@;
            let child = self.children@[index];
            assert(child.wf());
            child.matching_is(rest);
            self.matching_from_is(filter, index + 1);
            self.child_index_is(index);
            below_holds(name, child.matching(rest));
            let first = below(name, child.matching(rest));
            let later = self.matching_from(filter, index + 1);
            self.child_before_rest(first, later, index);
            ordered_join(first, later);
            assert forall|path: Seq<Seq<char>>, topic: Seq<char>|
                #![trigger self.matching_from(filter, index).contains((path, topic))]
                self.matching_from(filter, index).contains((path, topic)) <==> path.len() > 0
                    && self.at(path) == Some(topic) && levels_match(rest, path.drop_first())
                    && self.child_index(path[0]) >= index by {
                assert((first + later).contains((path, topic)) <==> first.contains((path, topic))
                    || later.contains((path, topic)));
                assert(first.contains((path, topic)) <==> path.len() > 0 && path[0] == name
                    && child.matching(rest).contains((path.drop_first(), topic)));
                if path.len() > 0 && self.has_child(path[0]) && self.child_index(path[0])
                    == index {
                    assert(self.names@[self.child_index(path[0])]@ == path[0]);
                }
            }
        }
    }
}

} // verus!
