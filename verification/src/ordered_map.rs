//! A map kept as a vector of entries in strictly ascending key order.
use vstd::prelude::*;
use vstd::string::StringSliceAdditionalSpecFns;
use vstd::utf8::encode_utf8;

use crate::text::encoding_is_injective;
use crate::value::Value;

verus! {

/// A key type with a strict total order on what its values stand for.
pub trait OrderedKey: Value {
    /// `a` comes before `b`.
    spec fn before(a: Self::V, b: Self::V) -> bool;

    /// The order is irreflexive.
    proof fn before_irreflexive(a: Self::V)
        ensures
            !Self::before(a, a),
    ;

    /// The order is transitive.
    proof fn before_transitive(a: Self::V, b: Self::V, c: Self::V)
        ensures
            Self::before(a, b) && Self::before(b, c) ==> Self::before(a, c),
    ;

    /// Different keys are ordered one way or the other.
    proof fn before_total(a: Self::V, b: Self::V)
        ensures
            a == b || Self::before(a, b) || Self::before(b, a),
    ;

    /// Whether this key comes before the other.
    fn is_before(&self, other: &Self) -> (result: bool)
        ensures
            result == Self::before(self.deep_view(), other.deep_view()),
    ;
}

impl OrderedKey for u16 {
    open spec fn before(a: u16, b: u16) -> bool {
        a < b
    }

    proof fn before_irreflexive(a: u16) {
    }

    proof fn before_transitive(a: u16, b: u16, c: u16) {
    }

    proof fn before_total(a: u16, b: u16) {
    }

    fn is_before(&self, other: &Self) -> (result: bool) {
        *self < *other
    }
}

impl OrderedKey for u64 {
    open spec fn before(a: u64, b: u64) -> bool {
        a < b
    }

    proof fn before_irreflexive(a: u64) {
    }

    proof fn before_transitive(a: u64, b: u64, c: u64) {
    }

    proof fn before_total(a: u64, b: u64) {
    }

    fn is_before(&self, other: &Self) -> (result: bool) {
        *self < *other
    }
}

impl<A: OrderedKey, B: OrderedKey> OrderedKey for (A, B) {
    open spec fn before(a: (A::V, B::V), b: (A::V, B::V)) -> bool {
        A::before(a.0, b.0) || (a.0 == b.0 && B::before(a.1, b.1))
    }

    proof fn before_irreflexive(a: (A::V, B::V)) {
        A::before_irreflexive(a.0);
        B::before_irreflexive(a.1);
    }

    proof fn before_transitive(a: (A::V, B::V), b: (A::V, B::V), c: (A::V, B::V)) {
        A::before_transitive(a.0, b.0, c.0);
        B::before_transitive(a.1, b.1, c.1);
    }

    proof fn before_total(a: (A::V, B::V), b: (A::V, B::V)) {
        A::before_total(a.0, b.0);
        B::before_total(a.1, b.1);
    }

    fn is_before(&self, other: &Self) -> (result: bool) {
        self.0.is_before(&other.0) || (self.0.same(&other.0) && self.1.is_before(&other.1))
    }
}

/// Lexicographic order on byte sequences.
pub open spec fn bytes_before(a: Seq<u8>, b: Seq<u8>) -> bool
    decreases a.len(),
{
    if b.len() == 0 {
        false
    } else if a.len() == 0 {
        true
    } else if a[0] != b[0] {
        a[0] < b[0]
    } else {
        bytes_before(a.drop_first(), b.drop_first())
    }
}

proof fn bytes_before_irreflexive(a: Seq<u8>)
    ensures
        !bytes_before(a, a),
    decreases a.len(),
{
    if a.len() > 0 {
        bytes_before_irreflexive(a.drop_first());
    }
}

proof fn bytes_before_transitive(a: Seq<u8>, b: Seq<u8>, c: Seq<u8>)
    requires
        bytes_before(a, b),
        bytes_before(b, c),
    ensures
        bytes_before(a, c),
    decreases a.len(),
{
    if a.len() > 0 && a[0] == b[0] && b[0] == c[0] {
        bytes_before_transitive(a.drop_first(), b.drop_first(), c.drop_first());
    }
}

proof fn bytes_before_total(a: Seq<u8>, b: Seq<u8>)
    ensures
        a == b || bytes_before(a, b) || bytes_before(b, a),
    decreases a.len(),
{
    if a.len() > 0 && b.len() > 0 && a[0] == b[0] {
        bytes_before_total(a.drop_first(), b.drop_first());
        assert(a =~= seq![a[0]] + a.drop_first());
        assert(b =~= seq![b[0]] + b.drop_first());
    } else if a.len() == 0 && b.len() == 0 {
        assert(a =~= b);
    }
}

/// Whether `a` comes before `b` in the lexicographic order of bytes.
pub fn bytes_less(a: &[u8], b: &[u8]) -> (result: bool)
    ensures
        result == bytes_before(a@, b@),
{
    let mut index: usize = 0;
    assert(a@.skip(0) =~= a@);
    assert(b@.skip(0) =~= b@);
    while index < a.len() && index < b.len()
        invariant
            index <= a.len(),
            index <= b.len(),
            bytes_before(a@, b@) == bytes_before(a@.skip(index as int), b@.skip(index as int)),
        decreases a.len() - index,
    {
        if a[index] != b[index] {
            return a[index] < b[index];
        }
        assert(a@.skip(index as int).drop_first() =~= a@.skip(index + 1));
        assert(b@.skip(index as int).drop_first() =~= b@.skip(index + 1));
        index += 1;
    }
    index < b.len()
}

impl OrderedKey for String {
    open spec fn before(a: Seq<char>, b: Seq<char>) -> bool {
        bytes_before(encode_utf8(a), encode_utf8(b))
    }

    proof fn before_irreflexive(a: Seq<char>) {
        bytes_before_irreflexive(encode_utf8(a));
    }

    proof fn before_transitive(a: Seq<char>, b: Seq<char>, c: Seq<char>) {
        if String::before(a, b) && String::before(b, c) {
            bytes_before_transitive(encode_utf8(a), encode_utf8(b), encode_utf8(c));
        }
    }

    proof fn before_total(a: Seq<char>, b: Seq<char>) {
        bytes_before_total(encode_utf8(a), encode_utf8(b));
        if encode_utf8(a) == encode_utf8(b) {
            encoding_is_injective(a, b);
        }
    }

    fn is_before(&self, other: &Self) -> (result: bool) {
        bytes_less(self.as_str().as_bytes(), other.as_str().as_bytes())
    }
}

/// The entries are in strictly ascending key order.
pub open spec fn ascending<K: OrderedKey, W>(entries: Seq<(K::V, W)>) -> bool {
    forall|i: int, j: int|
        #![trigger entries[i], entries[j]]
        0 <= i < j < entries.len() ==> K::before(entries[i].0, entries[j].0)
}

/// The entries hold the key.
pub open spec fn has_key<A, B>(entries: Seq<(A, B)>, key: A) -> bool {
    exists|i: int| 0 <= i < entries.len() && (#[trigger] entries[i]).0 == key
}

/// The position of a key that the entries hold.
pub open spec fn key_index<A, B>(entries: Seq<(A, B)>, key: A) -> int {
    choose|i: int| 0 <= i < entries.len() && (#[trigger] entries[i]).0 == key
}

/// The map that a sequence of entries stands for.
pub open spec fn map_of<A, B>(entries: Seq<(A, B)>) -> Map<A, B> {
    Map::new(|key: A| has_key(entries, key), |key: A| entries[key_index(entries, key)].1)
}

/// The ascending entries of a finite map.
pub open spec fn entries_of<K: OrderedKey, W>(map: Map<K::V, W>) -> Seq<(K::V, W)> {
    choose|entries: Seq<(K::V, W)>| #[trigger]
        ascending::<K, W>(entries) && map_of(entries) == map
}

/// A map with finitely many keys, listed in ascending order by its entries.
pub open spec fn listed<K: OrderedKey, W>(map: Map<K::V, W>) -> bool {
    ascending::<K, W>(entries_of::<K, W>(map)) && map_of(entries_of::<K, W>(map)) == map
}

/// An ordered map from `K` to `V`.
pub struct OrderedMap<K: OrderedKey, V: Value> {
    list: Vec<(K, V)>,
}

impl<K: OrderedKey, V: Value> DeepView for OrderedMap<K, V> {
    type V = Map<K::V, V::V>;

    /// The finite map that this value stands for.
    open spec fn deep_view(&self) -> Map<K::V, V::V> {
        map_of(self.entries())
    }
}

impl<K: OrderedKey, V: Value> OrderedMap<K, V> {
    /// The entries in ascending key order.
    pub closed spec fn entries(&self) -> Seq<(K::V, V::V)> {
        self.list.deep_view()
    }

    #[verifier::type_invariant]
    closed spec fn sorted(self) -> bool {
        ascending::<K, V::V>(self.list.deep_view())
    }

    /// The empty map.
    pub fn new() -> (result: Self)
        ensures
            result.entries() == Seq::<(K::V, V::V)>::empty(),
            result.deep_view() == Map::<K::V, V::V>::empty(),
    {
        let list: Vec<(K, V)> = Vec::new();
        assert(list.deep_view() =~= Seq::<(K::V, V::V)>::empty());
        assert(map_of(Seq::<(K::V, V::V)>::empty()) =~= Map::<K::V, V::V>::empty());
        OrderedMap { list }
    }

    /// The number of entries.
    pub fn len(&self) -> (result: usize)
        ensures
            result == self.entries().len(),
            self.deep_view().dom().finite(),
            result == self.deep_view().len(),
            ascending::<K, V::V>(self.entries()),
            self.entries() == entries_of::<K, V::V>(self.deep_view()),
    {
        proof {
            use_type_invariant(self);
            map_of_len::<K, V::V>(self.entries());
            entries_of_entries::<K, V::V>(self.entries());
        }
        self.list.len()
    }

    /// Whether there is no entry.
    pub fn is_empty(&self) -> (result: bool)
        ensures
            result == (self.entries().len() == 0),
            result == (self.deep_view() == Map::<K::V, V::V>::empty()),
            ascending::<K, V::V>(self.entries()),
    {
        proof {
            use_type_invariant(self);
            if self.entries().len() == 0 {
                assert(self.deep_view() =~= Map::<K::V, V::V>::empty());
            } else {
                assert(self.entries()[0] == self.entries()[0]);
                assert(self.deep_view().dom().contains(self.entries()[0].0));
            }
        }
        self.list.len() == 0
    }

    /// The key of the entry at a position.
    pub fn key_at(&self, index: usize) -> (result: &K)
        requires
            index < self.entries().len(),
        ensures
            result.deep_view() == self.entries()[index as int].0,
            self.deep_view().dom().contains(result.deep_view()),
            self.deep_view()[result.deep_view()] == self.entries()[index as int].1,
    {
        proof {
            use_type_invariant(self);
            map_of_entry::<K, V::V>(self.entries(), index as int);
        }
        &self.list[index].0
    }

    /// The value of the entry at a position.
    pub fn value_at(&self, index: usize) -> (result: &V)
        requires
            index < self.entries().len(),
        ensures
            result.deep_view() == self.entries()[index as int].1,
            self.deep_view().dom().contains(self.entries()[index as int].0),
            self.deep_view()[self.entries()[index as int].0] == result.deep_view(),
    {
        proof {
            use_type_invariant(self);
            map_of_entry::<K, V::V>(self.entries(), index as int);
        }
        &self.list[index].1
    }

    /// The first position whose key does not come before `key`.
    fn position(&self, key: &K) -> (result: usize)
        ensures
            result <= self.entries().len(),
            forall|i: int|
                0 <= i < result ==> K::before((#[trigger] self.entries()[i]).0, key.deep_view()),
            forall|i: int|
                result <= i < self.entries().len() ==> !K::before(
                    (#[trigger] self.entries()[i]).0,
                    key.deep_view(),
                ),
    {
        let mut low: usize = 0;
        let mut high: usize = self.list.len();
        proof {
            use_type_invariant(self);
        }
        let ghost entries = self.entries();
        while low < high
            invariant
                low <= high <= self.list.len(),
                entries == self.list.deep_view(),
                ascending::<K, V::V>(entries),
                forall|i: int|
                    0 <= i < low ==> K::before((#[trigger] entries[i]).0, key.deep_view()),
                forall|i: int|
                    high <= i < entries.len() ==> !K::before(
                        (#[trigger] entries[i]).0,
                        key.deep_view(),
                    ),
            decreases high - low,
        {
            let middle: usize = low + (high - low) / 2;
            assert(entries[middle as int].0 == self.list@[middle as int].0.deep_view());
            if self.list[middle].0.is_before(key) {
                assert forall|i: int| 0 <= i < middle + 1 implies K::before(
                    (#[trigger] entries[i]).0,
                    key.deep_view(),
                ) by {
                    if i < middle {
                        K::before_transitive(
                            entries[i].0,
                            entries[middle as int].0,
                            key.deep_view(),
                        );
                    }
                }
                low = middle + 1;
            } else {
                assert forall|i: int| middle <= i < entries.len() implies !K::before(
                    (#[trigger] entries[i]).0,
                    key.deep_view(),
                ) by {
                    if i > middle && K::before(entries[i].0, key.deep_view()) {
                        K::before_transitive(
                            entries[middle as int].0,
                            entries[i].0,
                            key.deep_view(),
                        );
                    }
                }
                high = middle;
            }
        }
        low
    }

    /// The position of a key, if the map has it.
    pub fn find(&self, key: &K) -> (result: Option<usize>)
        ensures
            result is Some <==> self.deep_view().dom().contains(key.deep_view()),
            result matches Some(index) ==> index < self.entries().len()
                && self.entries()[index as int].0 == key.deep_view()
                && self.entries()[index as int].1 == self.deep_view()[key.deep_view()],
    {
        let index: usize = self.position(key);
        proof {
            use_type_invariant(self);
        }
        let ghost entries = self.entries();
        if index < self.list.len() && self.list[index].0.same(key) {
            proof {
                map_of_entry::<K, V::V>(entries, index as int);
            }
            Some(index)
        } else {
            proof {
                absent_at::<K, V>(self.list@, key, index as int);
            }
            None
        }
    }

    /// Whether the map has the key.
    pub fn contains_key(&self, key: &K) -> (result: bool)
        ensures
            result == self.deep_view().dom().contains(key.deep_view()),
    {
        self.find(key).is_some()
    }

    /// The value under a key.
    pub fn get(&self, key: &K) -> (result: Option<&V>)
        ensures
            result is Some <==> self.deep_view().dom().contains(key.deep_view()),
            result matches Some(value) ==> value.deep_view() == self.deep_view()[key.deep_view()],
    {
        match self.find(key) {
            Some(index) => Some(&self.list[index].1),
            None => None,
        }
    }

    /// Puts a value under a key and returns the value that was there.
    pub fn insert(&mut self, key: K, value: V) -> (previous: Option<V>)
        ensures
            final(self).deep_view() == old(self).deep_view().insert(
                key.deep_view(),
                value.deep_view(),
            ),
            previous is Some <==> old(self).deep_view().dom().contains(key.deep_view()),
            previous matches Some(was) ==> was.deep_view()
                == old(self).deep_view()[key.deep_view()],
    {
        let index: usize = self.position(&key);
        proof {
            use_type_invariant(&*self);
        }
        let ghost before = self.list@;
        let ghost entries = self.entries();
        let ghost (k, v) = (key.deep_view(), value.deep_view());
        if index < self.list.len() && self.list[index].0.same(&key) {
            proof {
                map_of_entry::<K, V::V>(entries, index as int);
                deep_update(before, index as int, (key, value));
                let after = entries.update(index as int, (k, v));
                assert(ascending::<K, V::V>(after));
                map_of_update::<K, V::V>(entries, index as int, v);
            }
            let mut list: Vec<(K, V)> = self.take_list();
            let mut slot: (K, V) = (key, value);
            std::mem::swap(&mut list[index], &mut slot);
            self.list = list;
            Some(slot.1)
        } else {
            proof {
                absent_at::<K, V>(before, &key, index as int);
                deep_insert(before, index as int, (key, value));
                let after = entries.insert(index as int, (k, v));
                assert forall|i: int, j: int|
                    #![trigger after[i], after[j]]
                    0 <= i < j < after.len() implies K::before(after[i].0, after[j].0) by {
                    assert(i < index ==> after[i] == entries[i]);
                    assert(i > index ==> after[i] == entries[i - 1]);
                    assert(j < index ==> after[j] == entries[j]);
                    assert(j > index ==> after[j] == entries[j - 1]);
                    if i == index {
                        K::before_total(entries[j - 1].0, k);
                        if entries[j - 1].0 == k {
                            assert(has_key(entries, k));
                        }
                    }
                }
                map_of_insert::<K, V::V>(entries, index as int, k, v);
            }
            let mut list: Vec<(K, V)> = self.take_list();
            list.insert(index, (key, value));
            self.list = list;
            None
        }
    }

    /// Moves the entries out and leaves the empty map.
    fn take_list(&mut self) -> (list: Vec<(K, V)>)
        ensures
            list == old(self).list,
    {
        let mut taken: Self = OrderedMap::new();
        std::mem::swap(self, &mut taken);
        taken.list
    }

    /// Removes the entry at a position.
    pub fn remove_at(&mut self, index: usize) -> (removed: (K, V))
        requires
            index < old(self).entries().len(),
        ensures
            removed.0.deep_view() == old(self).entries()[index as int].0,
            removed.1.deep_view() == old(self).entries()[index as int].1,
            final(self).entries() == old(self).entries().remove(index as int),
            final(self).deep_view() == old(self).deep_view().remove(
                old(self).entries()[index as int].0,
            ),
    {
        proof {
            use_type_invariant(&*self);
            deep_remove(self.list@, index as int);
            let entries = self.entries();
            let after = entries.remove(index as int);
            assert forall|i: int, j: int|
                #![trigger after[i], after[j]]
                0 <= i < j < after.len() implies K::before(after[i].0, after[j].0) by {
                assert(after[i] == entries[if i < index { i } else { i + 1 }]);
                assert(after[j] == entries[if j < index { j } else { j + 1 }]);
            }
            map_of_remove::<K, V::V>(entries, index as int);
        }
        let mut list: Vec<(K, V)> = self.take_list();
        let removed: (K, V) = list.remove(index);
        self.list = list;
        removed
    }

    /// Removes a key and returns the value that was under it.
    pub fn remove(&mut self, key: &K) -> (removed: Option<V>)
        ensures
            final(self).deep_view() == old(self).deep_view().remove(key.deep_view()),
            removed is Some <==> old(self).deep_view().dom().contains(key.deep_view()),
            removed matches Some(was) ==> was.deep_view()
                == old(self).deep_view()[key.deep_view()],
    {
        match self.find(key) {
            Some(index) => Some(self.remove_at(index).1),
            None => {
                assert(self.deep_view().remove(key.deep_view()) =~= self.deep_view());
                None
            },
        }
    }
}

impl<K: OrderedKey, V: Value> Value for OrderedMap<K, V> {
    fn dup(&self) -> (copy: Self) {
        proof {
            use_type_invariant(self);
        }
        OrderedMap { list: self.list.dup() }
    }

    fn same(&self, other: &Self) -> (result: bool) {
        proof {
            use_type_invariant(self);
            use_type_invariant(other);
            if self.deep_view() == other.deep_view() {
                same_entries::<K, V::V>(self.entries(), other.entries());
            }
        }
        self.list.same(&other.list)
    }
}

/// A set of numbers: the keys of a map to nothing.
pub type IdSet = OrderedMap<u16, ()>;

/// A set of texts.
pub type TextSet = OrderedMap<String, ()>;

/// Sets with the same elements are the same map to nothing.
pub proof fn set_model_injective<A>(a: Map<A, ()>, b: Map<A, ()>)
    ensures
        (a == b) == (a.dom() == b.dom()),
{
    if a.dom() == b.dom() {
        assert(a =~= b);
    }
}

/// Whether two maps have a key in common.
pub fn keys_meet<K: OrderedKey, V: Value, W: Value>(
    a: &OrderedMap<K, V>,
    b: &OrderedMap<K, W>,
) -> (result: bool)
    ensures
        result == !a.deep_view().dom().disjoint(b.deep_view().dom()),
{
    let count: usize = a.len();
    let mut index: usize = 0;
    while index < count
        invariant
            index <= count == a.entries().len(),
            forall|i: int|
                0 <= i < index ==> !b.deep_view().dom().contains((#[trigger] a.entries()[i]).0),
        decreases count - index,
    {
        let key: &K = a.key_at(index);
        if b.contains_key(key) {
            return true;
        }
        index += 1;
    }
    proof {
        assert forall|key: K::V| a.deep_view().dom().contains(key) implies !(
        #[trigger] b.deep_view().dom().contains(key)) by {
            let i = key_index(a.entries(), key);
            assert(has_key(a.entries(), key));
            assert(a.entries()[i].0 == key);
        }
    }
    false
}

/// In ascending entries a position determines its key's value.
pub proof fn map_of_entry<K: OrderedKey, W>(entries: Seq<(K::V, W)>, index: int)
    requires
        ascending::<K, W>(entries),
        0 <= index < entries.len(),
    ensures
        map_of(entries).dom().contains(entries[index].0),
        map_of(entries)[entries[index].0] == entries[index].1,
        key_index(entries, entries[index].0) == index,
{
    let key = entries[index].0;
    assert(entries[index].0 == key);
    assert(has_key(entries, key));
    let found = key_index(entries, key);
    K::before_irreflexive(key);
    assert(found == index) by {
        if found < index {
            assert(K::before(entries[found].0, entries[index].0));
        } else if index < found {
            assert(K::before(entries[index].0, entries[found].0));
        }
    }
}

/// A map has as many keys as its ascending entries have positions.
pub proof fn map_of_len<K: OrderedKey, W>(entries: Seq<(K::V, W)>)
    requires
        ascending::<K, W>(entries),
    ensures
        map_of(entries).dom().finite(),
        map_of(entries).len() == entries.len(),
    decreases entries.len(),
{
    if entries.len() == 0 {
        assert(map_of(entries) =~= Map::<K::V, W>::empty());
    } else {
        let last = entries.len() - 1;
        let front = entries.remove(last);
        map_of_remove::<K, W>(entries, last);
        assert forall|i: int, j: int|
            #![trigger front[i], front[j]]
            0 <= i < j < front.len() implies K::before(front[i].0, front[j].0) by {
            assert(front[i] == entries[i] && front[j] == entries[j]);
        }
        map_of_len::<K, W>(front);
        map_of_entry::<K, W>(entries, last);
        assert(map_of(entries).dom() =~= map_of(front).dom().insert(entries[last].0));
    }
}

proof fn map_of_update<K: OrderedKey, W>(entries: Seq<(K::V, W)>, index: int, value: W)
    requires
        ascending::<K, W>(entries),
        0 <= index < entries.len(),
    ensures
        map_of(entries.update(index, (entries[index].0, value))) == map_of(entries).insert(
            entries[index].0,
            value,
        ),
{
    let after = entries.update(index, (entries[index].0, value));
    assert(ascending::<K, W>(after));
    assert forall|key: K::V| has_key(after, key) == has_key(entries, key) by {
        if has_key(entries, key) {
            let i = key_index(entries, key);
            assert(after[i].0 == key);
        }
        if has_key(after, key) {
            let i = key_index(after, key);
            assert(entries[i].0 == key);
        }
    }
    map_of_entry::<K, W>(entries, index);
    assert(map_of(after) =~= map_of(entries).insert(entries[index].0, value)) by {
        assert forall|key: K::V| has_key(after, key) implies map_of(after)[key]
            == map_of(entries).insert(entries[index].0, value)[key] by {
            let i = key_index(after, key);
            map_of_entry::<K, W>(after, i);
            map_of_entry::<K, W>(entries, i);
        }
    }
}

pub proof fn map_of_insert<K: OrderedKey, W>(
    entries: Seq<(K::V, W)>,
    index: int,
    key: K::V,
    value: W,
)
    requires
        ascending::<K, W>(entries),
        ascending::<K, W>(entries.insert(index, (key, value))),
        0 <= index <= entries.len(),
        !has_key(entries, key),
    ensures
        map_of(entries.insert(index, (key, value))) == map_of(entries).insert(key, value),
{
    let after = entries.insert(index, (key, value));
    assert(after[index] == (key, value));
    map_of_entry::<K, W>(after, index);
    assert(map_of(after) =~= map_of(entries).insert(key, value)) by {
        assert forall|k: K::V| #[trigger] has_key(after, k) == (
            has_key(entries, k) || k == key
        ) by {
            if has_key(entries, k) {
                let i = key_index(entries, k);
                assert(after[if i < index { i } else { i + 1 }] == entries[i]);
            }
            if has_key(after, k) && k != key {
                let i = key_index(after, k);
                assert(after[i] == entries[if i < index { i } else { i - 1 }]);
            }
        }
        assert forall|k: K::V| #[trigger] has_key(entries, k) && k != key implies map_of(after)[k]
            == map_of(entries)[k] by {
            let i = key_index(entries, k);
            let j = if i < index { i } else { i + 1 };
            assert(after[j] == entries[i]);
            map_of_entry::<K, W>(after, j);
            map_of_entry::<K, W>(entries, i);
        }
    }
}

pub proof fn map_of_remove<K: OrderedKey, W>(entries: Seq<(K::V, W)>, index: int)
    requires
        ascending::<K, W>(entries),
        0 <= index < entries.len(),
    ensures
        map_of(entries.remove(index)) == map_of(entries).remove(entries[index].0),
{
    let after = entries.remove(index);
    let gone = entries[index].0;
    assert forall|i: int, j: int|
        #![trigger after[i], after[j]]
        0 <= i < j < after.len() implies K::before(after[i].0, after[j].0) by {
        assert(after[i] == entries[if i < index { i } else { i + 1 }]);
        assert(after[j] == entries[if j < index { j } else { j + 1 }]);
    }
    map_of_entry::<K, W>(entries, index);
    assert(map_of(after) =~= map_of(entries).remove(gone)) by {
        assert forall|k: K::V| #[trigger] has_key(after, k) == (
            has_key(entries, k) && k != gone
        ) by {
            if has_key(after, k) {
                let i = key_index(after, k);
                let j = if i < index { i } else { i + 1 };
                assert(after[i] == entries[j]);
                map_of_entry::<K, W>(entries, j);
            }
            if has_key(entries, k) && k != gone {
                let j = key_index(entries, k);
                let i = if j < index { j } else { j - 1 };
                assert(after[i] == entries[j]);
            }
        }
        assert forall|k: K::V| #[trigger] has_key(after, k) implies map_of(after)[k]
            == map_of(entries)[k] by {
            let i = key_index(after, k);
            let j = if i < index { i } else { i + 1 };
            assert(after[i] == entries[j]);
            map_of_entry::<K, W>(after, i);
            map_of_entry::<K, W>(entries, j);
        }
    }
}

/// Two ascending entry sequences of the same map are the same sequence.
pub proof fn same_entries<K: OrderedKey, W>(a: Seq<(K::V, W)>, b: Seq<(K::V, W)>)
    requires
        ascending::<K, W>(a),
        ascending::<K, W>(b),
        map_of(a) == map_of(b),
    ensures
        a == b,
    decreases a.len(),
{
    map_of_len::<K, W>(a);
    map_of_len::<K, W>(b);
    if a.len() == 0 {
        assert(a =~= b);
    } else {
        let last = a.len() - 1;
        map_of_entry::<K, W>(a, last);
        map_of_entry::<K, W>(b, last);
        let i = key_index(b, a[last].0);
        let j = key_index(a, b[last].0);
        assert(has_key(b, a[last].0));
        assert(has_key(a, b[last].0));
        assert(i == last) by {
            if i < last {
                assert(K::before(b[i].0, b[last].0));
                K::before_irreflexive(a[last].0);
                if j < last {
                    assert(K::before(a[j].0, a[last].0));
                    K::before_transitive(a[last].0, b[last].0, a[last].0);
                }
            }
        }
        assert(a[last].1 == map_of(b)[b[last].0]);
        let front_a = a.remove(last);
        let front_b = b.remove(last);
        map_of_remove::<K, W>(a, last);
        map_of_remove::<K, W>(b, last);
        assert forall|i: int, j: int|
            #![trigger front_a[i], front_a[j]]
            0 <= i < j < front_a.len() implies K::before(front_a[i].0, front_a[j].0) by {
            assert(front_a[i] == a[i] && front_a[j] == a[j]);
        }
        assert forall|i: int, j: int|
            #![trigger front_b[i], front_b[j]]
            0 <= i < j < front_b.len() implies K::before(front_b[i].0, front_b[j].0) by {
            assert(front_b[i] == b[i] && front_b[j] == b[j]);
        }
        same_entries::<K, W>(front_a, front_b);
        assert(a =~= front_a.push(a[last]));
        assert(b =~= front_b.push(b[last]));
    }
}

/// Ascending entries are the entries of their map.
pub proof fn entries_of_entries<K: OrderedKey, W>(entries: Seq<(K::V, W)>)
    requires
        ascending::<K, W>(entries),
    ensures
        entries_of::<K, W>(map_of(entries)) == entries,
{
    same_entries::<K, W>(entries_of::<K, W>(map_of(entries)), entries);
}

/// A key of a map has its entry.
pub proof fn key_has_entry<A, B>(entries: Seq<(A, B)>, key: A)
    requires
        map_of(entries).dom().contains(key),
    ensures
        0 <= key_index(entries, key) < entries.len(),
        entries[key_index(entries, key)] == (key, map_of(entries)[key]),
{
    assert(has_key(entries, key));
}

/// A key with no entry at its position is absent.
proof fn absent_at<K: OrderedKey, V: Value>(list: Seq<(K, V)>, key: &K, index: int)
    requires
        ascending::<K, V::V>(deep(list)),
        0 <= index <= list.len(),
        forall|i: int|
            0 <= i < index ==> K::before((#[trigger] deep(list)[i]).0, key.deep_view()),
        forall|i: int|
            index <= i < list.len() ==> !K::before((#[trigger] deep(list)[i]).0, key.deep_view()),
        index < list.len() ==> list[index].0.deep_view() != key.deep_view(),
    ensures
        !has_key(deep(list), key.deep_view()),
{
    let entries = deep(list);
    let k = key.deep_view();
    K::before_irreflexive(k);
    if has_key(entries, k) {
        let i = key_index(entries, k);
        assert(i >= index);
        assert(entries[index].0 == list[index].0.deep_view());
        assert(i != index);
        assert(K::before(entries[index].0, entries[i].0));
    }
}

/// The deep view of a sequence of entries.
pub open spec fn deep<T: DeepView>(list: Seq<T>) -> Seq<T::V> {
    Seq::new(list.len(), |i: int| list[i].deep_view())
}

proof fn deep_update<T: DeepView>(list: Seq<T>, index: int, item: T)
    requires
        0 <= index < list.len(),
    ensures
        deep(list.update(index, item)) == deep(list).update(index, item.deep_view()),
{
    assert(deep(list.update(index, item)) =~= deep(list).update(index, item.deep_view()));
}

proof fn deep_insert<T: DeepView>(list: Seq<T>, index: int, item: T)
    requires
        0 <= index <= list.len(),
    ensures
        deep(list.insert(index, item)) == deep(list).insert(index, item.deep_view()),
{
    assert(deep(list.insert(index, item)) =~= deep(list).insert(index, item.deep_view()));
}

proof fn deep_remove<T: DeepView>(list: Seq<T>, index: int)
    requires
        0 <= index < list.len(),
    ensures
        deep(list.remove(index)) == deep(list).remove(index),
{
    assert(deep(list.remove(index)) =~= deep(list).remove(index));
}

/// The entries of a map can be listed with one entry more.
pub proof fn entries_insert<K: OrderedKey, W>(entries: Seq<(K::V, W)>, key: K::V, value: W) -> (
    result: Seq<(K::V, W)>)
    requires
        ascending::<K, W>(entries),
    ensures
        ascending::<K, W>(result),
        map_of(result) == map_of(entries).insert(key, value),
    decreases entries.len(),
{
    if entries.len() == 0 {
        let result = seq![(key, value)];
        assert(entries.insert(0, (key, value)) =~= result);
        map_of_insert::<K, W>(entries, 0, key, value);
        result
    } else {
        let last = entries.len() - 1;
        let front = entries.drop_last();
        let end = entries[last];
        assert(front.insert(last, (end.0, end.1)) =~= entries);
        assert forall|i: int, j: int|
            #![trigger front[i], front[j]]
            0 <= i < j < front.len() implies K::before(front[i].0, front[j].0) by {
            assert(front[i] == entries[i] && front[j] == entries[j]);
        }
        if has_key(front, end.0) {
            let i = key_index(front, end.0);
            assert(K::before(entries[i].0, entries[last].0));
            K::before_irreflexive(end.0);
        }
        map_of_insert::<K, W>(front, last, end.0, end.1);
        K::before_total(key, end.0);
        if K::before(end.0, key) {
            let result = entries.push((key, value));
            assert forall|i: int, j: int|
                #![trigger result[i], result[j]]
                0 <= i < j < result.len() implies K::before(result[i].0, result[j].0) by {
                if j == result.len() - 1 && i < last {
                    assert(K::before(entries[i].0, entries[last].0));
                    K::before_transitive(entries[i].0, end.0, key);
                } else if j < result.len() - 1 {
                    assert(K::before(entries[i].0, entries[j].0));
                }
            }
            if has_key(entries, key) {
                let i = key_index(entries, key);
                K::before_irreflexive(key);
                assert(K::before(result[i].0, result[last + 1].0));
            }
            assert(entries.insert(last + 1, (key, value)) =~= result);
            map_of_insert::<K, W>(entries, last + 1, key, value);
            result
        } else if key == end.0 {
            let result = front.push((key, value));
            assert(front.insert(last, (key, value)) =~= result);
            assert forall|i: int, j: int|
                #![trigger result[i], result[j]]
                0 <= i < j < result.len() implies K::before(result[i].0, result[j].0) by {
                assert(K::before(entries[i].0, entries[j].0));
            }
            map_of_insert::<K, W>(front, last, key, value);
            assert(map_of(result) =~= map_of(entries).insert(key, value));
            result
        } else {
            let less = entries_insert::<K, W>(front, key, value);
            let result = less.push(end);
            assert forall|i: int, j: int|
                #![trigger result[i], result[j]]
                0 <= i < j < result.len() implies K::before(result[i].0, result[j].0) by {
                if j == result.len() - 1 {
                    map_of_entry::<K, W>(less, i);
                    if less[i].0 != key {
                        key_has_entry(front, less[i].0);
                        let k = key_index(front, less[i].0);
                        assert(K::before(entries[k].0, entries[last].0));
                    }
                } else {
                    assert(K::before(less[i].0, less[j].0));
                }
            }
            if has_key(less, end.0) {
                let i = key_index(less, end.0);
                K::before_irreflexive(end.0);
                assert(K::before(result[i].0, result[less.len() as int].0));
            }
            assert(less.insert(less.len() as int, (end.0, end.1)) =~= result);
            map_of_insert::<K, W>(less, less.len() as int, end.0, end.1);
            K::before_irreflexive(key);
            assert(map_of(result) =~= map_of(entries).insert(key, value));
            result
        }
    }
}

/// A map whose entries are listed and one entry more.
pub proof fn listed_insert<K: OrderedKey, W>(map: Map<K::V, W>, key: K::V, value: W)
    requires
        listed::<K, W>(map),
    ensures
        listed::<K, W>(map.insert(key, value)),
{
    let result = entries_insert::<K, W>(entries_of::<K, W>(map), key, value);
    assert(ascending::<K, W>(result) && map_of(result) == map.insert(key, value));
}

/// The empty map is listed.
pub proof fn listed_empty<K: OrderedKey, W>()
    ensures
        listed::<K, W>(Map::<K::V, W>::empty()),
{
    let none = Seq::<(K::V, W)>::empty();
    assert(map_of(none) =~= Map::<K::V, W>::empty());
    assert(ascending::<K, W>(none) && map_of(none) == Map::<K::V, W>::empty());
}

/// A map on some of the keys of a listed map is listed.
pub proof fn listed_part<K: OrderedKey, W>(map: Map<K::V, W>, part: Map<K::V, W>)
    requires
        listed::<K, W>(map),
        part.dom().subset_of(map.dom()),
    ensures
        listed::<K, W>(part),
{
    listed_part_of::<K, W>(entries_of::<K, W>(map), part);
}

proof fn listed_part_of<K: OrderedKey, W>(entries: Seq<(K::V, W)>, part: Map<K::V, W>)
    requires
        ascending::<K, W>(entries),
        part.dom().subset_of(map_of(entries).dom()),
    ensures
        listed::<K, W>(part),
    decreases entries.len(),
{
    if entries.len() == 0 {
        assert(part =~= Map::<K::V, W>::empty());
        listed_empty::<K, W>();
    } else {
        let last = entries.len() - 1;
        let front = entries.drop_last();
        let key = entries[last].0;
        assert forall|i: int, j: int|
            #![trigger front[i], front[j]]
            0 <= i < j < front.len() implies K::before(front[i].0, front[j].0) by {
            assert(front[i] == entries[i] && front[j] == entries[j]);
        }
        let less = part.remove(key);
        assert forall|other: K::V| #[trigger] less.dom().contains(other) implies map_of(
            front,
        ).dom().contains(other) by {
            key_has_entry(entries, other);
            let i = key_index(entries, other);
            assert(front[i].0 == other);
        }
        listed_part_of::<K, W>(front, less);
        if part.dom().contains(key) {
            listed_insert::<K, W>(less, key, part[key]);
            assert(less.insert(key, part[key]) =~= part);
        } else {
            assert(less =~= part);
        }
    }
}

/// The entries before a position and the one at it make up the entries before the next.
pub proof fn map_prefix<K: OrderedKey, W>(entries: Seq<(K::V, W)>, count: int)
    requires
        ascending::<K, W>(entries),
        0 <= count < entries.len(),
    ensures
        map_of(entries.take(count + 1)) == map_of(entries.take(count)).insert(
            entries[count].0,
            entries[count].1,
        ),
{
    let before = entries.take(count);
    let after = entries.take(count + 1);
    assert(after =~= before.insert(count, entries[count]));
    assert forall|i: int, j: int|
        #![trigger before[i], before[j]]
        0 <= i < j < before.len() implies K::before(before[i].0, before[j].0) by {
        assert(K::before(entries[i].0, entries[j].0));
    }
    assert forall|i: int, j: int|
        #![trigger after[i], after[j]]
        0 <= i < j < after.len() implies K::before(after[i].0, after[j].0) by {
        assert(K::before(entries[i].0, entries[j].0));
    }
    assert(!has_key(before, entries[count].0)) by {
        if has_key(before, entries[count].0) {
            let i = key_index(before, entries[count].0);
            assert(K::before(entries[i].0, entries[count].0));
            K::before_irreflexive(entries[count].0);
        }
    }
    map_of_insert::<K, W>(before, count, entries[count].0, entries[count].1);
}

} // verus!
