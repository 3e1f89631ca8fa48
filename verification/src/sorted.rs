//! Maps and sets of texts, kept in ascending order of their keys.
//!
//! Keys are ordered as `str` is: by the first character in which they differ,
//! a proper prefix coming first. The model of a map is a [`Map`] from texts,
//! that of a set a [`Set`] of texts; [`ascending`] gives the order in which
//! either is walked.

use vstd::prelude::*;

use crate::text::{self, chars_of};

verus! {

/// `left` comes strictly before `right`.
pub open spec fn precedes(left: Seq<char>, right: Seq<char>) -> bool
    decreases left.len(),
{
    if right.len() == 0 {
        false
    } else if left.len() == 0 {
        true
    } else if left[0] == right[0] {
        precedes(left.drop_first(), right.drop_first())
    } else {
        left[0] < right[0]
    }
}

/// Every text comes strictly before all that follow it.
pub open spec fn is_ascending(texts: Seq<Seq<char>>) -> bool {
    forall|i: int, j: int|
        0 <= i < j < texts.len() ==> precedes(#[trigger] texts[i], #[trigger] texts[j])
}

/// The members of `set` in ascending order.
pub open spec fn ascending(set: Set<Seq<char>>) -> Seq<Seq<char>> {
    choose|texts: Seq<Seq<char>>| is_ascending(texts) && #[trigger] texts.to_set() == set
}

/// No text comes before itself.
pub proof fn lemma_precedes_irreflexive(text: Seq<char>)
    ensures
        !precedes(text, text),
    decreases text.len(),
{
    if text.len() > 0 {
        lemma_precedes_irreflexive(text.drop_first());
    }
}

/// The order is transitive.
pub proof fn lemma_precedes_transitive(a: Seq<char>, b: Seq<char>, c: Seq<char>)
    requires
        precedes(a, b),
        precedes(b, c),
    ensures
        precedes(a, c),
    decreases a.len(),
{
    if a.len() > 0 && a[0] == b[0] && b[0] == c[0] {
        lemma_precedes_transitive(a.drop_first(), b.drop_first(), c.drop_first());
    }
}

/// Of two texts, one comes first or they are equal.
pub proof fn lemma_precedes_total(a: Seq<char>, b: Seq<char>)
    ensures
        precedes(a, b) || precedes(b, a) || a == b,
    decreases a.len(),
{
    if a.len() > 0 && b.len() > 0 && a[0] == b[0] {
        lemma_precedes_total(a.drop_first(), b.drop_first());
        if a.drop_first() == b.drop_first() {
            assert(a == seq![a[0]] + a.drop_first());
            assert(b == seq![b[0]] + b.drop_first());
        }
    } else if a.len() == 0 && b.len() == 0 {
        assert(a == b);
    }
}

/// A key of an ascending list does not occur before its place.
pub proof fn lemma_ascending_distinct(list: Seq<Seq<char>>, at: int)
    requires
        is_ascending(list),
        0 <= at < list.len(),
    ensures
        !list.take(at).contains(list[at]),
{
    lemma_precedes_irreflexive(list[at]);
    if list.take(at).contains(list[at]) {
        let earlier = list.take(at).index_of(list[at]);
        assert(list[earlier] == list[at]);
        assert(precedes(list[earlier], list[at]));
    }
}

/// Two ascending lists of the same texts are the same list.
pub proof fn lemma_ascending_unique(left: Seq<Seq<char>>, right: Seq<Seq<char>>)
    requires
        is_ascending(left),
        is_ascending(right),
        left.to_set() == right.to_set(),
    ensures
        left == right,
    decreases left.len(),
{
    if left.len() == 0 {
        if right.len() > 0 {
            assert(right.to_set().contains(right[0]));
            assert(left.contains(right[0]));
        }
        assert(left == right);
    } else {
        assert(left.to_set().contains(left[0]));
        assert(right.contains(left[0]));
        assert(right.to_set().contains(right[0]));
        assert(left.contains(right[0]));
        let i = choose|i: int| 0 <= i < right.len() && right[i] == left[0];
        let j = choose|j: int| 0 <= j < left.len() && left[j] == right[0];
        if i > 0 && j > 0 {
            lemma_precedes_transitive(left[0], left[j], left[0]);
            lemma_precedes_irreflexive(left[0]);
        }
        assert(left[0] == right[0]);
        let l = left.drop_first();
        let r = right.drop_first();
        assert forall|i: int, j: int| 0 <= i < j < l.len() implies precedes(
            #[trigger] l[i],
            #[trigger] l[j],
        ) by {
            assert(precedes(left[i + 1], left[j + 1]));
        }
        assert forall|i: int, j: int| 0 <= i < j < r.len() implies precedes(
            #[trigger] r[i],
            #[trigger] r[j],
        ) by {
            assert(precedes(right[i + 1], right[j + 1]));
        }
        assert forall|t: Seq<char>| l.to_set().contains(t) == r.to_set().contains(t) by {
            lemma_precedes_irreflexive(t);
            if l.contains(t) {
                let k = choose|k: int| 0 <= k < l.len() && l[k] == t;
                assert(left[k + 1] == t);
                assert(precedes(left[0], left[k + 1]));
                assert(left.to_set().contains(t));
                assert(right.contains(t));
                let m = choose|m: int| 0 <= m < right.len() && right[m] == t;
                assert(m != 0);
                assert(r[m - 1] == t);
            }
            if r.contains(t) {
                let k = choose|k: int| 0 <= k < r.len() && r[k] == t;
                assert(right[k + 1] == t);
                assert(precedes(right[0], right[k + 1]));
                assert(right.to_set().contains(t));
                assert(left.contains(t));
                let m = choose|m: int| 0 <= m < left.len() && left[m] == t;
                assert(m != 0);
                assert(l[m - 1] == t);
            }
        }
        assert(l.to_set() == r.to_set());
        lemma_ascending_unique(l, r);
        assert(left == seq![left[0]] + l);
        assert(right == seq![right[0]] + r);
    }
}

/// An ascending list is the ascending order of its own members.
pub proof fn lemma_ascending_is(texts: Seq<Seq<char>>)
    requires
        is_ascending(texts),
    ensures
        ascending(texts.to_set()) == texts,
{
    let chosen = ascending(texts.to_set());
    assert(is_ascending(chosen) && chosen.to_set() == texts.to_set());
    lemma_ascending_unique(chosen, texts);
}

/// `list` with `text` put in its place.
spec fn placed(list: Seq<Seq<char>>, text: Seq<char>) -> Seq<Seq<char>>
    decreases list.len(),
{
    if list.len() == 0 || precedes(text, list[0]) {
        seq![text] + list
    } else {
        seq![list[0]] + placed(list.drop_first(), text)
    }
}

proof fn lemma_placed(list: Seq<Seq<char>>, text: Seq<char>)
    requires
        is_ascending(list),
        !list.contains(text),
    ensures
        is_ascending(placed(list, text)),
        placed(list, text).to_set() == list.to_set().insert(text),
    decreases list.len(),
{
    let whole = placed(list, text);
    if list.len() == 0 || precedes(text, list[0]) {
        assert forall|i: int, j: int| 0 <= i < j < whole.len() implies precedes(
            #[trigger] whole[i],
            #[trigger] whole[j],
        ) by {
            assert(whole[j] == list[j - 1]);
            if i == 0 {
                if j > 1 {
                    assert(precedes(list[0], list[j - 1]));
                    lemma_precedes_transitive(text, list[0], list[j - 1]);
                }
            } else {
                assert(whole[i] == list[i - 1]);
                assert(precedes(list[i - 1], list[j - 1]));
            }
        }
        assert forall|t: Seq<char>| whole.contains(t) == (list.contains(t) || t == text) by {
            assert(whole[0] == text);
            if whole.contains(t) && t != text {
                let i = whole.index_of(t);
                assert(list[i - 1] == t);
            }
            if list.contains(t) {
                let i = list.index_of(t);
                assert(whole[i + 1] == t);
            }
        }
    } else {
        let rest = list.drop_first();
        assert(list.contains(list[0]));
        assert(!rest.contains(text)) by {
            if rest.contains(text) {
                let i = rest.index_of(text);
                assert(list[i + 1] == text);
            }
        }
        assert forall|i: int, j: int| 0 <= i < j < rest.len() implies precedes(
            #[trigger] rest[i],
            #[trigger] rest[j],
        ) by {
            assert(precedes(list[i + 1], list[j + 1]));
        }
        lemma_placed(rest, text);
        lemma_precedes_total(text, list[0]);
        let tail = placed(rest, text);
        assert forall|t: Seq<char>| tail.contains(t) implies #[trigger] precedes(list[0], t) by {
            assert(tail.to_set().contains(t));
            if t != text {
                assert(rest.to_set().contains(t));
                let i = rest.index_of(t);
                assert(precedes(list[0], list[i + 1]));
            }
        }
        assert forall|i: int, j: int| 0 <= i < j < whole.len() implies precedes(
            #[trigger] whole[i],
            #[trigger] whole[j],
        ) by {
            assert(whole[j] == tail[j - 1]);
            if i == 0 {
                assert(tail.contains(tail[j - 1]));
            } else {
                assert(whole[i] == tail[i - 1]);
                assert(precedes(tail[i - 1], tail[j - 1]));
            }
        }
        assert forall|t: Seq<char>| whole.contains(t) == (list.contains(t) || t == text) by {
            assert(tail.to_set().contains(t) == (rest.to_set().contains(t) || t == text));
            assert(whole[0] == list[0]);
            if whole.contains(t) && t != list[0] {
                let i = whole.index_of(t);
                assert(tail[i - 1] == t);
                if t != text {
                    let k = rest.index_of(t);
                    assert(list[k + 1] == t);
                }
            }
            if list.contains(t) && t != list[0] {
                let i = list.index_of(t);
                assert(rest[i - 1] == t);
                assert(tail.contains(t));
                assert(whole[tail.index_of(t) + 1] == t);
            }
            if t == text {
                assert(tail.contains(t));
                assert(whole[tail.index_of(t) + 1] == t);
            }
        }
    }
    assert(whole.to_set() =~= list.to_set().insert(text));
}

/// Every finite set of texts has an ascending list.
pub proof fn lemma_ascending_exists(set: Set<Seq<char>>)
    requires
        set.finite(),
    ensures
        is_ascending(ascending(set)),
        ascending(set).to_set() == set,
    decreases set.len(),
{
    if set.len() == 0 {
        let none = Seq::<Seq<char>>::empty();
        assert(set =~= none.to_set());
        assert(is_ascending(none) && none.to_set() == set);
    } else {
        let text = set.choose();
        let rest = set.remove(text);
        lemma_ascending_exists(rest);
        let list = ascending(rest);
        assert(!list.contains(text)) by {
            assert(!list.to_set().contains(text));
        }
        lemma_placed(list, text);
        assert(rest.insert(text) =~= set);
        let whole = placed(list, text);
        assert(is_ascending(whole) && whole.to_set() == set);
    }
}

/// How one text stands to another.
#[derive(Debug, Clone, Copy, PartialEq, Eq, Structural)]
pub enum Rank {
    /// Strictly before.
    Before,
    /// The same text.
    Same,
    /// Strictly after.
    After,
}

/// Places `left` relative to `right`.
pub fn rank(left: &str, right: &str) -> (result: Rank)
    ensures
        result == Rank::Before <==> precedes(left@, right@),
        result == Rank::Same <==> left@ == right@,
        result == Rank::After <==> precedes(right@, left@),
{
    let a = chars_of(left);
    let b = chars_of(right);
    let mut i: usize = 0;
    proof {
        lemma_precedes_irreflexive(left@);
        lemma_precedes_irreflexive(right@);
        assert(left@.skip(0) == left@);
        assert(right@.skip(0) == right@);
        if precedes(left@, right@) && precedes(right@, left@) {
            lemma_precedes_transitive(left@, right@, left@);
        }
        lemma_precedes_total(left@, right@);
    }
    while i < a.len() && i < b.len() && a[i] == b[i]
        invariant
            a@ == left@,
            b@ == right@,
            i <= a.len(),
            i <= b.len(),
            forall|j: int| 0 <= j < i ==> a@[j] == b@[j],
            precedes(left@, right@) == precedes(a@.skip(i as int), b@.skip(i as int)),
            precedes(right@, left@) == precedes(b@.skip(i as int), a@.skip(i as int)),
        decreases a.len() - i,
    {
        assert(a@.skip(i as int).drop_first() == a@.skip(i + 1));
        assert(b@.skip(i as int).drop_first() == b@.skip(i + 1));
        i += 1;
    }
    if i == a.len() {
        if i == b.len() {
            assert(a@ =~= b@);
            Rank::Same
        } else {
            Rank::Before
        }
    } else if i == b.len() {
        Rank::After
    } else if a[i] < b[i] {
        Rank::Before
    } else {
        Rank::After
    }
}

/// A map from texts, walked in ascending order of its keys.
#[derive(Debug, PartialEq, Eq)]
pub struct SortedMap<V> {
    keys: Vec<String>,
    values: Vec<V>,
}

impl<V> View for SortedMap<V> {
    type V = Map<Seq<char>, V>;

    closed spec fn view(&self) -> Map<Seq<char>, V> {
        Map::new(
            |key: Seq<char>| self.keys.deep_view().contains(key),
            |key: Seq<char>| self.values@[self.keys.deep_view().index_of(key)],
        )
    }
}

impl<V: DeepView> DeepView for SortedMap<V> {
    type V = Map<Seq<char>, V::V>;

    open spec fn deep_view(&self) -> Map<Seq<char>, V::V> {
        Map::new(|key: Seq<char>| self@.contains_key(key), |key: Seq<char>| self@[key].deep_view())
    }
}

impl<V: Clone> Clone for SortedMap<V> {
    fn clone(&self) -> (result: Self)
        ensures
            result@.dom() == self@.dom(),
            forall|key: Seq<char>| #[trigger]
                self@.contains_key(key) ==> cloned::<V>(self@[key], result@[key]),
    {
        proof {
            use_type_invariant(self);
            self.lemma_shape();
        }
        let keys = self.keys.clone();
        let values = self.values.clone();
        assert(keys.deep_view() =~= self.keys.deep_view());
        let result = SortedMap { keys, values };
        proof {
            result.lemma_shape();
            assert forall|key: Seq<char>| #[trigger] self@.contains_key(key) implies cloned::<V>(
                self@[key],
                result@[key],
            ) by {
                let i = self.keys.deep_view().index_of(key);
                assert(self.keys.deep_view().contains(key));
                assert(self.keys@[i]@ == key && result.keys@[i]@ == key);
                assert(self.holds(i) && result.holds(i));
                assert(cloned::<V>(self.values@[i], result.values@[i]));
            }
        }
        result
    }
}

impl<V> SortedMap<V> {
    #[verifier::type_invariant]
    closed spec fn in_order(self) -> bool {
        &&& self.keys.len() == self.values.len()
        &&& is_ascending(self.keys.deep_view())
    }

    /// The keys in ascending order.
    pub open spec fn order(self) -> Seq<Seq<char>> {
        ascending(self@.dom())
    }

    proof fn lemma_shape(self)
        requires
            self.in_order(),
        ensures
            self.order() == self.keys.deep_view(),
            self@.dom() == self.keys.deep_view().to_set(),
            forall|i: int| 0 <= i < self.keys.len() ==> self.holds(i),
    {
        let keys = self.keys.deep_view();
        assert(self@.dom() =~= keys.to_set());
        lemma_ascending_is(keys);
        assert forall|i: int| 0 <= i < self.keys.len() implies self.holds(i) by {
            let key = self.keys@[i]@;
            assert(keys[i] == key);
            let found = keys.index_of(key);
            assert(0 <= found < keys.len() && keys[found] == key);
            lemma_precedes_irreflexive(key);
            if found < i {
                assert(precedes(keys[found], keys[i]));
            } else if i < found {
                assert(precedes(keys[i], keys[found]));
            }
        }
    }

    /// The entry at position `i` is an entry of the map.
    closed spec fn holds(self, i: int) -> bool {
        self@.contains_key(self.keys@[i]@) && self@[self.keys@[i]@] == self.values@[i]
    }

    /// An empty map.
    pub fn new() -> (result: Self)
        ensures
            result@ == Map::<Seq<char>, V>::empty(),
    {
        let result = SortedMap { keys: Vec::new(), values: Vec::new() };
        assert(result@ =~= Map::<Seq<char>, V>::empty());
        result
    }

    /// Number of entries.
    pub fn len(&self) -> (result: usize)
        ensures
            result == self.order().len(),
            is_ascending(self.order()),
            self.order().to_set() == self@.dom(),
    {
        proof {
            use_type_invariant(self);
            self.lemma_shape();
        }
        self.keys.len()
    }

    /// Whether there is no entry.
    pub fn is_empty(&self) -> (result: bool)
        ensures
            result == (self.order().len() == 0),
            result == (self@ == Map::<Seq<char>, V>::empty()),
    {
        proof {
            use_type_invariant(self);
            self.lemma_shape();
            if self.keys.len() == 0 {
                assert(self@ =~= Map::<Seq<char>, V>::empty());
            } else {
                assert(self.holds(0));
            }
        }
        self.keys.len() == 0
    }

    /// The key at position `i` of the order.
    pub fn key_at(&self, i: usize) -> (result: &String)
        requires
            i < self.order().len(),
        ensures
            result@ == self.order()[i as int],
            self@.contains_key(result@),
    {
        proof {
            use_type_invariant(self);
            self.lemma_shape();
            assert(self.holds(i as int));
        }
        &self.keys[i]
    }

    /// The value at position `i` of the order.
    pub fn value_at(&self, i: usize) -> (result: &V)
        requires
            i < self.order().len(),
        ensures
            self@.contains_key(self.order()[i as int]),
            *result == self@[self.order()[i as int]],
    {
        proof {
            use_type_invariant(self);
            self.lemma_shape();
            assert(self.holds(i as int));
        }
        &self.values[i]
    }

    /// The position of the first key that does not come before `key`, and
    /// whether it is `key`.
    fn find(&self, key: &str) -> (result: (usize, bool))
        ensures
            self.in_order(),
            result.0 <= self.keys.len(),
            forall|i: int| 0 <= i < result.0 ==> precedes(#[trigger] self.keys.deep_view()[i], key@),
            result.1 ==> result.0 < self.keys.len() && self.keys.deep_view()[result.0 as int] == key@,
            !result.1 ==> forall|i: int|
                result.0 <= i < self.keys.len() ==> precedes(key@, #[trigger] self.keys.deep_view()[i]),
            result.1 == self@.contains_key(key@),
    {
        proof {
            use_type_invariant(self);
            self.lemma_shape();
            lemma_precedes_irreflexive(key@);
        }
        let ghost keys = self.keys.deep_view();
        let mut at: usize = 0;
        while at < self.keys.len()
            invariant
                keys == self.keys.deep_view(),
                is_ascending(keys),
                self.in_order(),
                self@.dom() == keys.to_set(),
                at <= self.keys.len(),
                !precedes(key@, key@),
                forall|i: int| 0 <= i < at ==> precedes(#[trigger] keys[i], key@),
            decreases self.keys.len() - at,
        {
            let place = rank(self.keys[at].as_str(), key);
            assert(keys[at as int] == self.keys@[at as int]@);
            match place {
                Rank::Before => {
                    at += 1;
                },
                Rank::Same => {
                    assert(keys.contains(key@));
                    return (at, true);
                },
                Rank::After => {
                    assert forall|i: int| at <= i < keys.len() implies precedes(
                        key@,
                        #[trigger] keys[i],
                    ) by {
                        if at < i {
                            assert(precedes(keys[at as int], keys[i]));
                            lemma_precedes_transitive(key@, keys[at as int], keys[i]);
                        }
                    }
                    return (at, false);
                },
            }
        }
        (at, false)
    }

    /// Whether `key` has an entry.
    pub fn contains_key(&self, key: &str) -> (result: bool)
        ensures
            result == self@.contains_key(key@),
    {
        self.find(key).1
    }

    /// The value of `key`.
    pub fn get(&self, key: &str) -> (result: Option<&V>)
        ensures
            match result {
                Some(value) => self@.contains_key(key@) && *value == self@[key@],
                None => !self@.contains_key(key@),
            },
    {
        let (at, found) = self.find(key);
        if found {
            proof {
                self.lemma_shape();
                assert(self.keys@[at as int]@ == key@);
                assert(self.holds(at as int));
            }
            Some(&self.values[at])
        } else {
            None
        }
    }

    /// Sets the value of `key`.
    pub fn insert(&mut self, key: String, value: V)
        ensures
            final(self)@ == old(self)@.insert(key@, value),
    {
        let ghost before = *self;
        let (at, found) = self.find(key.as_str());
        let ghost keys = self.keys.deep_view();
        proof {
            self.lemma_shape();
            lemma_precedes_irreflexive(key@);
        }
        let mut new_keys: Vec<String> = Vec::new();
        let mut new_values: Vec<V> = Vec::new();
        let mut held = SortedMap { keys: new_keys, values: new_values };
        std::mem::swap(&mut held, self);
        let SortedMap { keys: mut new_keys, values: mut new_values } = held;
        if found {
            new_values.set(at, value);
            *self = SortedMap { keys: new_keys, values: new_values };
            proof {
                self.lemma_shape();
                assert(self@ =~= before@.insert(key@, value)) by {
                    assert forall|k: Seq<char>| self@.contains_key(k) implies #[trigger] self@[k]
                        == before@.insert(key@, value)[k] by {
                        let i = keys.index_of(k);
                        assert(keys.contains(k));
                        assert(self.keys@[i]@ == k);
                        assert(before.keys@[i]@ == k);
                        assert(before.holds(i));
                        assert(self.holds(i));
                        if i != at {
                            if i < at {
                                assert(precedes(keys[i], keys[at as int]));
                            } else {
                                assert(precedes(keys[at as int], keys[i]));
                            }
                        }
                    }
                }
            }
        } else {
            let ghost key_text = key@;
            new_keys.insert(at, key);
            new_values.insert(at, value);
            proof {
                let grown = new_keys.deep_view();
                assert(grown =~= keys.insert(at as int, key_text));
                assert forall|i: int, j: int| 0 <= i < j < grown.len() implies precedes(
                    #[trigger] grown[i],
                    #[trigger] grown[j],
                ) by {
                    let oi = if i < at { i } else { i - 1 };
                    let oj = if j < at { j } else { j - 1 };
                    if i == at {
                        assert(grown[j] == keys[j - 1]);
                    } else if j == at {
                        assert(grown[i] == keys[i]);
                    } else {
                        assert(precedes(keys[oi], keys[oj]));
                    }
                }
            }
            *self = SortedMap { keys: new_keys, values: new_values };
            proof {
                self.lemma_shape();
                let grown = self.keys.deep_view();
                assert(grown[at as int] == key_text);
                assert(self@ =~= before@.insert(key_text, value)) by {
                    assert forall|k: Seq<char>|
                        self@.contains_key(k) == before@.insert(key_text, value).contains_key(k) by {
                        if keys.contains(k) {
                            let i = keys.index_of(k);
                            let g = if i < at { i } else { i + 1 };
                            assert(grown[g] == k);
                        }
                        if grown.contains(k) && k != key_text {
                            let g = grown.index_of(k);
                            let i = if g < at { g } else { g - 1 };
                            assert(keys[i] == k);
                        }
                    }
                    assert forall|k: Seq<char>| self@.contains_key(k) implies #[trigger] self@[k]
                        == before@.insert(key_text, value)[k] by {
                        if k == key_text {
                            assert(self.keys@[at as int]@ == k);
                            assert(self.holds(at as int));
                        } else {
                            assert(before@.contains_key(k));
                            let i = keys.index_of(k);
                            assert(keys.contains(k));
                            assert(before.keys@[i]@ == k);
                            assert(before.holds(i));
                            let g = if i < at { i } else { i + 1 };
                            assert(self.keys@[g]@ == k);
                            assert(self.holds(g));
                            assert(self.values@[g] == before.values@[i]);
                        }
                    }
                }
            }
        }
    }

    /// Removes the entry of `key` and returns its value.
    pub fn remove(&mut self, key: &str) -> (result: Option<V>)
        ensures
            final(self)@ == old(self)@.remove(key@),
            match result {
                Some(value) => old(self)@.contains_key(key@) && value == old(self)@[key@],
                None => !old(self)@.contains_key(key@),
            },
    {
        let ghost before = *self;
        let (at, found) = self.find(key);
        let ghost keys = self.keys.deep_view();
        proof {
            self.lemma_shape();
            lemma_precedes_irreflexive(key@);
        }
        if !found {
            assert(self@ =~= before@.remove(key@));
            return None;
        }
        let mut held = SortedMap { keys: Vec::new(), values: Vec::new() };
        std::mem::swap(&mut held, self);
        let SortedMap { keys: mut new_keys, values: mut new_values } = held;
        new_keys.remove(at);
        let value = new_values.remove(at);
        proof {
            let shrunk = new_keys.deep_view();
            assert(shrunk =~= keys.remove(at as int));
            assert(before.keys@[at as int]@ == key@);
            assert(before.holds(at as int));
            assert forall|i: int, j: int| 0 <= i < j < shrunk.len() implies precedes(
                #[trigger] shrunk[i],
                #[trigger] shrunk[j],
            ) by {
                let oi = if i < at { i } else { i + 1 };
                let oj = if j < at { j } else { j + 1 };
                assert(precedes(keys[oi], keys[oj]));
            }
        }
        *self = SortedMap { keys: new_keys, values: new_values };
        proof {
            self.lemma_shape();
            let shrunk = self.keys.deep_view();
            assert(self@ =~= before@.remove(key@)) by {
                assert forall|k: Seq<char>|
                    self@.contains_key(k) == before@.remove(key@).contains_key(k) by {
                    if shrunk.contains(k) {
                        let g = shrunk.index_of(k);
                        let i = if g < at { g } else { g + 1 };
                        assert(keys[i] == k);
                        if i < at {
                            assert(precedes(keys[i], keys[at as int]));
                        } else {
                            assert(precedes(keys[at as int], keys[i]));
                        }
                    }
                    if keys.contains(k) && k != key@ {
                        let i = keys.index_of(k);
                        let g = if i < at { i } else { i - 1 };
                        assert(shrunk[g] == k);
                    }
                }
                assert forall|k: Seq<char>| self@.contains_key(k) implies #[trigger] self@[k]
                    == before@.remove(key@)[k] by {
                    let g = shrunk.index_of(k);
                    assert(shrunk.contains(k));
                    let i = if g < at { g } else { g + 1 };
                    assert(self.keys@[g]@ == k && before.keys@[i]@ == k);
                    assert(self.holds(g) && before.holds(i));
                    assert(self.values@[g] == before.values@[i]);
                }
            }
        }
        Some(value)
    }

    /// The keys in ascending order.
    pub fn keys(&self) -> (result: Vec<String>)
        ensures
            result.deep_view() == self.order(),
    {
        proof {
            use_type_invariant(self);
            self.lemma_shape();
        }
        text::copy_list(self.keys.as_slice())
    }

    /// The entries in ascending order of their keys.
    pub fn into_entries(self) -> (result: Vec<(String, V)>)
        ensures
            lists_entries(result@, self.order(), self@),
    {
        proof {
            use_type_invariant(&self);
            self.lemma_shape();
        }
        let ghost map = self;
        let SortedMap { mut keys, mut values } = self;
        let mut backward: Vec<(String, V)> = Vec::new();
        while keys.len() > 0
            invariant
                keys.len() == values.len(),
                keys.len() + backward.len() == map.keys.len(),
                keys.len() <= map.keys.len(),
                map.keys.len() == map.values.len(),
                keys@ == map.keys@.take(keys.len() as int),
                values@ == map.values@.take(keys.len() as int),
                forall|i: int|
                    0 <= i < backward.len() ==> #[trigger] backward@[i] == (
                        map.keys@[map.keys.len() - 1 - i],
                        map.values@[map.keys.len() - 1 - i],
                    ),
            decreases keys.len(),
        {
            let ghost keys_before = keys@;
            let ghost values_before = values@;
            if let (Some(key), Some(value)) = (keys.pop(), values.pop()) {
                backward.push((key, value));
            }
            proof {
                assert(keys@ =~= map.keys@.take(keys.len() as int));
                assert(values@ =~= map.values@.take(keys.len() as int));
            }
        }
        let mut out: Vec<(String, V)> = Vec::new();
        while backward.len() > 0
            invariant
                out.len() + backward.len() == map.keys.len(),
                forall|i: int|
                    0 <= i < backward.len() ==> #[trigger] backward@[i] == (
                        map.keys@[map.keys.len() - 1 - i],
                        map.values@[map.keys.len() - 1 - i],
                    ),
                forall|i: int|
                    0 <= i < out.len() ==> #[trigger] out@[i] == (map.keys@[i], map.values@[i]),
            decreases backward.len(),
        {
            let ghost last = backward@[backward.len() - 1];
            if let Some(entry) = backward.pop() {
                out.push(entry);
            }
        }
        proof {
            assert forall|i: int| 0 <= i < out.len() implies (#[trigger] out@[i]).0@
                == map.order()[i] && map@.contains_key(map.order()[i]) && out@[i].1
                == map@[map.order()[i]] by {
                assert(map.holds(i));
                assert(map.order()[i] == map.keys@[i]@);
            }
        }
        out
    }

    /// Takes over every entry of `other`.
    pub fn extend(&mut self, other: SortedMap<V>)
        ensures
            final(self)@ == old(self)@.union_prefer_right(other@),
    {
        let ghost before = self@;
        let ghost order = other.order();
        let ghost added = other@;
        let count = other.len();
        let entries = other.into_entries();
        let ghost all = entries@;
        assert(before.union_prefer_right(added.restrict(order.take(0).to_set())) =~= before);
        for entry in it: entries
            invariant
                it.seq() == all,
                lists_entries(all, order, added),
                self@ == before.union_prefer_right(
                    added.restrict(order.take(it.index()).to_set()),
                ),
        {
            let ghost at = it.index();
            let (key, value) = entry;
            self.insert(key, value);
            proof {
                assert(all[at].0@ == order[at]);
                let done = order.take(at);
                assert(order.take(at + 1) =~= done.push(order[at]));
                assert(done.push(order[at]).to_set() =~= done.to_set().insert(order[at])) by {
                    broadcast use vstd::seq_lib::group_seq_properties;

                    assert forall|t: Seq<char>|
                        done.push(order[at]).contains(t) == (done.contains(t) || t
                            == order[at]) by {}
                }
                assert(self@ =~= before.union_prefer_right(
                    added.restrict(order.take(at + 1).to_set()),
                ));
            }
        }
        proof {
            assert(order.take(order.len() as int) =~= order);
            assert(added.restrict(order.to_set()) =~= added);
        }
    }

    /// The map of a list of entries; of two entries with one key the later holds.
    pub fn from_entries(entries: Vec<(String, V)>) -> (result: Self)
        ensures
            result@ == entry_map(entries@),
    {
        let mut result = SortedMap::new();
        let ghost all = entries@;
        assert(all.take(0) == Seq::<(String, V)>::empty());
        for entry in it: entries
            invariant
                it.seq() == all,
                result@ == entry_map(all.take(it.index())),
        {
            let (key, value) = entry;
            result.insert(key, value);
            assert(all.take(it.index() + 1).drop_last() == all.take(it.index()));
        }
        assert(all.take(all.len() as int) == all);
        result
    }
}

/// `entries` holds the entries of `map` for the keys `order`, in that order.
pub open spec fn lists_entries<V>(
    entries: Seq<(String, V)>,
    order: Seq<Seq<char>>,
    map: Map<Seq<char>, V>,
) -> bool {
    &&& entries.len() == order.len()
    &&& forall|i: int|
        0 <= i < entries.len() ==> (#[trigger] entries[i]).0@ == order[i] && map.contains_key(
            order[i],
        ) && entries[i].1 == map[order[i]]
}

/// The map that a list of entries denotes: a later entry replaces an earlier one.
pub open spec fn entry_map<V>(entries: Seq<(String, V)>) -> Map<Seq<char>, V>
    decreases entries.len(),
{
    if entries.len() == 0 {
        Map::empty()
    } else {
        entry_map(entries.drop_last()).insert(entries.last().0@, entries.last().1)
    }
}

/// A set of texts, walked in ascending order.
#[derive(Debug, PartialEq, Eq)]
pub struct SortedSet {
    map: SortedMap<()>,
}

impl View for SortedSet {
    type V = Set<Seq<char>>;

    closed spec fn view(&self) -> Set<Seq<char>> {
        self.map@.dom()
    }
}

impl DeepView for SortedSet {
    type V = Set<Seq<char>>;

    open spec fn deep_view(&self) -> Set<Seq<char>> {
        self@
    }
}

impl Clone for SortedSet {
    fn clone(&self) -> (result: Self)
        ensures
            result@ == self@,
    {
        SortedSet { map: self.map.clone() }
    }
}

impl SortedSet {
    /// The members in ascending order.
    pub open spec fn order(self) -> Seq<Seq<char>> {
        ascending(self@)
    }

    /// An empty set.
    pub fn new() -> (result: Self)
        ensures
            result@ == Set::<Seq<char>>::empty(),
    {
        let result = SortedSet { map: SortedMap::new() };
        assert(result@ =~= Set::<Seq<char>>::empty());
        result
    }

    /// Number of members.
    pub fn len(&self) -> (result: usize)
        ensures
            result == self.order().len(),
            is_ascending(self.order()),
            self.order().to_set() == self@,
    {
        self.map.len()
    }

    /// Whether there is no member.
    pub fn is_empty(&self) -> (result: bool)
        ensures
            result == (self@ == Set::<Seq<char>>::empty()),
            result == (self.order().len() == 0),
    {
        let count = self.map.len();
        proof {
            if count == 0 {
                assert(self@ =~= Set::<Seq<char>>::empty());
            } else {
                assert(self.order().contains(self.order()[0]));
                assert(self.order().to_set().contains(self.order()[0]));
            }
        }
        count == 0
    }

    /// The member at position `i` of the order.
    pub fn item_at(&self, i: usize) -> (result: &String)
        requires
            i < self.order().len(),
        ensures
            result@ == self.order()[i as int],
            self@.contains(result@),
    {
        self.map.key_at(i)
    }

    /// Whether `item` is a member.
    pub fn contains(&self, item: &str) -> (result: bool)
        ensures
            result == self@.contains(item@),
    {
        self.map.contains_key(item)
    }

    /// Makes `item` a member and says whether it was none before.
    pub fn insert(&mut self, item: String) -> (result: bool)
        ensures
            final(self)@ == old(self)@.insert(item@),
            result == !old(self)@.contains(item@),
    {
        let fresh = !self.map.contains_key(item.as_str());
        self.map.insert(item, ());
        fresh
    }

    /// The members in ascending order.
    pub fn to_list(&self) -> (result: Vec<String>)
        ensures
            result.deep_view() == self.order(),
    {
        let mut out: Vec<String> = Vec::new();
        let count = self.len();
        let mut i: usize = 0;
        while i < count
            invariant
                count == self.order().len(),
                i <= count,
                out.deep_view() == self.order().take(i as int),
            decreases count - i,
        {
            let ghost before = out.deep_view();
            out.push(self.item_at(i).clone());
            i += 1;
            assert(out.deep_view() =~= before.push(self.order()[i - 1]));
            assert(before.push(self.order()[i - 1]) =~= self.order().take(i as int));
        }
        assert(self.order().take(count as int) =~= self.order());
        out
    }

    /// The set of the members of a list.
    pub fn from_list(items: &[String]) -> (result: Self)
        ensures
            result@ == items.deep_view().to_set(),
    {
        let mut result = SortedSet::new();
        assert(items.deep_view().take(0).to_set() =~= Set::<Seq<char>>::empty());
        for i in 0..items.len()
            invariant
                result@ == items.deep_view().take(i as int).to_set(),
        {
            result.insert(items[i].clone());
            proof {
                let done = items.deep_view().take(i as int);
                let item = items@[i as int]@;
                assert(items.deep_view().take(i + 1) =~= done.push(item));
                assert(done.push(item).to_set() =~= done.to_set().insert(item)) by {
                    broadcast use vstd::seq_lib::group_seq_properties;
                    assert forall|t: Seq<char>| done.push(item).contains(t) == (done.contains(t) || t == item) by {}
                }
            }
        }
        assert(items.deep_view().take(items.len() as int) =~= items.deep_view());
        result
    }
}

/// The value of `key`, when the map has one.
pub open spec fn lookup<V>(map: Map<Seq<char>, V>, key: Seq<char>) -> Option<V> {
    if map.contains_key(key) {
        Some(map[key])
    } else {
        None
    }
}

/// The members that a map of sets has for `key`, none when it has no entry.
pub open spec fn members_of(map: Map<Seq<char>, Set<Seq<char>>>, key: Seq<char>) -> Set<Seq<char>> {
    if map.contains_key(key) {
        map[key]
    } else {
        Set::empty()
    }
}

/// Adds `member` to the set of `key` and says whether it was missing.
pub fn add_member(map: &mut SortedMap<SortedSet>, key: &str, member: &str) -> (result: bool)
    ensures
        final(map).deep_view() == old(map).deep_view().insert(
            key@,
            members_of(old(map).deep_view(), key@).insert(member@),
        ),
        result == !members_of(old(map).deep_view(), key@).contains(member@),
{
    let ghost before = map.deep_view();
    let mut set = match map.remove(key) {
        Some(set) => set,
        None => SortedSet::new(),
    };
    assert(set@ == members_of(before, key@));
    let fresh = set.insert(member.to_owned());
    map.insert(key.to_owned(), set);
    assert(map.deep_view() =~= before.insert(key@, members_of(before, key@).insert(member@)));
    fresh
}

/// Gives `key` an entry, an empty set when it had none.
pub fn add_key(map: &mut SortedMap<SortedSet>, key: &str)
    ensures
        final(map).deep_view() == old(map).deep_view().insert(
            key@,
            members_of(old(map).deep_view(), key@),
        ),
{
    let ghost before = map.deep_view();
    if !map.contains_key(key) {
        map.insert(key.to_owned(), SortedSet::new());
    }
    assert(map.deep_view() =~= before.insert(key@, members_of(before, key@)));
}

/// Texts are ordered by the first character in which they differ, and a text
/// comes before those that go on from it.
pub proof fn law_texts_are_ordered_by_their_characters(
    common: Seq<char>,
    left: char,
    right: char,
    more: Seq<char>,
    other: Seq<char>,
)
    ensures
        left != right ==> (precedes(common.push(left) + more, common.push(right) + other) <==> left
            < right),
        precedes(common, common.push(left) + more),
        !precedes(common.push(left) + more, common),
        !precedes(common, common),
    decreases common.len(),
{
    let a = common.push(left) + more;
    let b = common.push(right) + other;
    if common.len() > 0 {
        let rest = common.drop_first();
        law_texts_are_ordered_by_their_characters(rest, left, right, more, other);
        assert(a.drop_first() =~= rest.push(left) + more);
        assert(b.drop_first() =~= rest.push(right) + other);
        assert(a[0] == common[0]);
        assert(b[0] == common[0]);
    }
}

/// A map that is made of entries holds them all; of two for one key it holds the
/// later one.
pub proof fn law_later_entries_replace_earlier_ones<V>(entries: Seq<(String, V)>, entry: (String, V))
    ensures
        entry_map(Seq::<(String, V)>::empty()) == Map::<Seq<char>, V>::empty(),
        entry_map(entries.push(entry)) == entry_map(entries).insert(entry.0@, entry.1),
{
    assert(entries.push(entry).drop_last() =~= entries);
}

/// The texts of a finite set are listed in ascending order, each once, and no
/// others.
pub proof fn law_sets_are_listed_in_order(set: Set<Seq<char>>, i: int, j: int)
    requires
        set.finite(),
    ensures
        ascending(set).to_set() == set,
        0 <= i < j < ascending(set).len() ==> precedes(ascending(set)[i], ascending(set)[j]),
{
    lemma_ascending_exists(set);
}

} // verus!
