//! A map kept in the order of its keys.

use crate::text::{compare_text, lemma_precedes_irreflexive, lemma_precedes_transitive, precedes, Order};
use vstd::prelude::*;

verus! {

/// A type whose values are told apart and ordered by their views.
pub trait OrderedKey: View + Sized {
    /// A strict order on views.
    spec fn before(a: Self::V, b: Self::V) -> bool;

    proof fn before_irreflexive(a: Self::V)
        ensures
            !Self::before(a, a),
    ;

    proof fn before_transitive(a: Self::V, b: Self::V, c: Self::V)
        requires
            Self::before(a, b),
            Self::before(b, c),
        ensures
            Self::before(a, c),
    ;

    fn order(&self, other: &Self) -> (order: Order)
        ensures
            match order {
                Order::Before => Self::before(self@, other@),
                Order::Same => self@ == other@,
                Order::After => Self::before(other@, self@),
            },
    ;
}

impl OrderedKey for String {
    open spec fn before(a: Seq<char>, b: Seq<char>) -> bool {
        precedes(a, b)
    }

    proof fn before_irreflexive(a: Seq<char>) {
        lemma_precedes_irreflexive(a);
    }

    proof fn before_transitive(a: Seq<char>, b: Seq<char>, c: Seq<char>) {
        lemma_precedes_transitive(a, b, c);
    }

    fn order(&self, other: &Self) -> (order: Order) {
        compare_text(self.as_str(), other.as_str())
    }
}

/// The map that a list of pairs with distinct keys stands for.
pub open spec fn contents<A, B>(pairs: Seq<(A, B)>) -> Map<A, B> {
    Map::new(
        |key: A| exists|i: int| 0 <= i < pairs.len() && #[trigger] pairs[i].0 == key,
        |key: A| pairs[choose|i: int| 0 <= i < pairs.len() && #[trigger] pairs[i].0 == key].1,
    )
}

/// Each key comes before every key behind it.
pub open spec fn ascending<K: OrderedKey, B>(pairs: Seq<(K::V, B)>) -> bool {
    forall|i: int, j: int|
        0 <= i < j < pairs.len() ==> K::before(#[trigger] pairs[i].0, #[trigger] pairs[j].0)
}

/// No key occurs twice.
pub open spec fn keys_distinct<A, B>(pairs: Seq<(A, B)>) -> bool {
    forall|i: int, j: int|
        0 <= i < pairs.len() && 0 <= j < pairs.len() && #[trigger] pairs[i].0
            == #[trigger] pairs[j].0 ==> i == j
}

pub proof fn lemma_ascending_distinct<K: OrderedKey, B>(pairs: Seq<(K::V, B)>)
    requires
        ascending::<K, B>(pairs),
    ensures
        keys_distinct(pairs),
{
    assert forall|i: int, j: int|
        0 <= i < pairs.len() && 0 <= j < pairs.len() && #[trigger] pairs[i].0
            == #[trigger] pairs[j].0 implies i == j by {
        K::before_irreflexive(pairs[i].0);
        K::before_irreflexive(pairs[j].0);
    }
}

/// Where keys are distinct, each pair is in the map.
pub proof fn lemma_contents_at<A, B>(pairs: Seq<(A, B)>, i: int)
    requires
        keys_distinct(pairs),
        0 <= i < pairs.len(),
    ensures
        contents(pairs).contains_key(pairs[i].0),
        contents(pairs)[pairs[i].0] == pairs[i].1,
{
    let key = pairs[i].0;
    let found = choose|j: int| 0 <= j < pairs.len() && #[trigger] pairs[j].0 == key;
    assert(pairs[found].0 == pairs[i].0);
}

/// The map has one key for each pair.
pub proof fn lemma_contents_len<A, B>(pairs: Seq<(A, B)>)
    requires
        keys_distinct(pairs),
    ensures
        contents(pairs).dom().finite(),
        contents(pairs).dom().len() == pairs.len(),
    decreases pairs.len(),
{
    if pairs.len() == 0 {
        assert(contents(pairs).dom() =~= Set::empty());
    } else {
        let rest = pairs.drop_last();
        assert(keys_distinct(rest)) by {
            assert forall|i: int, j: int|
                0 <= i < rest.len() && 0 <= j < rest.len() && #[trigger] rest[i].0
                    == #[trigger] rest[j].0 implies i == j by {
                assert(pairs[i].0 == pairs[j].0);
            }
        }
        lemma_contents_len(rest);
        let last = pairs.last().0;
        assert(!contents(rest).contains_key(last)) by {
            if contents(rest).contains_key(last) {
                let i = choose|i: int| 0 <= i < rest.len() && #[trigger] rest[i].0 == last;
                assert(pairs[i].0 == pairs[pairs.len() - 1].0);
            }
        }
        assert(contents(pairs).dom() =~= contents(rest).dom().insert(last)) by {
            assert forall|key: A| contents(pairs).dom().contains(key) implies contents(
                rest,
            ).dom().insert(last).contains(key) by {
                let i = choose|i: int| 0 <= i < pairs.len() && #[trigger] pairs[i].0 == key;
                if i < rest.len() {
                    assert(rest[i].0 == key);
                }
            }
            assert forall|key: A| contents(rest).dom().insert(last).contains(key) implies contents(
                pairs,
            ).dom().contains(key) by {
                if key == last {
                    assert(pairs[pairs.len() - 1].0 == key);
                } else {
                    let i = choose|i: int| 0 <= i < rest.len() && #[trigger] rest[i].0 == key;
                    assert(pairs[i].0 == key);
                }
            }
        }
    }
}

/// The map of a list of pairs is finite, whatever the pairs are.
pub proof fn lemma_contents_finite<A, B>(pairs: Seq<(A, B)>)
    ensures
        contents(pairs).dom().finite(),
    decreases pairs.len(),
{
    if pairs.len() == 0 {
        assert(contents(pairs).dom() =~= Set::empty());
    } else {
        let rest = pairs.drop_last();
        let last = pairs.last().0;
        lemma_contents_finite(rest);
        assert forall|key: A| contents(pairs).dom().contains(key) implies contents(
            rest,
        ).dom().insert(last).contains(key) by {
            let i = choose|i: int| 0 <= i < pairs.len() && #[trigger] pairs[i].0 == key;
            if i < rest.len() {
                assert(rest[i].0 == key);
            }
        }
        vstd::set_lib::lemma_set_subset_finite(
            contents(rest).dom().insert(last),
            contents(pairs).dom(),
        );
    }
}

/// A pair with a new key adds that key to the map.
pub proof fn lemma_contents_push<A, B>(pairs: Seq<(A, B)>, key: A, value: B)
    requires
        keys_distinct(pairs),
        !contents(pairs).contains_key(key),
    ensures
        keys_distinct(pairs.push((key, value))),
        contents(pairs.push((key, value))) == contents(pairs).insert(key, value),
{
    let longer = pairs.push((key, value));
    assert forall|i: int, j: int|
        0 <= i < longer.len() && 0 <= j < longer.len() && #[trigger] longer[i].0
            == #[trigger] longer[j].0 implies i == j by {
        assert(i < pairs.len() ==> longer[i] == pairs[i]);
        assert(j < pairs.len() ==> longer[j] == pairs[j]);
    }
    assert forall|other: A| contents(longer).contains_key(other) implies contents(pairs).insert(
        key,
        value,
    ).contains_key(other) && contents(longer)[other] == contents(pairs).insert(
        key,
        value,
    )[other] by {
        let i = choose|i: int| 0 <= i < longer.len() && #[trigger] longer[i].0 == other;
        lemma_contents_at(longer, i);
        if i < pairs.len() {
            assert(longer[i] == pairs[i]);
            lemma_contents_at(pairs, i);
        }
    }
    assert forall|other: A| contents(pairs).insert(key, value).contains_key(other) implies contents(
        longer,
    ).contains_key(other) by {
        if other == key {
            assert(longer[pairs.len() as int].0 == other);
        } else {
            let i = choose|i: int| 0 <= i < pairs.len() && #[trigger] pairs[i].0 == other;
            assert(longer[i].0 == other);
        }
    }
    assert(contents(longer) =~= contents(pairs).insert(key, value));
}

/// The pairs up to place `i` and that at place `i` make up the map of one pair more.
pub proof fn lemma_contents_take<A, B>(pairs: Seq<(A, B)>, i: int)
    requires
        keys_distinct(pairs),
        0 <= i < pairs.len(),
    ensures
        !contents(pairs.take(i)).contains_key(pairs[i].0),
        contents(pairs.take(i + 1)) == contents(pairs.take(i)).insert(pairs[i].0, pairs[i].1),
{
    let before = pairs.take(i);
    assert(keys_distinct(before)) by {
        assert forall|j: int, k: int|
            0 <= j < before.len() && 0 <= k < before.len() && #[trigger] before[j].0
                == #[trigger] before[k].0 implies j == k by {
            assert(pairs[j].0 == pairs[k].0);
        }
    }
    assert(!contents(before).contains_key(pairs[i].0)) by {
        if contents(before).contains_key(pairs[i].0) {
            let j = choose|j: int| 0 <= j < before.len() && #[trigger] before[j].0 == pairs[i].0;
            assert(pairs[j].0 == pairs[i].0);
        }
    }
    lemma_contents_push(before, pairs[i].0, pairs[i].1);
    assert(pairs.take(i + 1) =~= before.push((pairs[i].0, pairs[i].1)));
}

/// `pairs` with `f` applied to each value.
pub open spec fn with_values<A, B, C>(pairs: Seq<(A, B)>, f: spec_fn(B) -> C) -> Seq<(A, C)> {
    pairs.map_values(|pair: (A, B)| (pair.0, f(pair.1)))
}

/// Applying a function to the values of the pairs applies it to the values of the map.
pub proof fn lemma_contents_with_values<A, B, C>(pairs: Seq<(A, B)>, f: spec_fn(B) -> C)
    requires
        keys_distinct(pairs),
    ensures
        keys_distinct(with_values(pairs, f)),
        contents(with_values(pairs, f)) == contents(pairs).map_values(f),
{
    let changed = with_values(pairs, f);
    assert forall|i: int| 0 <= i < pairs.len() implies #[trigger] changed[i] == (
        pairs[i].0,
        f(pairs[i].1),
    ) by {}
    assert(keys_distinct(changed)) by {
        assert forall|i: int, j: int|
            0 <= i < changed.len() && 0 <= j < changed.len() && #[trigger] changed[i].0
                == #[trigger] changed[j].0 implies i == j by {
            assert(pairs[i].0 == pairs[j].0);
        }
    }
    assert forall|key: A| contents(changed).contains_key(key) implies contents(pairs).map_values(
        f,
    ).contains_key(key) && contents(changed)[key] == contents(pairs).map_values(f)[key] by {
        let i = choose|i: int| 0 <= i < changed.len() && #[trigger] changed[i].0 == key;
        lemma_contents_at(changed, i);
        lemma_contents_at(pairs, i);
    }
    assert forall|key: A| contents(pairs).map_values(f).contains_key(key) implies contents(
        changed,
    ).contains_key(key) by {
        let i = choose|i: int| 0 <= i < pairs.len() && #[trigger] pairs[i].0 == key;
        assert(changed[i].0 == key);
    }
    assert(contents(changed) =~= contents(pairs).map_values(f));
}

/// A map from `K` to `V`. Keys with the same view are the same key.
#[derive(Debug)]
pub struct OrderedMap<K: OrderedKey, V> {
    entries: Vec<(K, V)>,
}

impl<K: OrderedKey, V> View for OrderedMap<K, V> {
    type V = Map<K::V, V>;

    open spec fn view(&self) -> Map<K::V, V> {
        contents(self.pairs())
    }
}

impl<K: OrderedKey, V> OrderedMap<K, V> {
    /// The keys, by their views, and values in order.
    pub closed spec fn pairs(&self) -> Seq<(K::V, V)> {
        self.entries@.map_values(|entry: (K, V)| (entry.0@, entry.1))
    }

    #[verifier::type_invariant]
    spec fn in_order(self) -> bool {
        ascending::<K, V>(self.pairs())
    }

    /// A map that holds nothing.
    pub fn new() -> (map: Self)
        ensures
            map.pairs() == Seq::<(K::V, V)>::empty(),
            map@ == Map::<K::V, V>::empty(),
    {
        let map = OrderedMap { entries: Vec::new() };
        assert(map.pairs() =~= Seq::<(K::V, V)>::empty());
        assert(map@ =~= Map::<K::V, V>::empty());
        map
    }

    /// How many keys the map holds.
    pub fn len(&self) -> (len: usize)
        ensures
            len == self.pairs().len(),
            len == self@.dom().len(),
            self@.dom().finite(),
            ascending::<K, V>(self.pairs()),
    {
        proof {
            use_type_invariant(self);
            lemma_ascending_distinct::<K, V>(self.pairs());
            lemma_contents_len(self.pairs());
        }
        self.entries.len()
    }

    /// The key at place `i` of the order.
    pub fn key_at(&self, i: usize) -> (key: &K)
        requires
            i < self.pairs().len(),
        ensures
            key@ == self.pairs()[i as int].0,
    {
        &self.entries[i].0
    }

    /// The value at place `i` of the order.
    pub fn value_at(&self, i: usize) -> (value: &V)
        requires
            i < self.pairs().len(),
        ensures
            *value == self.pairs()[i as int].1,
    {
        &self.entries[i].1
    }

    /// The place of `key`, or the place where it would have to stand.
    fn search(&self, key: &K) -> (place: Result<usize, usize>)
        ensures
            match place {
                Ok(i) => i < self.pairs().len() && self.pairs()[i as int].0 == key@,
                Err(i) => {
                    &&& i <= self.pairs().len()
                    &&& forall|j: int|
                        0 <= j < i ==> K::before(#[trigger] self.pairs()[j].0, key@)
                    &&& forall|j: int|
                        i <= j < self.pairs().len() ==> K::before(
                            key@,
                            #[trigger] self.pairs()[j].0,
                        )
                },
            },
    {
        proof {
            use_type_invariant(self);
        }
        let ghost pairs = self.pairs();
        let mut low: usize = 0;
        let mut high: usize = self.entries.len();
        while low < high
            invariant
                pairs == self.pairs(),
                ascending::<K, V>(pairs),
                low <= high <= pairs.len(),
                pairs.len() == self.entries.len(),
                forall|j: int| 0 <= j < low ==> K::before(#[trigger] pairs[j].0, key@),
                forall|j: int| high <= j < pairs.len() ==> K::before(key@, #[trigger] pairs[j].0),
            decreases high - low,
        {
            let middle: usize = low + (high - low) / 2;
            assert(pairs[middle as int].0 == self.entries@[middle as int].0@);
            match self.entries[middle].0.order(key) {
                Order::Same => {
                    return Ok(middle);
                },
                Order::Before => {
                    assert forall|j: int| 0 <= j < middle + 1 implies K::before(
                        #[trigger] pairs[j].0,
                        key@,
                    ) by {
                        if j < middle {
                            K::before_transitive(pairs[j].0, pairs[middle as int].0, key@);
                        }
                    }
                    low = middle + 1;
                },
                Order::After => {
                    assert forall|j: int| middle <= j < pairs.len() implies K::before(
                        key@,
                        #[trigger] pairs[j].0,
                    ) by {
                        if middle < j {
                            K::before_transitive(key@, pairs[middle as int].0, pairs[j].0);
                        }
                    }
                    high = middle;
                },
            }
        }
        Err(low)
    }

    /// No pair has `key`, which would have to stand at `place`.
    proof fn lemma_absent(pairs: Seq<(K::V, V)>, key: K::V, place: int)
        requires
            0 <= place <= pairs.len(),
            forall|j: int| 0 <= j < place ==> K::before(#[trigger] pairs[j].0, key),
            forall|j: int| place <= j < pairs.len() ==> K::before(key, #[trigger] pairs[j].0),
        ensures
            !contents(pairs).contains_key(key),
    {
        K::before_irreflexive(key);
    }

    /// The value of `key`.
    pub fn get(&self, key: &K) -> (value: Option<&V>)
        ensures
            match value {
                Some(value) => self@.contains_key(key@) && *value == self@[key@],
                None => !self@.contains_key(key@),
            },
    {
        match self.search(key) {
            Ok(i) => {
                proof {
                    use_type_invariant(self);
                    lemma_ascending_distinct::<K, V>(self.pairs());
                    lemma_contents_at(self.pairs(), i as int);
                }
                Some(&self.entries[i].1)
            },
            Err(i) => {
                proof {
                    Self::lemma_absent(self.pairs(), key@, i as int);
                }
                None
            },
        }
    }

    proof fn lemma_insert(pairs: Seq<(K::V, V)>, place: int, key: K::V, value: V)
        requires
            ascending::<K, V>(pairs),
            0 <= place <= pairs.len(),
            forall|j: int| 0 <= j < place ==> K::before(#[trigger] pairs[j].0, key),
            forall|j: int| place <= j < pairs.len() ==> K::before(key, #[trigger] pairs[j].0),
        ensures
            ascending::<K, V>(pairs.insert(place, (key, value))),
            contents(pairs.insert(place, (key, value))) == contents(pairs).insert(key, value),
    {
        let longer = pairs.insert(place, (key, value));
        assert(ascending::<K, V>(longer)) by {
            assert forall|i: int, j: int| 0 <= i < j < longer.len() implies K::before(
                #[trigger] longer[i].0,
                #[trigger] longer[j].0,
            ) by {
                assert(i < place ==> longer[i] == pairs[i]);
                assert(place < i ==> longer[i] == pairs[i - 1]);
                assert(j < place ==> longer[j] == pairs[j]);
                assert(place < j ==> longer[j] == pairs[j - 1]);
            }
        }
        lemma_ascending_distinct::<K, V>(pairs);
        lemma_ascending_distinct::<K, V>(longer);
        lemma_contents_at(longer, place);
        assert forall|other: K::V| contents(longer).contains_key(other) implies contents(
            pairs,
        ).insert(key, value).contains_key(other) && contents(longer)[other] == contents(
            pairs,
        ).insert(key, value)[other] by {
            let i = choose|i: int| 0 <= i < longer.len() && #[trigger] longer[i].0 == other;
            lemma_contents_at(longer, i);
            if i < place {
                assert(longer[i] == pairs[i]);
                lemma_contents_at(pairs, i);
            } else if place < i {
                assert(longer[i] == pairs[i - 1]);
                lemma_contents_at(pairs, i - 1);
            }
        }
        assert forall|other: K::V|
            contents(pairs).insert(key, value).contains_key(other) implies contents(
            longer,
        ).contains_key(other) by {
            if other == key {
                assert(longer[place].0 == other);
            } else {
                let i = choose|i: int| 0 <= i < pairs.len() && #[trigger] pairs[i].0 == other;
                if i < place {
                    assert(longer[i].0 == other);
                } else {
                    assert(longer[i + 1].0 == other);
                }
            }
        }
        assert(contents(longer) =~= contents(pairs).insert(key, value));
    }

    proof fn lemma_update(pairs: Seq<(K::V, V)>, place: int, value: V)
        requires
            ascending::<K, V>(pairs),
            0 <= place < pairs.len(),
        ensures
            ascending::<K, V>(pairs.update(place, (pairs[place].0, value))),
            contents(pairs.update(place, (pairs[place].0, value))) == contents(pairs).insert(
                pairs[place].0,
                value,
            ),
    {
        let key = pairs[place].0;
        let changed = pairs.update(place, (key, value));
        assert forall|i: int| 0 <= i < pairs.len() implies (#[trigger] changed[i]).0
            == pairs[i].0 by {}
        lemma_ascending_distinct::<K, V>(pairs);
        lemma_ascending_distinct::<K, V>(changed);
        assert forall|other: K::V| contents(changed).contains_key(other) implies contents(
            pairs,
        ).insert(key, value).contains_key(other) && contents(changed)[other] == contents(
            pairs,
        ).insert(key, value)[other] by {
            let i = choose|i: int| 0 <= i < changed.len() && #[trigger] changed[i].0 == other;
            lemma_contents_at(changed, i);
            lemma_contents_at(pairs, i);
        }
        assert forall|other: K::V|
            contents(pairs).insert(key, value).contains_key(other) implies contents(
            changed,
        ).contains_key(other) by {
            if other == key {
                assert(changed[place].0 == other);
            } else {
                let i = choose|i: int| 0 <= i < pairs.len() && #[trigger] pairs[i].0 == other;
                assert(changed[i].0 == other);
            }
        }
        assert(contents(changed) =~= contents(pairs).insert(key, value));
    }

    proof fn lemma_remove(pairs: Seq<(K::V, V)>, place: int)
        requires
            ascending::<K, V>(pairs),
            0 <= place < pairs.len(),
        ensures
            ascending::<K, V>(pairs.remove(place)),
            contents(pairs.remove(place)) == contents(pairs).remove(pairs[place].0),
    {
        let key = pairs[place].0;
        let shorter = pairs.remove(place);
        assert forall|i: int| 0 <= i < shorter.len() implies #[trigger] shorter[i] == pairs[if i
            < place {
            i
        } else {
            i + 1
        }] by {}
        lemma_ascending_distinct::<K, V>(pairs);
        lemma_ascending_distinct::<K, V>(shorter);
        assert forall|other: K::V| contents(shorter).contains_key(other) implies contents(
            pairs,
        ).remove(key).contains_key(other) && contents(shorter)[other] == contents(pairs).remove(
            key,
        )[other] by {
            let i = choose|i: int| 0 <= i < shorter.len() && #[trigger] shorter[i].0 == other;
            let j = if i < place {
                i
            } else {
                i + 1
            };
            lemma_contents_at(shorter, i);
            lemma_contents_at(pairs, j);
            assert(pairs[j].0 != pairs[place].0);
        }
        assert forall|other: K::V| contents(pairs).remove(key).contains_key(other) implies contents(
            shorter,
        ).contains_key(other) by {
            let i = choose|i: int| 0 <= i < pairs.len() && #[trigger] pairs[i].0 == other;
            if i < place {
                assert(shorter[i].0 == other);
            } else {
                assert(shorter[i - 1].0 == other);
            }
        }
        assert(contents(shorter) =~= contents(pairs).remove(key));
    }

    /// Sets the value of `key` and returns the value that it had.
    pub fn insert(&mut self, key: K, value: V) -> (previous: Option<V>)
        ensures
            final(self)@ == old(self)@.insert(key@, value),
            match previous {
                Some(previous) => old(self)@.contains_key(key@) && previous == old(self)@[key@],
                None => !old(self)@.contains_key(key@),
            },
    {
        proof {
            use_type_invariant(&*self);
        }
        let ghost pairs = self.pairs();
        match self.search(&key) {
            Ok(i) => {
                proof {
                    Self::lemma_update(pairs, i as int, value);
                    lemma_ascending_distinct::<K, V>(pairs);
                    lemma_contents_at(pairs, i as int);
                }
                let mut entries: Vec<(K, V)> = Vec::new();
                std::mem::swap(&mut entries, &mut self.entries);
                let mut entry: (K, V) = (key, value);
                std::mem::swap(&mut entry, &mut entries[i]);
                assert(entries@.map_values(|entry: (K, V)| (entry.0@, entry.1)) =~= pairs.update(
                    i as int,
                    (pairs[i as int].0, value),
                ));
                self.entries = entries;
                Some(entry.1)
            },
            Err(i) => {
                proof {
                    Self::lemma_insert(pairs, i as int, key@, value);
                    Self::lemma_absent(pairs, key@, i as int);
                }
                let mut entries: Vec<(K, V)> = Vec::new();
                std::mem::swap(&mut entries, &mut self.entries);
                entries.insert(i, (key, value));
                assert(entries@.map_values(|entry: (K, V)| (entry.0@, entry.1)) =~= pairs.insert(
                    i as int,
                    (key@, value),
                ));
                self.entries = entries;
                None
            },
        }
    }

    /// Takes `key` out and returns the value that it had.
    pub fn remove(&mut self, key: &K) -> (previous: Option<V>)
        ensures
            final(self)@ == old(self)@.remove(key@),
            match previous {
                Some(previous) => old(self)@.contains_key(key@) && previous == old(self)@[key@],
                None => !old(self)@.contains_key(key@),
            },
    {
        proof {
            use_type_invariant(&*self);
        }
        let ghost pairs = self.pairs();
        match self.search(key) {
            Ok(i) => {
                proof {
                    Self::lemma_remove(pairs, i as int);
                    lemma_ascending_distinct::<K, V>(pairs);
                    lemma_contents_at(pairs, i as int);
                }
                let mut entries: Vec<(K, V)> = Vec::new();
                std::mem::swap(&mut entries, &mut self.entries);
                let entry = entries.remove(i);
                assert(entries@.map_values(|entry: (K, V)| (entry.0@, entry.1)) =~= pairs.remove(
                    i as int,
                ));
                self.entries = entries;
                Some(entry.1)
            },
            Err(i) => {
                proof {
                    Self::lemma_absent(pairs, key@, i as int);
                    assert(contents(pairs).remove(key@) =~= contents(pairs));
                }
                None
            },
        }
    }
}

}
