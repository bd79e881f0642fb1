//! A map kept as a vector of entries in strictly increasing key order.

use vstd::prelude::*;
use crate::text::{
    compare_text, lemma_text_irreflexive, lemma_text_transitive, text_precedes, Place,
};

verus! {

/// A key with a strict total order on what it stands for.
pub trait Key: Sized {
    /// What a key stands for: two keys with the same model are the same key.
    type Model;

    spec fn model(&self) -> Self::Model;

    spec fn precedes(a: Self::Model, b: Self::Model) -> bool;

    proof fn irreflexive(a: Self::Model)
        ensures
            !Self::precedes(a, a),
    ;

    proof fn transitive(a: Self::Model, b: Self::Model, c: Self::Model)
        requires
            Self::precedes(a, b),
            Self::precedes(b, c),
        ensures
            Self::precedes(a, c),
    ;

    fn compare(&self, other: &Self) -> (place: Place)
        ensures
            place is Before <==> Self::precedes(self.model(), other.model()),
            place is Same <==> self.model() == other.model(),
            place is After <==> Self::precedes(other.model(), self.model()),
    ;
}

impl Key for String {
    type Model = Seq<char>;

    open spec fn model(&self) -> Seq<char> {
        self@
    }

    open spec fn precedes(a: Seq<char>, b: Seq<char>) -> bool {
        text_precedes(a, b)
    }

    proof fn irreflexive(a: Seq<char>) {
        lemma_text_irreflexive(a);
    }

    proof fn transitive(a: Seq<char>, b: Seq<char>, c: Seq<char>) {
        lemma_text_transitive(a, b, c);
    }

    fn compare(&self, other: &Self) -> (place: Place) {
        compare_text(self.as_str(), other.as_str())
    }
}

/// The value of a key that is only present: a map to it is a set.
#[derive(Debug, Clone, Copy, PartialEq, Eq, Structural)]
pub struct Present;

impl View for Present {
    type V = Present;

    open spec fn view(&self) -> Present {
        *self
    }
}

/// Whether keys strictly increase along a sequence.
pub open spec fn increasing<K: Key>(keys: Seq<K::Model>) -> bool {
    forall|i: int, j: int|
        0 <= i < j < keys.len() ==> #[trigger] K::precedes(keys[i], #[trigger] keys[j])
}

/// The members of a finite set of keys, in increasing order.
pub open spec fn in_order<K: Key>(keys: Set<K::Model>) -> Seq<K::Model> {
    choose|order: Seq<K::Model>| increasing::<K>(order) && #[trigger] order.to_set() == keys
}

/// A set of keys has at most one increasing order.
pub proof fn lemma_order_unique<K: Key>(a: Seq<K::Model>, b: Seq<K::Model>)
    requires
        increasing::<K>(a),
        increasing::<K>(b),
        a.to_set() == b.to_set(),
    ensures
        a == b,
    decreases a.len(),
{
    if a.len() == 0 {
        if b.len() > 0 {
            assert(b.to_set().contains(b[0]));
            assert(a.to_set().contains(b[0]));
        }
        assert(a =~= b);
    } else {
        assert(a.to_set().contains(a.last()));
        assert(b.to_set().contains(a.last()));
        let i = choose|i: int| 0 <= i < b.len() && b[i] == a.last();
        assert(b.to_set().contains(b.last()));
        assert(a.to_set().contains(b.last()));
        let j = choose|j: int| 0 <= j < a.len() && a[j] == b.last();
        if i < b.len() - 1 && j < a.len() - 1 {
            assert(K::precedes(b[i], b[b.len() - 1]));
            assert(K::precedes(a[j], a[a.len() - 1]));
            K::transitive(a.last(), b.last(), a.last());
            K::irreflexive(a.last());
        }
        assert(a.last() == b.last());
        let x = a.drop_last();
        let y = b.drop_last();
        assert forall|k: K::Model| x.to_set().contains(k) == y.to_set().contains(k) by {
            if x.to_set().contains(k) {
                let p = choose|p: int| 0 <= p < x.len() && x[p] == k;
                assert(a[p] == k);
                assert(a.to_set().contains(k));
                assert(b.to_set().contains(k));
                let q = choose|q: int| 0 <= q < b.len() && b[q] == k;
                assert(K::precedes(a[p], a[a.len() - 1]));
                K::irreflexive(k);
                assert(y[q] == k);
            }
            if y.to_set().contains(k) {
                let p = choose|p: int| 0 <= p < y.len() && y[p] == k;
                assert(b[p] == k);
                assert(b.to_set().contains(k));
                assert(a.to_set().contains(k));
                let q = choose|q: int| 0 <= q < a.len() && a[q] == k;
                assert(K::precedes(b[p], b[b.len() - 1]));
                K::irreflexive(k);
                assert(x[q] == k);
            }
        }
        assert(x.to_set() =~= y.to_set());
        lemma_order_unique::<K>(x, y);
        assert(a =~= x.push(a.last()));
        assert(b =~= y.push(b.last()));
    }
}

/// A map whose entries stand in strictly increasing key order.
#[derive(Debug)]
pub struct SortedMap<K: Key, V: View> {
    pub items: Vec<(K, V)>,
}

impl<K: Key, V: View> View for SortedMap<K, V> {
    type V = Map<K::Model, V::V>;

    open spec fn view(&self) -> Map<K::Model, V::V> {
        Map::new(|key: K::Model| self.holds(key), |key: K::Model| self.items@[self.position(key)].1@)
    }
}

impl<K: Key, V: View> SortedMap<K, V> {
    /// The key of the entry at a position.
    pub open spec fn key_at(&self, i: int) -> K::Model {
        self.items@[i].0.model()
    }

    /// Keys strictly increase from entry to entry.
    pub open spec fn wf(&self) -> bool {
        forall|i: int, j: int|
            0 <= i < j < self.items@.len() ==> K::precedes(self.key_at(i), self.key_at(j))
    }

    pub open spec fn holds(&self, key: K::Model) -> bool {
        exists|i: int| 0 <= i < self.items@.len() && #[trigger] self.key_at(i) == key
    }

    pub open spec fn position(&self, key: K::Model) -> int {
        choose|i: int| 0 <= i < self.items@.len() && #[trigger] self.key_at(i) == key
    }

    /// The entries in key order, by what they stand for.
    pub open spec fn entries(&self) -> Seq<(K::Model, V::V)> {
        Seq::new(self.items@.len(), |i: int| (self.key_at(i), self.items@[i].1@))
    }

    /// The keys in the order of the entries.
    pub open spec fn keys(&self) -> Seq<K::Model> {
        Seq::new(self.items@.len(), |i: int| self.key_at(i))
    }

    /// The entries stand in the order of the keys of the view.
    pub proof fn lemma_keys(&self)
        requires
            self.wf(),
        ensures
            self.keys() == in_order::<K>(self@.dom()),
            forall|i: int|
                0 <= i < self.items@.len() ==> #[trigger] self.keys()[i] == self.key_at(i),
            forall|i: int|
                #![trigger self.keys()[i]]
                0 <= i < self.items@.len() ==> self@.contains_key(self.keys()[i])
                    && self@[self.keys()[i]] == self.items@[i].1@,
    {
        let keys = self.keys();
        assert(increasing::<K>(keys));
        assert forall|k: K::Model| keys.to_set().contains(k) == self@.dom().contains(k) by {
            if keys.to_set().contains(k) {
                let i = choose|i: int| 0 <= i < keys.len() && keys[i] == k;
                self.lemma_entry(i);
            }
            if self@.dom().contains(k) {
                self.lemma_key(k);
                assert(keys[self.position(k)] == k);
            }
        }
        assert(keys.to_set() =~= self@.dom());
        lemma_order_unique::<K>(keys, in_order::<K>(self@.dom()));
        assert forall|i: int| #![trigger self.keys()[i]] 0 <= i < self.items@.len() implies self@.contains_key(
            self.keys()[i],
        ) && self@[self.keys()[i]] == self.items@[i].1@ by {
            self.lemma_entry(i);
        }
    }

    /// Each entry stands in the view under its own key.
    pub proof fn lemma_entry(&self, i: int)
        requires
            self.wf(),
            0 <= i < self.items@.len(),
        ensures
            self.position(self.key_at(i)) == i,
            self@.contains_key(self.key_at(i)),
            self@[self.key_at(i)] == self.items@[i].1@,
    {
        let key = self.key_at(i);
        assert(self.holds(key));
        let p = self.position(key);
        assert(0 <= p < self.items@.len() && self.key_at(p) == key);
        if p < i {
            K::irreflexive(key);
        } else if i < p {
            K::irreflexive(key);
        }
    }

    /// Every key of the view stands at exactly one position.
    pub proof fn lemma_key(&self, key: K::Model)
        requires
            self.wf(),
            self@.contains_key(key),
        ensures
            0 <= self.position(key) < self.items@.len(),
            self.key_at(self.position(key)) == key,
            self@[key] == self.items@[self.position(key)].1@,
    {
        assert(self.holds(key));
    }

    /// Entries with the same keys and values make the same map.
    pub proof fn lemma_same(&self, other: &Self)
        requires
            other.wf(),
            self.items@.len() == other.items@.len(),
            forall|i: int|
                0 <= i < self.items@.len() ==> #[trigger] self.key_at(i) == other.key_at(i)
                    && self.items@[i].1@ == other.items@[i].1@,
        ensures
            self.wf(),
            self@ == other@,
    {
        assert forall|i: int, j: int| 0 <= i < j < self.items@.len() implies K::precedes(
            self.key_at(i),
            self.key_at(j),
        ) by {
            assert(K::precedes(other.key_at(i), other.key_at(j)));
        }
        assert forall|k: K::Model| self@.contains_key(k) == other@.contains_key(k) by {
            if self@.contains_key(k) {
                self.lemma_key(k);
                other.lemma_entry(self.position(k));
            }
            if other@.contains_key(k) {
                other.lemma_key(k);
                assert(self.key_at(other.position(k)) == k);
                self.lemma_entry(other.position(k));
            }
        }
        assert forall|k: K::Model| self@.contains_key(k) implies #[trigger] self@[k]
            == other@[k] by {
            self.lemma_key(k);
            other.lemma_entry(self.position(k));
        }
        assert(self@ =~= other@);
    }

    /// The view has as many keys as there are entries.
    pub proof fn lemma_len(&self)
        requires
            self.wf(),
        ensures
            self@.dom().finite(),
            self@.dom().len() == self.items@.len(),
    {
        self.lemma_prefix_len(self.items@.len());
        let n = self.items@.len();
        assert(self@.dom() =~= Set::new(
            |key: K::Model| exists|i: int| 0 <= i < n && #[trigger] self.key_at(i) == key,
        ));
    }

    proof fn lemma_prefix_len(&self, n: nat)
        requires
            self.wf(),
            n <= self.items@.len(),
        ensures
            Set::new(
                |key: K::Model| exists|i: int| 0 <= i < n && #[trigger] self.key_at(i) == key,
            ).finite(),
            Set::new(
                |key: K::Model| exists|i: int| 0 <= i < n && #[trigger] self.key_at(i) == key,
            ).len() == n,
        decreases n,
    {
        let keys = Set::new(
            |key: K::Model| exists|i: int| 0 <= i < n && #[trigger] self.key_at(i) == key,
        );
        if n == 0 {
            assert(keys =~= Set::empty());
        } else {
            let last = self.key_at(n - 1);
            let m: nat = (n - 1) as nat;
            let fewer = Set::new(
                |key: K::Model| exists|i: int| 0 <= i < m && #[trigger] self.key_at(i) == key,
            );
            self.lemma_prefix_len(m);
            assert(!fewer.contains(last)) by {
                if fewer.contains(last) {
                    let i = choose|i: int| 0 <= i < m && #[trigger] self.key_at(i) == last;
                    K::irreflexive(last);
                }
            }
            assert(keys =~= fewer.insert(last));
        }
    }

    pub fn new() -> (map: Self)
        ensures
            map.wf(),
            map@ == Map::<K::Model, V::V>::empty(),
            map.items@.len() == 0,
    {
        let map = SortedMap { items: Vec::new() };
        assert(map@ =~= Map::<K::Model, V::V>::empty());
        map
    }

    /// The number of entries.
    pub fn len(&self) -> (len: usize)
        requires
            self.wf(),
        ensures
            len == self@.dom().len(),
            len == self.items@.len(),
    {
        proof {
            self.lemma_len();
        }
        self.items.len()
    }

    /// The position at which a key stands, or would be inserted.
    fn rank(&self, key: &K) -> (found: (usize, bool))
        requires
            self.wf(),
        ensures
            found.0 <= self.items@.len(),
            found.1 ==> found.0 < self.items@.len() && self.key_at(found.0 as int) == key.model(),
            found.1 == self@.contains_key(key.model()),
            forall|i: int| 0 <= i < found.0 ==> K::precedes(#[trigger] self.key_at(i), key.model()),
            !found.1 ==> forall|i: int|
                found.0 <= i < self.items@.len() ==> K::precedes(
                    key.model(),
                    #[trigger] self.key_at(i),
                ),
    {
        let mut low: usize = 0;
        let mut high: usize = self.items.len();
        while low < high
            invariant
                self.wf(),
                low <= high <= self.items@.len(),
                forall|i: int| 0 <= i < low ==> K::precedes(#[trigger] self.key_at(i), key.model()),
                forall|i: int|
                    high <= i < self.items@.len() ==> K::precedes(
                        key.model(),
                        #[trigger] self.key_at(i),
                    ),
            decreases high - low,
        {
            let middle: usize = low + (high - low) / 2;
            match self.items[middle].0.compare(key) {
                Place::Same => {
                    proof {
                        self.lemma_entry(middle as int);
                        assert forall|i: int| 0 <= i < middle implies K::precedes(
                            #[trigger] self.key_at(i),
                            key.model(),
                        ) by {
                            assert(K::precedes(self.key_at(i), self.key_at(middle as int)));
                        }
                    }
                    return (middle, true);
                },
                Place::Before => {
                    proof {
                        assert forall|i: int| 0 <= i < middle + 1 implies K::precedes(
                            #[trigger] self.key_at(i),
                            key.model(),
                        ) by {
                            if i < middle {
                                K::transitive(
                                    self.key_at(i),
                                    self.key_at(middle as int),
                                    key.model(),
                                );
                            }
                        }
                    }
                    low = middle + 1;
                },
                Place::After => {
                    proof {
                        assert forall|i: int| middle <= i < self.items@.len() implies K::precedes(
                            key.model(),
                            #[trigger] self.key_at(i),
                        ) by {
                            if middle < i {
                                K::transitive(
                                    key.model(),
                                    self.key_at(middle as int),
                                    self.key_at(i),
                                );
                            }
                        }
                    }
                    high = middle;
                },
            }
        }
        proof {
            if self@.contains_key(key.model()) {
                self.lemma_key(key.model());
                let p = self.position(key.model());
                K::irreflexive(key.model());
                if p < low {
                    assert(K::precedes(self.key_at(p), key.model()));
                } else {
                    assert(K::precedes(key.model(), self.key_at(p)));
                }
                assert(false);
            }
        }
        (low, false)
    }

    /// The position of a key, if the map holds it.
    pub fn find(&self, key: &K) -> (found: Option<usize>)
        requires
            self.wf(),
        ensures
            found is Some <==> self@.contains_key(key.model()),
            found matches Some(i) ==> i < self.items@.len() && self.key_at(i as int) == key.model()
                && self.items@[i as int].1@ == self@[key.model()],
    {
        let (position, present) = self.rank(key);
        if present {
            proof {
                self.lemma_entry(position as int);
            }
            Some(position)
        } else {
            None
        }
    }

    pub fn contains(&self, key: &K) -> (present: bool)
        requires
            self.wf(),
        ensures
            present == self@.contains_key(key.model()),
    {
        self.rank(key).1
    }

    pub fn get(&self, key: &K) -> (value: Option<&V>)
        requires
            self.wf(),
        ensures
            value is Some <==> self@.contains_key(key.model()),
            value matches Some(v) ==> v@ == self@[key.model()],
    {
        match self.find(key) {
            Some(position) => Some(&self.items[position].1),
            None => None,
        }
    }

    /// Puts a value under a key, replacing what stood there.
    pub fn insert(&mut self, key: K, value: V)
        requires
            old(self).wf(),
        ensures
            final(self).wf(),
            final(self)@ == old(self)@.insert(key.model(), value@),
            old(self)@.contains_key(key.model()) ==> final(self).items@ == old(self).items@.update(
                old(self).position(key.model()),
                (key, value),
            ),
            !old(self)@.contains_key(key.model()) ==> exists|p: int|
                0 <= p <= old(self).items@.len() && final(self).items@ == #[trigger] old(self).items@.insert(
                    p,
                    (key, value),
                ),
    {
        let ghost before = *self;
        let ghost model = key.model();
        let (position, present) = self.rank(&key);
        if present {
            self.items[position] = (key, value);
            proof {
                before.lemma_entry(position as int);
                assert forall|i: int| 0 <= i < self.items@.len() implies #[trigger] self.key_at(i)
                    == before.key_at(i) by {}
                self.lemma_replaced(&before, position as int);
            }
        } else {
            self.items.insert(position, (key, value));
            proof {
                let p = position as int;
                assert(self.items@ == before.items@.insert(p, (key, value)));
                assert forall|i: int, j: int| 0 <= i < j < self.items@.len() implies K::precedes(
                    self.key_at(i),
                    self.key_at(j),
                ) by {
                    let oi = if i < p { i } else { i - 1 };
                    let oj = if j < p { j } else { j - 1 };
                    if i == p {
                        assert(self.key_at(j) == before.key_at(j - 1));
                    } else if j == p {
                        assert(self.key_at(i) == before.key_at(i));
                    } else {
                        assert(self.key_at(i) == before.key_at(oi));
                        assert(self.key_at(j) == before.key_at(oj));
                    }
                }
                assert forall|k: K::Model| self@.contains_key(k) == before@.insert(
                    model,
                    value@,
                ).contains_key(k) by {
                    if self@.contains_key(k) && k != model {
                        self.lemma_key(k);
                        let q = self.position(k);
                        let o = if q < p { q } else { q - 1 };
                        assert(before.key_at(o) == self.key_at(q));
                        before.lemma_entry(o);
                    }
                    if before@.contains_key(k) {
                        before.lemma_key(k);
                        let q = before.position(k);
                        let n = if q < p { q } else { q + 1 };
                        assert(self.key_at(n) == before.key_at(q));
                        self.lemma_entry(n);
                    }
                    if k == model {
                        self.lemma_entry(p);
                    }
                }
                assert forall|k: K::Model| self@.contains_key(k) implies #[trigger] self@[k]
                    == before@.insert(model, value@)[k] by {
                    self.lemma_key(k);
                    let q = self.position(k);
                    if k == model {
                        self.lemma_entry(p);
                    } else {
                        let o = if q < p { q } else { q - 1 };
                        assert(self.items@[q] == before.items@[o]);
                        assert(before.key_at(o) == self.key_at(q));
                        before.lemma_entry(o);
                    }
                }
                assert(self@ =~= before@.insert(model, value@));
            }
        }
    }

    proof fn lemma_replaced(&self, before: &Self, position: int)
        requires
            before.wf(),
            0 <= position < before.items@.len(),
            self.items@.len() == before.items@.len(),
            forall|i: int|
                0 <= i < self.items@.len() ==> #[trigger] self.key_at(i) == before.key_at(i),
            forall|i: int|
                0 <= i < self.items@.len() && i != position ==> #[trigger] self.items@[i]
                    == before.items@[i],
        ensures
            self.wf(),
            self@ == before@.insert(before.key_at(position), self.items@[position].1@),
    {
        assert forall|i: int, j: int| 0 <= i < j < self.items@.len() implies K::precedes(
            self.key_at(i),
            self.key_at(j),
        ) by {
            assert(self.key_at(i) == before.key_at(i));
            assert(self.key_at(j) == before.key_at(j));
        }
        let key = before.key_at(position);
        let expected = before@.insert(key, self.items@[position].1@);
        assert(self.key_at(position) == key);
        assert forall|k: K::Model| self@.contains_key(k) == expected.contains_key(k) by {
            if self@.contains_key(k) {
                self.lemma_key(k);
                before.lemma_entry(self.position(k));
            }
            if before@.contains_key(k) {
                before.lemma_key(k);
                assert(self.key_at(before.position(k)) == k);
                self.lemma_entry(before.position(k));
            }
            if k == key {
                self.lemma_entry(position);
            }
        }
        assert forall|k: K::Model| self@.contains_key(k) implies #[trigger] self@[k]
            == expected[k] by {
            self.lemma_key(k);
            let q = self.position(k);
            before.lemma_entry(q);
            self.lemma_entry(position);
        }
        assert(self@ =~= expected);
    }

    /// Puts a value in place of the one at a position, keeping its key, and hands that one out.
    pub fn replace(&mut self, position: usize, value: V) -> (replaced: V)
        requires
            old(self).wf(),
            position < old(self).items@.len(),
        ensures
            final(self).wf(),
            final(self).items@ == old(self).items@.update(
                position as int,
                (old(self).items@[position as int].0, value),
            ),
            final(self)@ == old(self)@.insert(old(self).key_at(position as int), value@),
            replaced == old(self).items@[position as int].1,
    {
        let ghost before = *self;
        let mut replaced = value;
        core::mem::swap(&mut self.items[position].1, &mut replaced);
        proof {
            assert forall|i: int| 0 <= i < self.items@.len() implies #[trigger] self.key_at(i)
                == before.key_at(i) by {}
            self.lemma_replaced(&before, position as int);
        }
        replaced
    }

    /// Replaces the value at a position, keeping its key.
    pub fn set(&mut self, position: usize, value: V)
        requires
            old(self).wf(),
            position < old(self).items@.len(),
        ensures
            final(self).wf(),
            final(self).items@ == old(self).items@.update(
                position as int,
                (old(self).items@[position as int].0, value),
            ),
            final(self)@ == old(self)@.insert(old(self).key_at(position as int), value@),
    {
        let _ = self.replace(position, value);
    }

    /// Takes the entry of a key out, if there is one.
    pub fn remove(&mut self, key: &K) -> (value: Option<V>)
        requires
            old(self).wf(),
        ensures
            final(self).wf(),
            final(self)@ == old(self)@.remove(key.model()),
            value is Some <==> old(self)@.contains_key(key.model()),
            value matches Some(v) ==> v@ == old(self)@[key.model()],
            value matches Some(v) ==> final(self).items@ == old(self).items@.remove(
                old(self).position(key.model()),
            ) && v == old(self).items@[old(self).position(key.model())].1,
            value is None ==> final(self).items@ == old(self).items@,
    {
        let ghost before = *self;
        match self.find(key) {
            None => {
                assert(self@ =~= before@.remove(key.model()));
                None
            },
            Some(position) => {
                let entry = self.items.remove(position);
                proof {
                    let p = position as int;
                    before.lemma_entry(p);
                    assert forall|i: int, j: int|
                        0 <= i < j < self.items@.len() implies K::precedes(
                        self.key_at(i),
                        self.key_at(j),
                    ) by {
                        let oi = if i < p { i } else { i + 1 };
                        let oj = if j < p { j } else { j + 1 };
                        assert(self.key_at(i) == before.key_at(oi));
                        assert(self.key_at(j) == before.key_at(oj));
                    }
                    let expected = before@.remove(key.model());
                    assert forall|k: K::Model| self@.contains_key(k) == expected.contains_key(
                        k,
                    ) by {
                        if self@.contains_key(k) {
                            self.lemma_key(k);
                            let q = self.position(k);
                            let o = if q < p { q } else { q + 1 };
                            assert(before.key_at(o) == self.key_at(q));
                            before.lemma_entry(o);
                            before.lemma_entry(p);
                        }
                        if expected.contains_key(k) {
                            before.lemma_key(k);
                            let q = before.position(k);
                            let n = if q < p { q } else { q - 1 };
                            assert(self.key_at(n) == before.key_at(q));
                            self.lemma_entry(n);
                        }
                    }
                    assert forall|k: K::Model| self@.contains_key(k) implies #[trigger] self@[k]
                        == expected[k] by {
                        self.lemma_key(k);
                        let q = self.position(k);
                        let o = if q < p { q } else { q + 1 };
                        assert(self.items@[q] == before.items@[o]);
                        assert(before.key_at(o) == self.key_at(q));
                        before.lemma_entry(o);
                        before.lemma_entry(p);
                    }
                    assert(self@ =~= expected);
                }
                Some(entry.1)
            },
        }
    }
}

impl Clone for SortedMap<String, String> {
    fn clone(&self) -> (copy: Self)
        ensures
            copy.entries() == self.entries(),
            self.wf() ==> copy.wf() && copy@ == self@,
    {
        let mut items: Vec<(String, String)> = Vec::new();
        let mut i: usize = 0;
        while i < self.items.len()
            invariant
                i <= self.items@.len(),
                items@.len() == i,
                forall|j: int|
                    0 <= j < i ==> (#[trigger] items@[j]).0@ == self.items@[j].0@ && items@[j].1@
                        == self.items@[j].1@,
            decreases self.items@.len() - i,
        {
            let key = self.items[i].0.clone();
            let value = self.items[i].1.clone();
            items.push((key, value));
            i = i + 1;
        }
        let copy = SortedMap { items };
        proof {
            assert forall|j: int| 0 <= j < copy.items@.len() implies #[trigger] copy.key_at(j)
                == self.key_at(j) && copy.items@[j].1@ == self.items@[j].1@ by {
                assert(items@[j].0@ == self.items@[j].0@);
            }
            assert(copy.entries() =~= self.entries());
            if self.wf() {
                copy.lemma_same(self);
            }
        }
        copy
    }
}

} // verus!
