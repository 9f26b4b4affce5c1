//! A map from strings to values, kept in the order of its keys.

use vstd::prelude::*;
use vstd::string::*;

use crate::text::{
    before, before_irreflexive, before_total, before_transitive, place, Place,
};

verus! {

/// Whether every key stands before the ones that follow it.
pub open spec fn ascending(keys: Seq<Seq<char>>) -> bool {
    forall|i: int, j: int| 0 <= i < j < keys.len() ==> before(#[trigger] keys[i], #[trigger] keys[j])
}

/// Whether `keys` and `values`, read side by side, list the entries of `map` in
/// the order of the keys.
pub open spec fn lists<T>(keys: Seq<Seq<char>>, values: Seq<T>, map: Map<Seq<char>, T>) -> bool {
    &&& ascending(keys)
    &&& keys.len() == values.len()
    &&& forall|i: int|
        0 <= i < keys.len() ==> map.dom().contains(#[trigger] keys[i]) && map[keys[i]] == values[i]
    &&& forall|k: Seq<char>| #[trigger] map.dom().contains(k) ==> keys.contains(k)
}

/// A map from strings to values. The keys are unique and ordered by their bytes.
#[derive(Debug)]
pub struct OrderedMap<V> {
    keys: Vec<String>,
    values: Vec<V>,
}

impl<V: View> OrderedMap<V> {
    /// The keys in their order.
    pub closed spec fn key_list(&self) -> Seq<Seq<char>> {
        self.keys@.map_values(|k: String| k@)
    }

    /// The values in the order of their keys.
    pub closed spec fn value_list(&self) -> Seq<V::V> {
        self.values@.map_values(|v: V| v@)
    }

    /// The keys are in order and each has its value.
    pub closed spec fn wf(&self) -> bool {
        &&& ascending(self.key_list())
        &&& self.keys@.len() == self.values@.len()
    }
}

impl<V: View> View for OrderedMap<V> {
    type V = Map<Seq<char>, V::V>;

    closed spec fn view(&self) -> Map<Seq<char>, V::V> {
        Map::new(
            |k: Seq<char>| self.key_list().contains(k),
            |k: Seq<char>| self.value_list()[self.key_list().index_of(k)],
        )
    }
}

/// The lists that order a map are determined by the map.
pub proof fn listing_unique<T>(
    keys: Seq<Seq<char>>,
    values: Seq<T>,
    other_keys: Seq<Seq<char>>,
    other_values: Seq<T>,
    map: Map<Seq<char>, T>,
)
    requires
        lists(keys, values, map),
        lists(other_keys, other_values, map),
    ensures
        keys == other_keys,
        values == other_values,
{
    lemma_same_members(keys, other_keys);
    assert forall|i: int| 0 <= i < values.len() implies values[i] == other_values[i] by {
        assert(map[keys[i]] == values[i]);
        assert(map[other_keys[i]] == other_values[i]);
    }
    assert(values =~= other_values);
}

proof fn lemma_same_members(a: Seq<Seq<char>>, b: Seq<Seq<char>>)
    requires
        ascending(a),
        ascending(b),
        forall|k: Seq<char>| a.contains(k) <==> b.contains(k),
    ensures
        a == b,
    decreases a.len(),
{
    if a.len() == 0 {
        if b.len() > 0 {
            assert(b.contains(b[0]));
        }
        assert(a =~= b);
    } else {
        assert(a.contains(a.last()));
        let x = a.last();
        assert(b.contains(x));
        let y = b.last();
        assert(b.contains(y));
        assert(a.contains(y));
        let i = a.index_of(y);
        let j = b.index_of(x);
        before_irreflexive(x);
        if x != y {
            assert(before(a[i], a[a.len() - 1]));
            assert(before(b[j], b[b.len() - 1]));
            before_transitive(x, y, x);
        }
        let p = a.drop_last();
        let q = b.drop_last();
        assert forall|k: Seq<char>| p.contains(k) <==> q.contains(k) by {
            if p.contains(k) {
                let n = p.index_of(k);
                assert(before(a[n], a[a.len() - 1]));
                assert(a[n] == k);
                assert(a.contains(k));
                let m = b.index_of(k);
                assert(b[m] == k);
                assert(q[m] == k);
            }
            if q.contains(k) {
                let n = q.index_of(k);
                assert(before(b[n], b[b.len() - 1]));
                assert(b[n] == k);
                assert(b.contains(k));
                let m = a.index_of(k);
                assert(a[m] == k);
                assert(p[m] == k);
            }
        }
        lemma_same_members(p, q);
        assert(a =~= p.push(x));
        assert(b =~= q.push(y));
    }
}

impl<V: View> OrderedMap<V> {
    /// The map's two lists list its entries.
    pub proof fn lemma_lists(&self)
        requires
            self.wf(),
        ensures
            lists(self.key_list(), self.value_list(), self@),
    {
        let keys = self.key_list();
        assert forall|i: int| 0 <= i < keys.len() implies self@.dom().contains(#[trigger] keys[i])
            && self@[keys[i]] == self.value_list()[i] by {
            assert(keys.contains(keys[i]));
            let j = keys.index_of(keys[i]);
            before_irreflexive(keys[i]);
            assert(j == i);
        }
    }

    /// There are as many entries as places in the order.
    pub proof fn lemma_len(&self)
        requires
            self.wf(),
        ensures
            self@.dom().finite(),
            self@.dom().len() == self.key_list().len(),
    {
        self.lemma_lists();
        let keys = self.key_list();
        assert forall|i: int, j: int| 0 <= i < keys.len() && 0 <= j < keys.len() && i != j implies keys[i]
            != keys[j] by {
            before_irreflexive(keys[i]);
            if i < j {
                assert(before(keys[i], keys[j]));
            } else {
                assert(before(keys[j], keys[i]));
            }
        }
        keys.unique_seq_to_set();
        assert(keys.to_set() =~= self@.dom());
    }

    /// A map without entries.
    pub fn new() -> (r: Self)
        ensures
            r.wf(),
            r@ == Map::<Seq<char>, V::V>::empty(),
    {
        let r = OrderedMap { keys: Vec::new(), values: Vec::new() };
        assert(r@ =~= Map::<Seq<char>, V::V>::empty());
        r
    }

    /// The number of entries.
    pub fn len(&self) -> (r: usize)
        requires
            self.wf(),
        ensures
            r == self.key_list().len(),
            r == self.value_list().len(),
    {
        self.keys.len()
    }

    /// The key at a place of the order.
    pub fn key_at(&self, index: usize) -> (r: &String)
        requires
            self.wf(),
            index < self.key_list().len(),
        ensures
            r@ == self.key_list()[index as int],
    {
        &self.keys[index]
    }

    /// The value at a place of the order.
    pub fn value_at(&self, index: usize) -> (r: &V)
        requires
            self.wf(),
            index < self.value_list().len(),
        ensures
            r@ == self.value_list()[index as int],
    {
        &self.values[index]
    }

    /// The first place whose key does not stand before `key`, and whether the key
    /// there is `key`.
    fn locate(&self, key: &str) -> (r: (usize, bool))
        requires
            self.wf(),
        ensures
            r.0 <= self.key_list().len(),
            forall|i: int| 0 <= i < r.0 ==> before(#[trigger] self.key_list()[i], key@),
            forall|i: int|
                r.0 <= i < self.key_list().len() ==> !before(#[trigger] self.key_list()[i], key@),
            r.1 ==> r.0 < self.key_list().len() && self.key_list()[r.0 as int] == key@,
            r.1 == self.key_list().contains(key@),
    {
        let ghost keys = self.key_list();
        let mut low: usize = 0;
        let mut high: usize = self.keys.len();
        while low < high
            invariant
                self.wf(),
                keys == self.key_list(),
                low <= high <= keys.len(),
                forall|i: int| 0 <= i < low ==> before(#[trigger] keys[i], key@),
                forall|i: int| high <= i < keys.len() ==> !before(#[trigger] keys[i], key@),
            decreases high - low,
        {
            let middle: usize = low + (high - low) / 2;
            let at = place(self.keys[middle].as_str(), key);
            assert(keys[middle as int] == self.keys@[middle as int]@);
            if at == Place::Before {
                proof {
                    assert forall|i: int| 0 <= i < middle + 1 implies before(
                        #[trigger] keys[i],
                        key@,
                    ) by {
                        if i < middle {
                            before_transitive(keys[i], keys[middle as int], key@);
                        }
                    }
                }
                low = middle + 1;
            } else {
                proof {
                    assert forall|i: int| middle <= i < keys.len() implies !before(
                        #[trigger] keys[i],
                        key@,
                    ) by {
                        if middle < i && before(keys[i], key@) {
                            before_transitive(keys[middle as int], keys[i], key@);
                        }
                    }
                }
                high = middle;
            }
        }
        let found = low < self.keys.len() && place(self.keys[low].as_str(), key) == Place::Same;
        proof {
            if low < keys.len() {
                assert(keys[low as int] == self.keys@[low as int]@);
            }
            if keys.contains(key@) {
                let i = keys.index_of(key@);
                before_irreflexive(key@);
                assert(low <= i);
                if low < i {
                    assert(before(keys[low as int], keys[i]));
                }
            }
        }
        (low, found)
    }

    /// Whether the map has an entry for `key`.
    pub fn contains_key(&self, key: &str) -> (r: bool)
        requires
            self.wf(),
        ensures
            r == self@.dom().contains(key@),
    {
        let (_, found) = self.locate(key);
        found
    }

    /// The value of `key`.
    pub fn get(&self, key: &str) -> (r: Option<&V>)
        requires
            self.wf(),
        ensures
            r is Some <==> self@.dom().contains(key@),
            r matches Some(v) ==> v@ == self@[key@],
    {
        let (index, found) = self.locate(key);
        if found {
            proof {
                self.lemma_lists();
            }
            Some(&self.values[index])
        } else {
            None
        }
    }

    proof fn lemma_insert_at(self, after: Self, index: int, key: Seq<char>, value: V::V)
        requires
            self.wf(),
            0 <= index <= self.key_list().len(),
            forall|i: int| 0 <= i < index ==> before(#[trigger] self.key_list()[i], key),
            forall|i: int|
                index <= i < self.key_list().len() ==> !before(#[trigger] self.key_list()[i], key),
            !self.key_list().contains(key),
            after.key_list() == self.key_list().insert(index, key),
            after.value_list() == self.value_list().insert(index, value),
        ensures
            after.wf(),
            after@ == self@.insert(key, value),
    {
        let keys = self.key_list();
        let next = after.key_list();
        assert forall|i: int| index <= i < keys.len() implies before(key, #[trigger] keys[i]) by {
            before_total(key, keys[i]);
            assert(keys.contains(keys[i]));
        }
        assert forall|i: int, j: int| 0 <= i < j < next.len() implies before(
            #[trigger] next[i],
            #[trigger] next[j],
        ) by {
            if i < index {
                assert(next[i] == keys[i]);
                if j < index {
                    assert(next[j] == keys[j]);
                } else if j > index {
                    assert(next[j] == keys[j - 1]);
                }
            } else {
                assert(next[j] == keys[j - 1]);
                if i > index {
                    assert(next[i] == keys[i - 1]);
                }
            }
        }
        assert(after.key_list().len() == after.keys@.len());
        assert(after.value_list().len() == after.values@.len());
        self.lemma_lists();
        after.lemma_lists();
        assert forall|k: Seq<char>| after@.dom().contains(k) <==> self@.insert(
            key,
            value,
        ).dom().contains(k) by {
            if after@.dom().contains(k) {
                let i = next.index_of(k);
                if i < index {
                    assert(keys[i] == k);
                } else if i > index {
                    assert(keys[i - 1] == k);
                }
            }
            if self@.dom().contains(k) {
                let i = keys.index_of(k);
                if i < index {
                    assert(next[i] == k);
                } else {
                    assert(next[i + 1] == k);
                }
            }
            if k == key {
                assert(next[index] == k);
            }
        }
        assert forall|k: Seq<char>| after@.dom().contains(k) implies after@[k] == self@.insert(
            key,
            value,
        )[k] by {
            let i = next.index_of(k);
            assert(after@[next[i]] == after.value_list()[i]);
            if i < index {
                assert(self@[keys[i]] == self.value_list()[i]);
            } else if i > index {
                assert(self@[keys[i - 1]] == self.value_list()[i - 1]);
            }
        }
        assert(after@ =~= self@.insert(key, value));
    }

    fn insert_at(&mut self, index: usize, key: String, value: V)
        requires
            old(self).wf(),
            index <= old(self).key_list().len(),
            forall|i: int| 0 <= i < index ==> before(#[trigger] old(self).key_list()[i], key@),
            forall|i: int|
                index <= i < old(self).key_list().len() ==> !before(
                    #[trigger] old(self).key_list()[i],
                    key@,
                ),
            !old(self).key_list().contains(key@),
        ensures
            final(self).wf(),
            final(self)@ == old(self)@.insert(key@, value@),
    {
        let ghost was = *self;
        let ghost k = key@;
        let ghost v = value@;
        self.keys.insert(index, key);
        self.values.insert(index, value);
        proof {
            assert(self.key_list() =~= was.key_list().insert(index as int, k));
            assert(self.value_list() =~= was.value_list().insert(index as int, v));
            was.lemma_insert_at(*self, index as int, k, v);
        }
    }

    /// Give `key` the value `value`, in place of the one it had.
    pub fn insert(&mut self, key: String, value: V)
        requires
            old(self).wf(),
        ensures
            final(self).wf(),
            final(self)@ == old(self)@.insert(key@, value@),
    {
        let (index, found) = self.locate(key.as_str());
        if found {
            let ghost was = *self;
            let ghost v = value@;
            self.values.set(index, value);
            proof {
                was.lemma_lists();
                assert(self.key_list() =~= was.key_list());
                assert(self.value_list() =~= was.value_list().update(index as int, v));
                self.lemma_lists();
                let want = was@.insert(key@, v);
                assert forall|k: Seq<char>| self@.dom().contains(k) implies self@[k] == want[k] by {
                    let i = was.key_list().index_of(k);
                    assert(was@[was.key_list()[i]] == was.value_list()[i]);
                    assert(self@[self.key_list()[i]] == self.value_list()[i]);
                    before_irreflexive(k);
                }
                assert(self@ =~= want);
            }
        } else {
            self.insert_at(index, key, value);
        }
    }

    /// Give `key` the value `value` unless it has one.
    pub fn insert_if_absent(&mut self, key: String, value: V)
        requires
            old(self).wf(),
        ensures
            final(self).wf(),
            final(self)@ == if old(self)@.dom().contains(key@) {
                old(self)@
            } else {
                old(self)@.insert(key@, value@)
            },
    {
        let (index, found) = self.locate(key.as_str());
        if !found {
            self.insert_at(index, key, value);
        }
    }

    /// Take the entry of `key` out, if there is one.
    pub fn remove(&mut self, key: &str) -> (r: Option<V>)
        requires
            old(self).wf(),
        ensures
            final(self).wf(),
            final(self)@ == old(self)@.remove(key@),
            r is Some <==> old(self)@.dom().contains(key@),
            r matches Some(v) ==> v@ == old(self)@[key@],
    {
        let (index, found) = self.locate(key);
        if !found {
            assert(self@ =~= self@.remove(key@));
            return None;
        }
        let ghost was = *self;
        proof {
            was.lemma_lists();
        }
        let _ = self.keys.remove(index);
        let value = self.values.remove(index);
        proof {
            let keys = was.key_list();
            let next = self.key_list();
            assert(next =~= keys.remove(index as int));
            assert(self.value_list() =~= was.value_list().remove(index as int));
            assert forall|i: int, j: int| 0 <= i < j < next.len() implies before(
                #[trigger] next[i],
                #[trigger] next[j],
            ) by {
                let a = if i < index { i } else { i + 1 };
                let b = if j < index { j } else { j + 1 };
                assert(next[i] == keys[a]);
                assert(next[j] == keys[b]);
            }
            self.lemma_lists();
            before_irreflexive(key@);
            assert forall|k: Seq<char>| self@.dom().contains(k) <==> was@.remove(
                key@,
            ).dom().contains(k) by {
                if self@.dom().contains(k) {
                    let i = next.index_of(k);
                    let a = if i < index { i } else { i + 1 };
                    assert(next[i] == keys[a]);
                    if a < index {
                        assert(before(keys[a], keys[index as int]));
                    } else {
                        assert(before(keys[index as int], keys[a]));
                    }
                }
                if was@.remove(key@).dom().contains(k) {
                    let a = keys.index_of(k);
                    let i = if a < index { a } else { a - 1 };
                    assert(next[i] == k);
                }
            }
            assert forall|k: Seq<char>| self@.dom().contains(k) implies self@[k] == was@.remove(
                key@,
            )[k] by {
                let i = next.index_of(k);
                let a = if i < index { i } else { i + 1 };
                assert(next[i] == keys[a]);
                assert(self@[next[i]] == self.value_list()[i]);
                assert(was@[keys[a]] == was.value_list()[a]);
            }
            assert(self@ =~= was@.remove(key@));
        }
        Some(value)
    }

    /// The values in the order of their keys.
    pub fn into_values(self) -> (r: Vec<V>)
        requires
            self.wf(),
        ensures
            r@.map_values(|v: V| v@) == self.value_list(),
    {
        self.values
    }
}

} // verus!
