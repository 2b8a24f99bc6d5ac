//! A map from strings to values that keeps its keys in the order in which
//! they were first inserted.

use vstd::prelude::*;

verus! {

/// No key occurs twice in `e`.
pub open spec fn distinct_keys<V>(e: Seq<(Seq<char>, V)>) -> bool {
    forall|i: int, j: int| 0 <= i < j < e.len() ==> e[i].0 != e[j].0
}

/// The map that results from inserting the entries of `e` one after another.
pub open spec fn to_map<V>(e: Seq<(Seq<char>, V)>) -> Map<Seq<char>, V>
    decreases e.len(),
{
    if e.len() == 0 {
        Map::empty()
    } else {
        to_map(e.drop_last()).insert(e.last().0, e.last().1)
    }
}

/// Every key of the map is the key of some entry.
pub proof fn lemma_key_has_entry<V>(e: Seq<(Seq<char>, V)>, k: Seq<char>)
    requires
        to_map(e).contains_key(k),
    ensures
        exists|i: int| 0 <= i < e.len() && (#[trigger] e[i]).0 == k,
    decreases e.len(),
{
    if e.len() > 0 {
        if e.last().0 == k {
            assert(e[e.len() - 1].0 == k);
        } else {
            lemma_key_has_entry(e.drop_last(), k);
            let i = choose|i: int| 0 <= i < e.len() - 1 && (#[trigger] e.drop_last()[i]).0 == k;
            assert(e[i].0 == k);
        }
    }
}

/// With distinct keys, every entry is in the map under its key.
pub proof fn lemma_entry_in_map<V>(e: Seq<(Seq<char>, V)>, i: int)
    requires
        distinct_keys(e),
        0 <= i < e.len(),
    ensures
        to_map(e).contains_key(e[i].0),
        to_map(e)[e[i].0] == e[i].1,
    decreases e.len(),
{
    if i < e.len() - 1 {
        lemma_entry_in_map(e.drop_last(), i);
    }
}

/// With distinct keys, replacing the value of an entry is an insertion under its key.
pub proof fn lemma_replace_is_insert<V>(e: Seq<(Seq<char>, V)>, i: int, v: V)
    requires
        distinct_keys(e),
        0 <= i < e.len(),
    ensures
        to_map(e.update(i, (e[i].0, v))) == to_map(e).insert(e[i].0, v),
        distinct_keys(e.update(i, (e[i].0, v))),
    decreases e.len(),
{
    let k = e[i].0;
    let f = e.update(i, (k, v));
    if i == e.len() - 1 {
        assert(f.drop_last() =~= e.drop_last());
        assert(to_map(f) =~= to_map(e).insert(k, v));
    } else {
        lemma_replace_is_insert(e.drop_last(), i, v);
        assert(f.drop_last() =~= e.drop_last().update(i, (k, v)));
        assert(e.last().0 != k);
        assert(to_map(f) =~= to_map(e).insert(k, v));
    }
}

/// The map has as many keys as there are entries, when these are distinct.
pub proof fn lemma_map_len<V>(e: Seq<(Seq<char>, V)>)
    requires
        distinct_keys(e),
    ensures
        to_map(e).dom().finite(),
        to_map(e).dom().len() == e.len(),
    decreases e.len(),
{
    if e.len() > 0 {
        lemma_map_len(e.drop_last());
        if to_map(e.drop_last()).contains_key(e.last().0) {
            lemma_key_has_entry(e.drop_last(), e.last().0);
        }
    }
}

/// Index of the entry with key `k`, or `e.len()` if there is none.
pub open spec fn key_index<V>(e: Seq<(Seq<char>, V)>, k: Seq<char>) -> int
    decreases e.len(),
{
    if e.len() == 0 {
        0
    } else if e[0].0 == k {
        0
    } else {
        1 + key_index(e.skip(1), k)
    }
}

/// The entries after `v` is stored under `k`: in the place of the entry
/// with that key if there is one, else behind the last entry.
pub open spec fn put<V>(e: Seq<(Seq<char>, V)>, k: Seq<char>, v: V) -> Seq<(Seq<char>, V)> {
    let i = key_index(e, k);
    if 0 <= i < e.len() {
        e.update(i, (k, v))
    } else {
        e.push((k, v))
    }
}

/// `key_index` is the index of the first entry with the key.
pub proof fn lemma_key_index<V>(e: Seq<(Seq<char>, V)>, k: Seq<char>, i: int)
    requires
        0 <= i <= e.len(),
        forall|j: int| 0 <= j < i ==> e[j].0 != k,
        i < e.len() ==> e[i].0 == k,
    ensures
        key_index(e, k) == i,
    decreases e.len(),
{
    if e.len() > 0 && i > 0 {
        lemma_key_index(e.skip(1), k, i - 1);
    }
}

/// What `put` changes: the entry with the key gets the value, or a new
/// entry comes last; every other entry stays as and where it is.
pub proof fn lemma_put<V>(e: Seq<(Seq<char>, V)>, k: Seq<char>, v: V)
    ensures
        e.len() <= put(e, k, v).len() <= e.len() + 1,
        0 <= key_index(e, k) <= e.len(),
        put(e, k, v)[key_index(e, k)] == (k, v),
        put(e, k, v).len() == key_index(e, k) + 1 || put(e, k, v).len() == e.len(),
        key_index(e, k) < e.len() ==> e[key_index(e, k)].0 == k && put(e, k, v).len() == e.len(),
        forall|i: int| 0 <= i < e.len() && i != key_index(e, k) ==> put(e, k, v)[i] == e[i],
        forall|i: int| 0 <= i < key_index(e, k) ==> e[i].0 != k,
    decreases e.len(),
{
    if e.len() > 0 && e[0].0 != k {
        lemma_put(e.skip(1), k, v);
        assert forall|i: int| 0 <= i < key_index(e, k) implies e[i].0 != k by {
            if i > 0 {
                assert(e.skip(1)[i - 1] == e[i]);
            }
        }
        if key_index(e, k) < e.len() {
            assert(e.skip(1)[key_index(e.skip(1), k)] == e[key_index(e, k)]);
        }
    }
}

/// An insertion-ordered map with string keys.
#[derive(Debug)]
pub struct StrMap<V> {
    items: Vec<(String, V)>,
}

impl<V: Clone> Clone for StrMap<V> {
    /// A map with the same keys in the same order, each with a clone of its value.
    fn clone(&self) -> (r: Self)
        ensures
            r.entries().len() == self.entries().len(),
            forall|i: int|
                0 <= i < r.entries().len() ==> (#[trigger] r.entries()[i]).0 == self.entries()[i].0
                    && cloned(self.entries()[i].1, r.entries()[i].1),
    {
        proof {
            use_type_invariant(self);
        }
        let mut items: Vec<(String, V)> = Vec::new();
        let mut i: usize = 0;
        while i < self.items.len()
            invariant
                i <= self.items.len(),
                items@.len() == i,
                distinct_keys(self.entries()),
                forall|k: int|
                    0 <= k < i ==> (#[trigger] items@[k]).0@ == self.items@[k].0@ && cloned(
                        self.items@[k].1,
                        items@[k].1,
                    ),
            decreases self.items.len() - i,
        {
            items.push((self.items[i].0.clone(), self.items[i].1.clone()));
            i += 1;
        }
        proof {
            let e = Seq::new(items@.len(), |k: int| (items@[k].0@, items@[k].1));
            assert forall|a: int, b: int| 0 <= a < b < e.len() implies e[a].0 != e[b].0 by {
                assert(e[a].0 == self.entries()[a].0);
                assert(e[b].0 == self.entries()[b].0);
            }
        }
        StrMap { items }
    }
}

impl<V> View for StrMap<V> {
    type V = Map<Seq<char>, V>;

    open spec fn view(&self) -> Map<Seq<char>, V> {
        to_map(self.entries())
    }
}

impl<V> StrMap<V> {
    #[verifier::type_invariant]
    spec fn keys_are_distinct(&self) -> bool {
        distinct_keys(self.entries())
    }

    /// The entries in the order in which their keys were first inserted.
    pub closed spec fn entries(&self) -> Seq<(Seq<char>, V)> {
        Seq::new(self.items@.len(), |i: int| (self.items@[i].0@, self.items@[i].1))
    }

    /// An empty map.
    pub fn new() -> (m: Self)
        ensures
            m.entries() == Seq::<(Seq<char>, V)>::empty(),
            m@ == Map::<Seq<char>, V>::empty(),
    {
        let m = StrMap { items: Vec::new() };
        assert(m.entries() =~= Seq::<(Seq<char>, V)>::empty());
        m
    }

    /// The entries as the vector that `into_items` returns.
    pub closed spec fn items(&self) -> Vec<(String, V)> {
        self.items
    }

    /// The vector of the entries holds their names and values, in their order.
    pub proof fn lemma_items(&self)
        ensures
            self.items()@.len() == self.entries().len(),
            forall|i: int|
                0 <= i < self.items()@.len() ==> (#[trigger] self.items()@[i]).0@
                    == self.entries()[i].0 && self.items()@[i].1 == self.entries()[i].1,
    {
    }

    /// The entries as a vector, in their order.
    pub fn into_items(self) -> (items: Vec<(String, V)>)
        ensures
            items == self.items(),
            items@.len() == self.entries().len(),
            forall|i: int|
                0 <= i < items@.len() ==> (#[trigger] items@[i]).0@ == self.entries()[i].0
                    && items@[i].1 == self.entries()[i].1,
    {
        self.items
    }

    /// The number of keys.
    pub fn len(&self) -> (n: usize)
        ensures
            n == self.entries().len(),
            n == self@.dom().len(),
            distinct_keys(self.entries()),
    {
        proof {
            use_type_invariant(self);
            lemma_map_len(self.entries());
        }
        self.items.len()
    }

    /// Tests whether the map has no key.
    pub fn is_empty(&self) -> (b: bool)
        ensures
            b == (self.entries().len() == 0),
    {
        self.items.len() == 0
    }

    /// The key of the `i`-th entry.
    pub fn key_at(&self, i: usize) -> (k: &String)
        requires
            i < self.entries().len(),
        ensures
            k@ == self.entries()[i as int].0,
    {
        &self.items[i].0
    }

    /// The value of the `i`-th entry.
    pub fn value_at(&self, i: usize) -> (v: &V)
        requires
            i < self.entries().len(),
        ensures
            *v == self.entries()[i as int].1,
    {
        &self.items[i].1
    }

    /// The index of the entry with the given key, if there is one.
    fn position(&self, key: &str) -> (r: Option<usize>)
        ensures
            match r {
                Some(i) => i < self.entries().len() && self.entries()[i as int].0 == key@
                    && forall|j: int| 0 <= j < i ==> self.entries()[j].0 != key@,
                None => forall|i: int| 0 <= i < self.entries().len() ==> self.entries()[i].0 != key@,
            },
    {
        let wanted = key.to_owned();
        let mut i: usize = 0;
        while i < self.items.len()
            invariant
                i <= self.items.len(),
                wanted@ == key@,
                forall|k: int| 0 <= k < i ==> self.entries()[k].0 != key@,
            decreases self.items.len() - i,
        {
            if self.items[i].0 == wanted {
                return Some(i);
            }
            i += 1;
        }
        None
    }

    /// Tests whether `key` is in the map.
    pub fn contains_key(&self, key: &str) -> (b: bool)
        ensures
            b == self@.contains_key(key@),
    {
        match self.get(key) {
            Some(_) => true,
            None => false,
        }
    }

    /// The value stored under `key`, if there is one.
    pub fn get(&self, key: &str) -> (r: Option<&V>)
        ensures
            match r {
                Some(v) => self@.contains_key(key@) && *v == self@[key@],
                None => !self@.contains_key(key@),
            },
            match r {
                Some(v) => key_index(self.entries(), key@) < self.entries().len() && *v
                    == self.entries()[key_index(self.entries(), key@)].1,
                None => key_index(self.entries(), key@) == self.entries().len(),
            },
    {
        match self.position(key) {
            Some(i) => {
                proof {
                    use_type_invariant(self);
                    lemma_entry_in_map(self.entries(), i as int);
                    lemma_key_index(self.entries(), key@, i as int);
                }
                Some(&self.items[i].1)
            },
            None => {
                proof {
                    if self@.contains_key(key@) {
                        lemma_key_has_entry(self.entries(), key@);
                    }
                    lemma_key_index(self.entries(), key@, self.entries().len() as int);
                }
                None
            },
        }
    }

    /// Stores `value` under `key`. A key that is already present keeps its
    /// place in the order and gets the new value; a new key goes last.
    pub fn insert(&mut self, key: String, value: V)
        ensures
            final(self)@ == old(self)@.insert(key@, value),
            final(self).entries() == put(old(self).entries(), key@, value),
    {
        proof {
            use_type_invariant(&*self);
        }
        let ghost before = self.entries();
        let found = self.position(key.as_str());
        let mut items: Vec<(String, V)> = Vec::new();
        core::mem::swap(&mut self.items, &mut items);
        match found {
            Some(i) => {
                proof {
                    lemma_replace_is_insert(before, i as int, value);
                    lemma_key_index(before, key@, i as int);
                }
                items.set(i, (key, value));
            },
            None => {
                proof {
                    lemma_key_index(before, key@, before.len() as int);
                    assert(before.push((key@, value)).drop_last() =~= before);
                }
                items.push((key, value));
            },
        }
        proof {
            let after = Seq::new(items@.len(), |i: int| (items@[i].0@, items@[i].1));
            match found {
                Some(i) => {
                    assert(after =~= before.update(i as int, (key@, value)));
                },
                None => {
                    assert(after =~= before.push((key@, value)));
                },
            }
        }
        core::mem::swap(&mut self.items, &mut items);
    }
}

} // verus!
