use crate::text::{
    comes_before, lemma_order_flip, lemma_order_same, lemma_precedes_transitive, precedes,
    same_text,
};
use vstd::prelude::*;

verus! {

/// Each key comes strictly before the keys behind it, in dictionary order.
pub open spec fn ascending(keys: Seq<Seq<char>>) -> bool {
    forall|i: int, j: int|
        0 <= i < j < keys.len() ==> precedes(#[trigger] keys[i], #[trigger] keys[j])
}

/// The map that holds `values[i]` under `keys[i]`.
pub open spec fn entries_map<V>(keys: Seq<Seq<char>>, values: Seq<V>) -> Map<Seq<char>, V> {
    Map::new(|k: Seq<char>| keys.contains(k), |k: Seq<char>| values[keys.index_of(k)])
}

/// The position at which `k` stands among ascending keys, or at which it
/// would be put: behind the keys that come before it. The search starts at `from`.
pub open spec fn slot(keys: Seq<Seq<char>>, k: Seq<char>, from: int) -> int
    decreases keys.len() - from,
{
    if 0 <= from < keys.len() && precedes(keys[from], k) {
        slot(keys, k, from + 1)
    } else {
        from
    }
}

/// The position lies between the start of the search and the end of the keys.
pub proof fn lemma_slot_bounds(keys: Seq<Seq<char>>, k: Seq<char>, from: int)
    requires
        0 <= from <= keys.len(),
    ensures
        from <= slot(keys, k, from) <= keys.len(),
    decreases keys.len() - from,
{
    if from < keys.len() && precedes(keys[from], k) {
        lemma_slot_bounds(keys, k, from + 1);
    }
}

/// The keys after `k` has been put among them.
pub open spec fn put_key(keys: Seq<Seq<char>>, k: Seq<char>) -> Seq<Seq<char>> {
    let i = slot(keys, k, 0);
    if i < keys.len() && keys[i] == k {
        keys
    } else {
        keys.insert(i, k)
    }
}

/// The values after `v` has been put under `k`: in place of the value that
/// `k` had, or at the position that `k` takes.
pub open spec fn put_value<V>(keys: Seq<Seq<char>>, values: Seq<V>, k: Seq<char>, v: V) -> Seq<V> {
    let i = slot(keys, k, 0);
    if i < keys.len() && keys[i] == k {
        values.update(i, v)
    } else {
        values.insert(i, v)
    }
}

/// No key of an ascending sequence occurs twice: each is found at its own position.
pub proof fn lemma_ascending_distinct(keys: Seq<Seq<char>>, i: int)
    requires
        ascending(keys),
        0 <= i < keys.len(),
    ensures
        keys.index_of(keys[i]) == i,
{
    let j = keys.index_of(keys[i]);
    assert(0 <= j < keys.len() && keys[j] == keys[i]);
    lemma_order_same(keys[i], keys[j]);
    if j < i {
        assert(precedes(keys[j], keys[i]));
    } else if i < j {
        assert(precedes(keys[i], keys[j]));
    }
}

/// The keys of a sequence of entries, as texts.
pub open spec fn keys_of<V>(entries: Seq<(String, V)>) -> Seq<Seq<char>> {
    Seq::new(entries.len(), |i: int| entries[i].0@)
}

/// A map from texts to values, kept in dictionary order of its keys: it is
/// walked as a `BTreeMap` with strings as keys is. The entries stand in a
/// vector, because Verus can be told the order of two texts by `lex_order`,
/// and knows nothing of the order in which a map of std holds strings.
#[derive(Debug, PartialEq)]
pub struct StrMap<V> {
    entries: Vec<(String, V)>,
}

impl<V> View for StrMap<V> {
    type V = Map<Seq<char>, V>;

    open spec fn view(&self) -> Map<Seq<char>, V> {
        entries_map(self.keys(), self.values())
    }
}

impl<V> StrMap<V> {
    /// The entries, in the order in which the map is walked.
    pub closed spec fn entries(&self) -> Seq<(String, V)> {
        self.entries@
    }

    /// The keys, in the order in which the map is walked.
    pub open spec fn keys(&self) -> Seq<Seq<char>> {
        keys_of(self.entries())
    }

    /// The values, each at the position of its key.
    pub open spec fn values(&self) -> Seq<V> {
        Seq::new(self.entries().len(), |i: int| self.entries()[i].1)
    }

    /// A map is larger than its entries: a function that works through a
    /// map may call itself on a value of it.
    pub proof fn lemma_entries_decrease(&self)
        ensures
            decreases_to!(self => self.entries()),
    {
    }

    /// As many values as keys, and the keys ascending.
    pub open spec fn wf(&self) -> bool {
        &&& self.keys().len() == self.values().len()
        &&& ascending(self.keys())
    }

    #[verifier::type_invariant]
    spec fn inv(&self) -> bool {
        ascending(self.keys())
    }

    /// An empty map.
    pub fn new() -> (m: Self)
        ensures
            m.keys() == Seq::<Seq<char>>::empty(),
            m.values() == Seq::<V>::empty(),
            m@ == Map::<Seq<char>, V>::empty(),
    {
        let m = StrMap { entries: Vec::new() };
        assert(m.keys() =~= Seq::<Seq<char>>::empty());
        assert(m.values() =~= Seq::<V>::empty());
        assert(m@ =~= Map::<Seq<char>, V>::empty());
        m
    }

    /// The keys of the map are the keys that it is walked by, and no others.
    pub proof fn lemma_dom(&self)
        requires
            self.wf(),
        ensures
            self@.dom().finite(),
            self@.dom().len() == self.keys().len(),
            self@.dom() == self.keys().to_set(),
            forall|i: int|
                0 <= i < self.keys().len() ==> self@[#[trigger] self.keys()[i]]
                    == self.values()[i],
    {
        let keys = self.keys();
        assert(self@.dom() =~= keys.to_set());
        assert(keys.no_duplicates()) by {
            assert forall|i: int, j: int|
                0 <= i < keys.len() && 0 <= j < keys.len() && i != j implies keys[i]
                != keys[j] by {
                lemma_ascending_distinct(keys, i);
                lemma_ascending_distinct(keys, j);
            }
        }
        keys.unique_seq_to_set();
        assert forall|i: int| 0 <= i < keys.len() implies self@[#[trigger] keys[i]]
            == self.values()[i] by {
            lemma_ascending_distinct(keys, i);
        }
    }

    /// The number of entries.
    pub fn len(&self) -> (n: usize)
        ensures
            n == self.keys().len(),
            self.wf(),
    {
        proof {
            use_type_invariant(self);
        }
        self.entries.len()
    }

    /// The key at position `i`.
    pub fn key_at(&self, i: usize) -> (k: &String)
        requires
            i < self.keys().len(),
        ensures
            k@ == self.keys()[i as int],
    {
        &self.entries[i].0
    }

    /// The value at position `i`.
    pub fn value_at(&self, i: usize) -> (v: &V)
        requires
            i < self.keys().len(),
        ensures
            *v == self.values()[i as int],
    {
        &self.entries[i].1
    }

    /// The position of `key`, if the map holds it.
    pub fn find(&self, key: &str) -> (r: Option<usize>)
        ensures
            self.wf(),
            match r {
                Some(i) => i < self.keys().len() && self.keys()[i as int] == key@,
                None => !self.keys().contains(key@),
            },
            r is Some <==> self@.contains_key(key@),
    {
        proof {
            use_type_invariant(self);
        }
        let n = self.entries.len();
        let mut i: usize = 0;
        while i < n
            invariant
                n == self.entries@.len(),
                i <= n,
                self.wf(),
                forall|j: int| 0 <= j < i ==> self.keys()[j] != key@,
            decreases n - i,
        {
            if same_text(self.entries[i].0.as_str(), key) {
                assert(self.keys()[i as int] == key@);
                return Some(i);
            }
            i += 1;
        }
        None
    }

    /// The value held under `key`, if there is one.
    pub fn get(&self, key: &str) -> (r: Option<&V>)
        ensures
            match r {
                Some(v) => self@.contains_key(key@) && *v == self@[key@],
                None => !self@.contains_key(key@),
            },
    {
        match self.find(key) {
            Some(i) => {
                proof {
                    lemma_ascending_distinct(self.keys(), i as int);
                }
                Some(&self.entries[i].1)
            },
            None => None,
        }
    }

    /// Whether the map holds `key`.
    pub fn contains_key(&self, key: &str) -> (r: bool)
        ensures
            r == self@.contains_key(key@),
    {
        self.find(key).is_some()
    }

    /// Puts `value` under `key`, which comes behind every key of the map.
    pub fn push_last(&mut self, key: String, value: V)
        requires
            forall|i: int| 0 <= i < old(self).keys().len() ==> precedes(
                #[trigger] old(self).keys()[i],
                key@,
            ),
        ensures
            final(self).entries() == old(self).entries().push((key, value)),
            final(self).keys() == old(self).keys().push(key@),
            final(self).values() == old(self).values().push(value),
            final(self).wf(),
    {
        proof {
            use_type_invariant(&*self);
        }
        let ghost keys0 = self.keys();
        let mut entries: Vec<(String, V)> = Vec::new();
        std::mem::swap(&mut entries, &mut self.entries);
        entries.push((key, value));
        assert(keys_of(entries@) =~= keys0.push(key@));
        self.entries = entries;
        assert(self.values() =~= old(self).values().push(value));
    }

    /// The entries of the map, in the order of their keys.
    pub fn into_entries(self) -> (r: Vec<(String, V)>)
        ensures
            r@ == self.entries(),
            ascending(keys_of(r@)),
    {
        proof {
            use_type_invariant(&self);
        }
        self.entries
    }

    /// Puts `value` under `key`; a value that was held under `key` is replaced.
    pub fn insert(&mut self, key: String, value: V)
        ensures
            final(self).keys() == put_key(old(self).keys(), key@),
            final(self).values() == put_value(old(self).keys(), old(self).values(), key@, value),
            final(self)@ == old(self)@.insert(key@, value),
            final(self).wf(),
    {
        proof {
            use_type_invariant(&*self);
        }
        let ghost keys0 = self.keys();
        let ghost vals0 = self.values();
        let mut entries: Vec<(String, V)> = Vec::new();
        std::mem::swap(&mut entries, &mut self.entries);
        let n = entries.len();
        let mut i: usize = 0;
        while i < n && comes_before(entries[i].0.as_str(), key.as_str())
            invariant
                n == entries@.len(),
                i <= n,
                keys0.len() == n,
                forall|j: int| 0 <= j < n ==> keys0[j] == (#[trigger] entries@[j]).0@,
                forall|j: int| 0 <= j < i ==> precedes(#[trigger] keys0[j], key@),
                slot(keys0, key@, i as int) == slot(keys0, key@, 0),
            decreases n - i,
        {
            i += 1;
        }
        if i < n && same_text(entries[i].0.as_str(), key.as_str()) {
            proof {
                lemma_replace(keys0, vals0, i as int, value);
            }
            entries.set(i, (key, value));
            assert(keys_of(entries@) =~= keys0);
            self.entries = entries;
            assert(self.keys() =~= keys0);
            assert(self.values() =~= vals0.update(i as int, value));
        } else {
            proof {
                if i < n {
                    lemma_order_flip(keys0[i as int], key@);
                    lemma_order_same(keys0[i as int], key@);
                }
                lemma_insert(keys0, vals0, i as int, key@, value);
            }
            entries.insert(i, (key, value));
            assert(keys_of(entries@) =~= keys0.insert(i as int, key@));
            self.entries = entries;
            assert(self.keys() =~= keys0.insert(i as int, key@));
            assert(self.values() =~= vals0.insert(i as int, value));
        }
    }
}

/// Replacing the value at the position of a key is `Map::insert` under that key.
proof fn lemma_replace<V>(keys: Seq<Seq<char>>, vals: Seq<V>, i: int, v: V)
    requires
        ascending(keys),
        keys.len() == vals.len(),
        0 <= i < keys.len(),
    ensures
        entries_map(keys, vals.update(i, v)) == entries_map(keys, vals).insert(keys[i], v),
{
    let a = entries_map(keys, vals.update(i, v));
    let b = entries_map(keys, vals).insert(keys[i], v);
    assert forall|k: Seq<char>| a.contains_key(k) implies a[k] == b[k] by {
        let j = keys.index_of(k);
        lemma_ascending_distinct(keys, j);
        lemma_ascending_distinct(keys, i);
    }
    assert(a =~= b);
}

/// Putting a new key at the place where the order wants it is `Map::insert`, and
/// keeps the keys ascending.
proof fn lemma_insert<V>(keys: Seq<Seq<char>>, vals: Seq<V>, i: int, k: Seq<char>, v: V)
    requires
        ascending(keys),
        keys.len() == vals.len(),
        0 <= i <= keys.len(),
        forall|j: int| 0 <= j < i ==> precedes(#[trigger] keys[j], k),
        i < keys.len() ==> precedes(k, keys[i]),
    ensures
        ascending(keys.insert(i, k)),
        entries_map(keys.insert(i, k), vals.insert(i, v)) == entries_map(keys, vals).insert(k, v),
{
    let keys2 = keys.insert(i, k);
    let vals2 = vals.insert(i, v);
    assert forall|x: int, y: int| 0 <= x < y < keys2.len() implies precedes(
        #[trigger] keys2[x],
        #[trigger] keys2[y],
    ) by {
        if y == i {
            assert(keys2[x] == keys[x]);
        } else if x == i {
            assert(keys2[y] == keys[y - 1]);
            if y - 1 > i {
                assert(precedes(keys[i], keys[y - 1]));
                lemma_precedes_transitive(k, keys[i], keys[y - 1]);
            }
        } else {
            let x0 = if x < i { x } else { x - 1 };
            let y0 = if y < i { y } else { y - 1 };
            assert(keys2[x] == keys[x0]);
            assert(keys2[y] == keys[y0]);
            assert(precedes(keys[x0], keys[y0]));
        }
    }
    let a = entries_map(keys2, vals2);
    let b = entries_map(keys, vals).insert(k, v);
    assert(keys2[i] == k);
    assert forall|q: Seq<char>| a.contains_key(q) <==> b.contains_key(q) by {
        if keys.contains(q) {
            let j = keys.index_of(q);
            let j2 = if j < i { j } else { j + 1 };
            assert(keys2[j2] == q);
        }
        if keys2.contains(q) {
            let j2 = keys2.index_of(q);
            if j2 != i {
                let j = if j2 < i { j2 } else { j2 - 1 };
                assert(keys[j] == q);
            }
        }
    }
    assert forall|q: Seq<char>| a.contains_key(q) implies a[q] == b[q] by {
        let j2 = keys2.index_of(q);
        lemma_ascending_distinct(keys2, j2);
        lemma_ascending_distinct(keys2, i);
        if j2 != i {
            let j = if j2 < i { j2 } else { j2 - 1 };
            assert(keys[j] == q);
            lemma_ascending_distinct(keys, j);
            assert(q != k);
        }
    }
    assert(a =~= b);
}

} // verus!
