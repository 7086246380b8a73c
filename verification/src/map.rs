//! Maps whose entries are held in ascending key order, the containers of the value model.
use vstd::prelude::*;
use crate::ipld::{ipld_views, Ipld};
use crate::order::{ascending, ascending_keys, compare_keys, key_lt, lemma_key_order, KeyOrder};

verus! {

/// Where `key` stands in `keys`, if it occurs there.
pub open spec fn position<K>(keys: Seq<K>, key: K) -> Option<int> {
    if exists|i: int| 0 <= i < keys.len() && keys[i] == key {
        Some(choose|i: int| 0 <= i < keys.len() && keys[i] == key)
    } else {
        None
    }
}

/// Whether `after` is `before` with `key` put in at position `p`.
pub open spec fn inserted_at<K>(before: Seq<K>, after: Seq<K>, key: K, p: int) -> bool {
    0 <= p <= before.len() && after == before.insert(p, key)
}

/// Whether the keys and values `after` are those `before` with `key` and `value` put in
/// at one position.
pub open spec fn put_in<K>(
    keys_before: Seq<K>,
    values_before: Seq<Ipld>,
    keys_after: Seq<K>,
    values_after: Seq<Ipld>,
    key: K,
    value: Ipld,
) -> bool {
    exists|p: int| #[trigger]
        inserted_at(keys_before, keys_after, key, p) && values_after == values_before.insert(
            p,
            value,
        )
}

/// Whether no key occurs twice.
pub open spec fn distinct<K>(keys: Seq<K>) -> bool {
    forall|i: int, j: int| 0 <= i < j < keys.len() ==> keys[i] != keys[j]
}

/// The value that stands at the position of `key`, if the key occurs.
pub open spec fn lookup_in<K>(keys: Seq<K>, values: Seq<Ipld>, key: K) -> Option<Ipld> {
    match position(keys, key) {
        Some(i) => Some(values[i]),
        None => None,
    }
}

/// Among distinct keys, a key stands at one position only.
pub proof fn lemma_position<K>(keys: Seq<K>, i: int)
    requires
        distinct(keys),
        0 <= i < keys.len(),
    ensures
        position(keys, keys[i]) == Some(i),
{
    let j = choose|j: int| 0 <= j < keys.len() && keys[j] == keys[i];
    if j < i {
        assert(keys[j] != keys[i]);
    } else if i < j {
        assert(keys[i] != keys[j]);
    }
}

/// A key that is put in maps to its value, and every other key maps to what it mapped
/// to before.
pub proof fn lemma_lookup_after_insert<K>(
    keys: Seq<K>,
    values: Seq<Ipld>,
    p: int,
    key: K,
    value: Ipld,
)
    requires
        distinct(keys),
        keys.len() == values.len(),
        0 <= p <= keys.len(),
        position(keys, key) is None,
    ensures
        distinct(keys.insert(p, key)),
        lookup_in(keys.insert(p, key), values.insert(p, value), key) == Some(value),
        forall|k: K|
            k != key ==> #[trigger] lookup_in(keys.insert(p, key), values.insert(p, value), k)
                == lookup_in(keys, values, k),
{
    let after = keys.insert(p, key);
    let values_after = values.insert(p, value);
    assert forall|i: int, j: int| 0 <= i < j < after.len() implies after[i] != after[j] by {
        let a = if i < p {
            i
        } else {
            i - 1
        };
        let b = if j < p {
            j
        } else {
            j - 1
        };
        if i == p {
            assert(keys[b] != key);
        } else if j == p {
            assert(keys[a] != key);
        } else {
            assert(keys[a] != keys[b]);
        }
    }
    assert(after[p] == key);
    lemma_position(after, p);
    assert forall|k: K| k != key implies #[trigger] lookup_in(after, values_after, k) == lookup_in(
        keys,
        values,
        k,
    ) by {
        match position(keys, k) {
            Some(i) => {
                let i2 = if i < p {
                    i
                } else {
                    i + 1
                };
                assert(after[i2] == k);
                lemma_position(after, i2);
            },
            None => {
                if position(after, k) is Some {
                    let j = position(after, k)->0;
                    let i = if j < p {
                        j
                    } else {
                        j - 1
                    };
                    assert(keys[i] == k);
                }
            },
        }
    }
}

/// A key whose value is replaced maps to the new value, and every other key maps to
/// what it mapped to before.
pub proof fn lemma_lookup_after_update<K>(keys: Seq<K>, values: Seq<Ipld>, i: int, value: Ipld)
    requires
        distinct(keys),
        keys.len() == values.len(),
        0 <= i < keys.len(),
    ensures
        lookup_in(keys, values.update(i, value), keys[i]) == Some(value),
        forall|k: K|
            k != keys[i] ==> #[trigger] lookup_in(keys, values.update(i, value), k) == lookup_in(
                keys,
                values,
                k,
            ),
{
    lemma_position(keys, i);
    assert forall|k: K| k != keys[i] implies #[trigger] lookup_in(keys, values.update(i, value), k)
        == lookup_in(keys, values, k) by {
        if position(keys, k) is Some {
            assert(position(keys, k)->0 != i);
        }
    }
}

/// A key that is taken out maps to nothing, and every other key maps to what it mapped
/// to before.
pub proof fn lemma_lookup_after_remove<K>(keys: Seq<K>, values: Seq<Ipld>, i: int)
    requires
        distinct(keys),
        keys.len() == values.len(),
        0 <= i < keys.len(),
    ensures
        distinct(keys.remove(i)),
        lookup_in(keys.remove(i), values.remove(i), keys[i]) is None,
        forall|k: K|
            k != keys[i] ==> #[trigger] lookup_in(keys.remove(i), values.remove(i), k) == lookup_in(
                keys,
                values,
                k,
            ),
{
    let after = keys.remove(i);
    let values_after = values.remove(i);
    assert forall|a: int, b: int| 0 <= a < b < after.len() implies after[a] != after[b] by {
        let a2 = if a < i {
            a
        } else {
            a + 1
        };
        let b2 = if b < i {
            b
        } else {
            b + 1
        };
        assert(keys[a2] != keys[b2]);
    }
    if position(after, keys[i]) is Some {
        let j = position(after, keys[i])->0;
        let j2 = if j < i {
            j
        } else {
            j + 1
        };
        assert(keys[j2] == keys[i]);
        if j2 < i {
            assert(keys[j2] != keys[i]);
        } else {
            assert(keys[i] != keys[j2]);
        }
    }
    assert forall|k: K| k != keys[i] implies #[trigger] lookup_in(after, values_after, k)
        == lookup_in(keys, values, k) by {
        match position(keys, k) {
            Some(j) => {
                let j2 = if j < i {
                    j
                } else {
                    j - 1
                };
                assert(after[j2] == k);
                lemma_position(after, j2);
            },
            None => {
                if position(after, k) is Some {
                    let j = position(after, k)->0;
                    let j2 = if j < i {
                        j
                    } else {
                        j + 1
                    };
                    assert(keys[j2] == k);
                }
            },
        }
    }
}

/// Ascending integer keys are distinct.
pub proof fn lemma_ascending_distinct(keys: Seq<int>)
    requires
        ascending(keys),
    ensures
        distinct(keys),
{
}

/// Ascending string keys are distinct.
pub proof fn lemma_ascending_keys_distinct(keys: Seq<Seq<char>>)
    requires
        ascending_keys(keys),
    ensures
        distinct(keys),
{
    assert forall|i: int, j: int| 0 <= i < j < keys.len() implies keys[i] != keys[j] by {
        assert(key_lt(keys[i], keys[j]));
        lemma_key_order(keys[i], keys[i], keys[i]);
    }
}

/// In ascending integer keys, a key stands at one position only.
pub proof fn lemma_position_integer(keys: Seq<int>, i: int)
    requires
        ascending(keys),
        0 <= i < keys.len(),
    ensures
        position(keys, keys[i]) == Some(i),
{
    let j = choose|j: int| 0 <= j < keys.len() && keys[j] == keys[i];
    if j < i {
        assert(keys[j] < keys[i]);
    } else if i < j {
        assert(keys[i] < keys[j]);
    }
}

/// In ascending string keys, a key stands at one position only.
pub proof fn lemma_position_string(keys: Seq<Seq<char>>, i: int)
    requires
        ascending_keys(keys),
        0 <= i < keys.len(),
    ensures
        position(keys, keys[i]) == Some(i),
{
    let j = choose|j: int| 0 <= j < keys.len() && keys[j] == keys[i];
    lemma_key_order(keys[i], keys[i], keys[i]);
    if j < i {
        assert(key_lt(keys[j], keys[i]));
    } else if i < j {
        assert(key_lt(keys[i], keys[j]));
    }
}

spec fn integer_keys(entries: Seq<(i64, Ipld)>) -> Seq<int> {
    Seq::new(entries.len(), |i: int| entries[i].0 as int)
}

spec fn string_keys(entries: Seq<(String, Ipld)>) -> Seq<Seq<char>> {
    Seq::new(entries.len(), |i: int| entries[i].0@)
}

spec fn entry_values<K>(entries: Seq<(K, Ipld)>) -> Seq<Ipld> {
    Seq::new(entries.len(), |i: int| entries[i].1)
}

/// A map from 64-bit integers to values. Its entries are kept in ascending key order, so
/// no key occurs twice.
#[derive(Debug, PartialEq)]
pub struct IntegerMap {
    entries: Vec<(i64, Ipld)>,
}

impl IntegerMap {
    /// The keys, in the order in which the map holds them.
    pub closed spec fn keys(&self) -> Seq<int> {
        integer_keys(self.entries@)
    }

    /// The values, each at the position of its key.
    pub closed spec fn values(&self) -> Seq<Ipld> {
        entry_values(self.entries@)
    }

    /// There is one value for each key, and the keys are strictly ascending.
    pub open spec fn well_formed(&self) -> bool {
        &&& self.keys().len() == self.values().len()
        &&& ascending(self.keys())
    }

    /// The value that `key` maps to.
    pub open spec fn lookup(&self, key: int) -> Option<Ipld> {
        lookup_in(self.keys(), self.values(), key)
    }

    #[verifier::type_invariant]
    closed spec fn ordered(&self) -> bool {
        ascending(integer_keys(self.entries@))
    }

    /// Each value of a map is a smaller term than the map.
    pub proof fn lemma_value_decreases(&self, i: int)
        requires
            0 <= i < self.values().len(),
        ensures
            decreases_to!(self => self.values()[i]),
    {
        vstd::std_specs::vec::axiom_vec_index_decreases(self.entries, i);
        assert(decreases_to!(self.entries@[i] => self.entries@[i].1));
    }

    /// A map has as many values as keys, and no more than a `usize` counts.
    pub proof fn lemma_lengths(&self)
        ensures
            self.keys().len() == self.values().len(),
            self.values().len() <= usize::MAX,
    {
        assert(self.entries@.len() == self.entries.len());
    }

    /// Makes an empty map.
    pub fn new() -> (r: Self)
        ensures
            r.well_formed(),
            r.keys() == Seq::<int>::empty(),
            r.values() == Seq::<Ipld>::empty(),
    {
        let entries: Vec<(i64, Ipld)> = Vec::new();
        assert(integer_keys(entries@) =~= Seq::<int>::empty());
        assert(entry_values(entries@) =~= Seq::<Ipld>::empty());
        IntegerMap { entries }
    }

    /// The number of entries.
    pub fn len(&self) -> (n: usize)
        ensures
            self.well_formed(),
            n == self.keys().len(),
    {
        proof {
            use_type_invariant(self);
        }
        self.entries.len()
    }

    /// The key at position `i`.
    pub fn key_at(&self, i: usize) -> (r: Option<i64>)
        ensures
            self.well_formed(),
            i < self.keys().len() ==> r == Some(self.keys()[i as int] as i64),
            i >= self.keys().len() ==> r is None,
    {
        proof {
            use_type_invariant(self);
        }
        if i < self.entries.len() {
            Some(self.entries[i].0)
        } else {
            None
        }
    }

    /// The value at position `i`.
    pub fn value_at(&self, i: usize) -> (r: Option<&Ipld>)
        ensures
            self.well_formed(),
            i < self.values().len() ==> r == Some(&self.values()[i as int]),
            i >= self.values().len() ==> r is None,
    {
        proof {
            use_type_invariant(self);
        }
        if i < self.entries.len() {
            Some(&self.entries[i].1)
        } else {
            None
        }
    }

    /// Binary search: the position of `key`, or the position at which it would be
    /// inserted.
    fn search(&self, key: i64) -> (r: Result<usize, usize>)
        ensures
            match r {
                Ok(i) => i < self.keys().len() && self.keys()[i as int] == key,
                Err(p) => {
                    &&& p <= self.keys().len()
                    &&& forall|j: int| 0 <= j < p ==> self.keys()[j] < key
                    &&& forall|j: int| p <= j < self.keys().len() ==> key < self.keys()[j]
                },
            },
    {
        proof {
            use_type_invariant(self);
        }
        let mut lo: usize = 0;
        let mut hi: usize = self.entries.len();
        while lo < hi
            invariant
                lo <= hi <= self.entries@.len(),
                ascending(integer_keys(self.entries@)),
                forall|j: int| 0 <= j < lo ==> integer_keys(self.entries@)[j] < key,
                forall|j: int| hi <= j < self.entries@.len() ==> key < integer_keys(self.entries@)[j],
            decreases hi - lo,
        {
            let mid: usize = lo + (hi - lo) / 2;
            let k: i64 = self.entries[mid].0;
            assert(integer_keys(self.entries@)[mid as int] == k);
            if k == key {
                return Ok(mid);
            } else if k < key {
                lo = mid + 1;
            } else {
                hi = mid;
            }
        }
        Err(lo)
    }

    /// The value that `key` maps to.
    pub fn get(&self, key: i64) -> (r: Option<&Ipld>)
        ensures
            self.well_formed(),
            match r {
                Some(v) => self.lookup(key as int) == Some(*v),
                None => self.lookup(key as int) is None,
            },
    {
        proof {
            use_type_invariant(self);
        }
        match self.search(key) {
            Ok(i) => {
                proof {
                    lemma_position_integer(self.keys(), i as int);
                }
                Some(&self.entries[i].1)
            },
            Err(_) => None,
        }
    }

    /// Maps `key` to `value`, and returns the value that it mapped to before. A new key
    /// takes the place that keeps the keys ascending.
    pub fn insert(&mut self, key: i64, value: Ipld) -> (r: Option<Ipld>)
        ensures
            final(self).well_formed(),
            r == old(self).lookup(key as int),
            final(self).lookup(key as int) == Some(value),
            forall|k: int| k != key ==> #[trigger] final(self).lookup(k) == old(self).lookup(k),
            match position(old(self).keys(), key as int) {
                Some(i) => {
                    &&& final(self).keys() == old(self).keys()
                    &&& final(self).values() == old(self).values().update(i, value)
                },
                None => put_in(
                    old(self).keys(),
                    old(self).values(),
                    final(self).keys(),
                    final(self).values(),
                    key as int,
                    value,
                ),
            },
    {
        proof {
            use_type_invariant(&*self);
        }
        let ghost before = self.entries@;
        let found = self.search(key);
        let mut entries: Vec<(i64, Ipld)> = Vec::new();
        assert(integer_keys(entries@) =~= Seq::<int>::empty());
        core::mem::swap(&mut self.entries, &mut entries);
        proof {
            lemma_ascending_distinct(integer_keys(before));
        }
        let r = match found {
            Ok(i) => {
                proof {
                    lemma_position_integer(integer_keys(before), i as int);
                    lemma_lookup_after_update(
                        integer_keys(before),
                        entry_values(before),
                        i as int,
                        value,
                    );
                }
                let (_, previous) = entries.remove(i);
                entries.insert(i, (key, value));
                assert(integer_keys(entries@) =~= integer_keys(before));
                assert(entry_values(entries@) =~= entry_values(before).update(i as int, value));
                Some(previous)
            },
            Err(p) => {
                proof {
                    lemma_lookup_after_insert(
                        integer_keys(before),
                        entry_values(before),
                        p as int,
                        key as int,
                        value,
                    );
                }
                entries.insert(p, (key, value));
                assert(integer_keys(entries@) =~= integer_keys(before).insert(p as int, key as int));
                assert(entry_values(entries@) =~= entry_values(before).insert(p as int, value));
                None
            },
        };
        core::mem::swap(&mut self.entries, &mut entries);
        proof {
            match found {
                Ok(_) => {},
                Err(p) => {
                    assert(inserted_at(old(self).keys(), self.keys(), key as int, p as int));
                },
            }
        }
        r
    }

    /// Removes `key`, and returns the value that it mapped to.
    pub fn remove(&mut self, key: i64) -> (r: Option<Ipld>)
        ensures
            final(self).well_formed(),
            r == old(self).lookup(key as int),
            final(self).lookup(key as int) is None,
            forall|k: int| k != key ==> #[trigger] final(self).lookup(k) == old(self).lookup(k),
            match position(old(self).keys(), key as int) {
                Some(i) => {
                    &&& final(self).keys() == old(self).keys().remove(i)
                    &&& final(self).values() == old(self).values().remove(i)
                },
                None => {
                    &&& final(self).keys() == old(self).keys()
                    &&& final(self).values() == old(self).values()
                },
            },
    {
        proof {
            use_type_invariant(&*self);
        }
        let ghost before = self.entries@;
        let found = self.search(key);
        let mut entries: Vec<(i64, Ipld)> = Vec::new();
        assert(integer_keys(entries@) =~= Seq::<int>::empty());
        core::mem::swap(&mut self.entries, &mut entries);
        proof {
            lemma_ascending_distinct(integer_keys(before));
        }
        let r = match found {
            Ok(i) => {
                proof {
                    lemma_position_integer(integer_keys(before), i as int);
                    lemma_lookup_after_remove(integer_keys(before), entry_values(before), i as int);
                }
                let (_, previous) = entries.remove(i);
                assert(integer_keys(entries@) =~= integer_keys(before).remove(i as int));
                assert(entry_values(entries@) =~= entry_values(before).remove(i as int));
                Some(previous)
            },
            Err(_) => None,
        };
        core::mem::swap(&mut self.entries, &mut entries);
        r
    }
}

impl Clone for IntegerMap {
    /// A deep copy.
    fn clone(&self) -> (r: Self)
        ensures
            r.well_formed(),
            r.keys() == self.keys(),
            ipld_views(r.values()) == ipld_views(self.values()),
        decreases self,
    {
        proof {
            use_type_invariant(self);
        }
        let mut out: Vec<(i64, Ipld)> = Vec::new();
        let mut i: usize = 0;
        assert(entry_values(out@) =~= entry_values(self.entries@).take(0));
        while i < self.entries.len()
            invariant
                i <= self.entries.len(),
                out@.len() == i,
                forall|j: int| 0 <= j < i ==> out@[j].0 == self.entries@[j].0,
                ipld_views(entry_values(out@)) == ipld_views(
                    entry_values(self.entries@).take(i as int),
                ),
            decreases self.entries.len() - i,
        {
            proof {
                vstd::std_specs::vec::axiom_vec_index_decreases(self.entries, i as int);
            }
            let ghost before = entry_values(out@);
            let value = self.entries[i].1.clone();
            out.push((self.entries[i].0, value));
            proof {
                let taken = entry_values(self.entries@).take(i + 1);
                let after = entry_values(out@);
                assert(after.drop_last() =~= before);
                assert(taken.drop_last() =~= entry_values(self.entries@).take(i as int));
                assert(ipld_views(after) == ipld_views(after.drop_last()).push(after.last().view()));
                assert(ipld_views(taken) == ipld_views(taken.drop_last()).push(
                    taken.last().view(),
                ));
            }
            i += 1;
        }
        assert(entry_values(self.entries@).take(i as int) =~= entry_values(self.entries@));
        assert(integer_keys(out@) =~= integer_keys(self.entries@));
        IntegerMap { entries: out }
    }
}

/// A map from strings to values. Its entries are kept in ascending key order, the order of
/// the keys' UTF-8 encodings, so no key occurs twice.
#[derive(Debug, PartialEq)]
pub struct StringMap {
    entries: Vec<(String, Ipld)>,
}

impl StringMap {
    /// The keys, in the order in which the map holds them.
    pub closed spec fn keys(&self) -> Seq<Seq<char>> {
        string_keys(self.entries@)
    }

    /// The values, each at the position of its key.
    pub closed spec fn values(&self) -> Seq<Ipld> {
        entry_values(self.entries@)
    }

    /// There is one value for each key, and the keys are strictly ascending.
    pub open spec fn well_formed(&self) -> bool {
        &&& self.keys().len() == self.values().len()
        &&& ascending_keys(self.keys())
    }

    /// The value that `key` maps to.
    pub open spec fn lookup(&self, key: Seq<char>) -> Option<Ipld> {
        lookup_in(self.keys(), self.values(), key)
    }

    #[verifier::type_invariant]
    closed spec fn ordered(&self) -> bool {
        ascending_keys(string_keys(self.entries@))
    }

    /// Each value of a map is a smaller term than the map.
    pub proof fn lemma_value_decreases(&self, i: int)
        requires
            0 <= i < self.values().len(),
        ensures
            decreases_to!(self => self.values()[i]),
    {
        vstd::std_specs::vec::axiom_vec_index_decreases(self.entries, i);
        assert(decreases_to!(self.entries@[i] => self.entries@[i].1));
    }

    /// A map has as many values as keys, and no more than a `usize` counts.
    pub proof fn lemma_lengths(&self)
        ensures
            self.keys().len() == self.values().len(),
            self.values().len() <= usize::MAX,
    {
        assert(self.entries@.len() == self.entries.len());
    }

    /// Makes an empty map.
    pub fn new() -> (r: Self)
        ensures
            r.well_formed(),
            r.keys() == Seq::<Seq<char>>::empty(),
            r.values() == Seq::<Ipld>::empty(),
    {
        let entries: Vec<(String, Ipld)> = Vec::new();
        assert(string_keys(entries@) =~= Seq::<Seq<char>>::empty());
        assert(entry_values(entries@) =~= Seq::<Ipld>::empty());
        StringMap { entries }
    }

    /// The number of entries.
    pub fn len(&self) -> (n: usize)
        ensures
            self.well_formed(),
            n == self.keys().len(),
    {
        proof {
            use_type_invariant(self);
        }
        self.entries.len()
    }

    /// The key at position `i`.
    pub fn key_at(&self, i: usize) -> (r: Option<&str>)
        ensures
            self.well_formed(),
            i < self.keys().len() ==> r is Some && r->0@ == self.keys()[i as int],
            i >= self.keys().len() ==> r is None,
    {
        proof {
            use_type_invariant(self);
        }
        if i < self.entries.len() {
            Some(self.entries[i].0.as_str())
        } else {
            None
        }
    }

    /// The value at position `i`.
    pub fn value_at(&self, i: usize) -> (r: Option<&Ipld>)
        ensures
            self.well_formed(),
            i < self.values().len() ==> r == Some(&self.values()[i as int]),
            i >= self.values().len() ==> r is None,
    {
        proof {
            use_type_invariant(self);
        }
        if i < self.entries.len() {
            Some(&self.entries[i].1)
        } else {
            None
        }
    }

    /// Binary search: the position of `key`, or the position at which it would be
    /// inserted.
    fn search(&self, key: &str) -> (r: Result<usize, usize>)
        ensures
            match r {
                Ok(i) => i < self.keys().len() && self.keys()[i as int] == key@,
                Err(p) => {
                    &&& p <= self.keys().len()
                    &&& forall|j: int| 0 <= j < p ==> key_lt(self.keys()[j], key@)
                    &&& forall|j: int| p <= j < self.keys().len() ==> key_lt(key@, self.keys()[j])
                },
            },
    {
        proof {
            use_type_invariant(self);
        }
        let ghost keys = string_keys(self.entries@);
        let mut lo: usize = 0;
        let mut hi: usize = self.entries.len();
        while lo < hi
            invariant
                lo <= hi <= self.entries@.len(),
                keys == string_keys(self.entries@),
                ascending_keys(keys),
                forall|j: int| 0 <= j < lo ==> key_lt(keys[j], key@),
                forall|j: int| hi <= j < keys.len() ==> key_lt(key@, keys[j]),
            decreases hi - lo,
        {
            let mid: usize = lo + (hi - lo) / 2;
            assert(keys[mid as int] == self.entries@[mid as int].0@);
            match compare_keys(self.entries[mid].0.as_str(), key) {
                KeyOrder::Same => {
                    return Ok(mid);
                },
                KeyOrder::Before => {
                    assert forall|j: int| 0 <= j < mid + 1 implies key_lt(keys[j], key@) by {
                        if j < mid {
                            assert(key_lt(keys[j], keys[mid as int]));
                            lemma_key_order(keys[j], keys[mid as int], key@);
                        }
                    }
                    lo = mid + 1;
                },
                KeyOrder::After => {
                    assert forall|j: int| mid <= j < keys.len() implies key_lt(key@, keys[j]) by {
                        if mid < j {
                            assert(key_lt(keys[mid as int], keys[j]));
                            lemma_key_order(key@, keys[mid as int], keys[j]);
                        }
                    }
                    hi = mid;
                },
            }
        }
        Err(lo)
    }

    /// The value that `key` maps to.
    pub fn get(&self, key: &str) -> (r: Option<&Ipld>)
        ensures
            self.well_formed(),
            match r {
                Some(v) => self.lookup(key@) == Some(*v),
                None => self.lookup(key@) is None,
            },
    {
        proof {
            use_type_invariant(self);
        }
        match self.search(key) {
            Ok(i) => {
                proof {
                    lemma_position_string(self.keys(), i as int);
                }
                Some(&self.entries[i].1)
            },
            Err(p) => {
                proof {
                    lemma_absent(self.keys(), key@, p as int);
                }
                None
            },
        }
    }

    /// Maps `key` to `value`, and returns the value that it mapped to before. A new key
    /// takes the place that keeps the keys ascending.
    pub fn insert(&mut self, key: String, value: Ipld) -> (r: Option<Ipld>)
        ensures
            final(self).well_formed(),
            r == old(self).lookup(key@),
            final(self).lookup(key@) == Some(value),
            forall|k: Seq<char>| k != key@ ==> #[trigger] final(self).lookup(k) == old(self).lookup(k),
            match position(old(self).keys(), key@) {
                Some(i) => {
                    &&& final(self).keys() == old(self).keys()
                    &&& final(self).values() == old(self).values().update(i, value)
                },
                None => put_in(
                    old(self).keys(),
                    old(self).values(),
                    final(self).keys(),
                    final(self).values(),
                    key@,
                    value,
                ),
            },
    {
        proof {
            use_type_invariant(&*self);
        }
        let ghost before = self.entries@;
        let found = self.search(key.as_str());
        let mut entries: Vec<(String, Ipld)> = Vec::new();
        assert(string_keys(entries@) =~= Seq::<Seq<char>>::empty());
        core::mem::swap(&mut self.entries, &mut entries);
        proof {
            lemma_ascending_keys_distinct(string_keys(before));
        }
        let r = match found {
            Ok(i) => {
                proof {
                    lemma_position_string(string_keys(before), i as int);
                    lemma_lookup_after_update(
                        string_keys(before),
                        entry_values(before),
                        i as int,
                        value,
                    );
                }
                let (_, previous) = entries.remove(i);
                entries.insert(i, (key, value));
                assert(string_keys(entries@) =~= string_keys(before));
                assert(entry_values(entries@) =~= entry_values(before).update(i as int, value));
                Some(previous)
            },
            Err(p) => {
                proof {
                    lemma_absent(string_keys(before), key@, p as int);
                    lemma_lookup_after_insert(
                        string_keys(before),
                        entry_values(before),
                        p as int,
                        key@,
                        value,
                    );
                }
                entries.insert(p, (key, value));
                assert(string_keys(entries@) =~= string_keys(before).insert(p as int, key@));
                assert(entry_values(entries@) =~= entry_values(before).insert(p as int, value));
                None
            },
        };
        core::mem::swap(&mut self.entries, &mut entries);
        proof {
            match found {
                Ok(_) => {},
                Err(p) => {
                    assert(inserted_at(old(self).keys(), self.keys(), key@, p as int));
                },
            }
        }
        r
    }

    /// Removes `key`, and returns the value that it mapped to.
    pub fn remove(&mut self, key: &str) -> (r: Option<Ipld>)
        ensures
            final(self).well_formed(),
            r == old(self).lookup(key@),
            final(self).lookup(key@) is None,
            forall|k: Seq<char>| k != key@ ==> #[trigger] final(self).lookup(k) == old(self).lookup(k),
            match position(old(self).keys(), key@) {
                Some(i) => {
                    &&& final(self).keys() == old(self).keys().remove(i)
                    &&& final(self).values() == old(self).values().remove(i)
                },
                None => {
                    &&& final(self).keys() == old(self).keys()
                    &&& final(self).values() == old(self).values()
                },
            },
    {
        proof {
            use_type_invariant(&*self);
        }
        let ghost before = self.entries@;
        let found = self.search(key);
        let mut entries: Vec<(String, Ipld)> = Vec::new();
        assert(string_keys(entries@) =~= Seq::<Seq<char>>::empty());
        core::mem::swap(&mut self.entries, &mut entries);
        proof {
            lemma_ascending_keys_distinct(string_keys(before));
        }
        let r = match found {
            Ok(i) => {
                proof {
                    lemma_position_string(string_keys(before), i as int);
                    lemma_lookup_after_remove(string_keys(before), entry_values(before), i as int);
                }
                let (_, previous) = entries.remove(i);
                assert(string_keys(entries@) =~= string_keys(before).remove(i as int));
                assert(entry_values(entries@) =~= entry_values(before).remove(i as int));
                Some(previous)
            },
            Err(p) => {
                proof {
                    lemma_absent(string_keys(before), key@, p as int);
                }
                None
            },
        };
        core::mem::swap(&mut self.entries, &mut entries);
        r
    }
}

/// A key that stands between the keys before `p` and those from `p` on is none of them.
proof fn lemma_absent(keys: Seq<Seq<char>>, key: Seq<char>, p: int)
    requires
        0 <= p <= keys.len(),
        forall|j: int| 0 <= j < p ==> key_lt(keys[j], key),
        forall|j: int| p <= j < keys.len() ==> key_lt(key, keys[j]),
    ensures
        position(keys, key) is None,
{
    lemma_key_order(key, key, key);
}

impl Clone for StringMap {
    /// A deep copy.
    fn clone(&self) -> (r: Self)
        ensures
            r.well_formed(),
            r.keys() == self.keys(),
            ipld_views(r.values()) == ipld_views(self.values()),
        decreases self,
    {
        proof {
            use_type_invariant(self);
        }
        let mut out: Vec<(String, Ipld)> = Vec::new();
        let mut i: usize = 0;
        assert(entry_values(out@) =~= entry_values(self.entries@).take(0));
        while i < self.entries.len()
            invariant
                i <= self.entries.len(),
                out@.len() == i,
                forall|j: int| 0 <= j < i ==> out@[j].0@ == self.entries@[j].0@,
                ipld_views(entry_values(out@)) == ipld_views(
                    entry_values(self.entries@).take(i as int),
                ),
            decreases self.entries.len() - i,
        {
            proof {
                vstd::std_specs::vec::axiom_vec_index_decreases(self.entries, i as int);
            }
            let ghost before = entry_values(out@);
            let value = self.entries[i].1.clone();
            out.push((self.entries[i].0.clone(), value));
            proof {
                let taken = entry_values(self.entries@).take(i + 1);
                let after = entry_values(out@);
                assert(after.drop_last() =~= before);
                assert(taken.drop_last() =~= entry_values(self.entries@).take(i as int));
                assert(ipld_views(after) == ipld_views(after.drop_last()).push(after.last().view()));
                assert(ipld_views(taken) == ipld_views(taken.drop_last()).push(
                    taken.last().view(),
                ));
            }
            i += 1;
        }
        assert(entry_values(self.entries@).take(i as int) =~= entry_values(self.entries@));
        assert(string_keys(out@) =~= string_keys(self.entries@));
        StringMap { entries: out }
    }
}

} // verus!
