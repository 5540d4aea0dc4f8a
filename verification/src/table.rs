//! A table with text keys whose entries can be walked.
//!
//! The entries stand in a vector, in no particular order, and an index says where the entry of a
//! key is.
use vstd::hash_map::StringHashMap;
use vstd::prelude::*;

use crate::totals;

verus! {

broadcast use {vstd::hash_map::group_hash_map_axioms, vstd::std_specs::hash::group_hash_axioms};

/// A table with text keys.
pub struct Table<V> {
    index: StringHashMap<usize>,
    entries: Vec<(String, V)>,
}

impl<V> View for Table<V> {
    type V = Map<Seq<char>, V>;

    closed spec fn view(&self) -> Map<Seq<char>, V> {
        values_by_key(self.index@, self.entries@)
    }
}

/// The values of the entries, by key.
spec fn values_by_key<V>(index: Map<Seq<char>, usize>, entries: Seq<(String, V)>) -> Map<
    Seq<char>,
    V,
> {
    Map::new(
        |key: Seq<char>| index.contains_key(key),
        |key: Seq<char>| entries[index[key] as int].1,
    )
}

/// The index leads to the entry of each key, and to no other.
spec fn indexed<V>(index: Map<Seq<char>, usize>, entries: Seq<(String, V)>) -> bool {
    &&& index.dom().finite()
    &&& index.len() == entries.len()
    &&& forall|key: Seq<char>| #[trigger]
        index.contains_key(key) ==> index[key] < entries.len() && entries[index[key] as int].0@
            == key
    &&& forall|i: int|
        0 <= i < entries.len() ==> index.contains_key((#[trigger] entries[i]).0@)
            && index[entries[i].0@] == i
}

/// The sum over the entries is the sum over the keys.
proof fn lemma_entries_total<V>(
    index: Map<Seq<char>, usize>,
    entries: Seq<(String, V)>,
    size: spec_fn(V) -> nat,
)
    requires
        indexed(index, entries),
    ensures
        totals::seq_total(entries.map_values(|entry: (String, V)| size(entry.1)))
            == totals::map_total(values_by_key(index, entries), size),
    decreases entries.len(),
{
    let sizes = entries.map_values(|entry: (String, V)| size(entry.1));
    let values = values_by_key(index, entries);
    assert(values.dom() =~= index.dom());
    if entries.len() > 0 {
        let key = entries.last().0@;
        let fewer = entries.drop_last();
        assert(index.contains_key(entries[entries.len() - 1].0@));
        assert forall|i: int| 0 <= i < fewer.len() implies (#[trigger] fewer[i]).0@ != key by {
            assert(index[entries[i].0@] == i);
        }
        assert forall|other: Seq<char>| #[trigger] index.remove(key).contains_key(other) implies
            index[other] < fewer.len() by {
            assert(index.contains_key(other));
        }
        assert(indexed(index.remove(key), fewer)) by {
            assert forall|i: int| 0 <= i < fewer.len() implies index.remove(key).contains_key(
                (#[trigger] fewer[i]).0@,
            ) && index.remove(key)[fewer[i].0@] == i by {
                assert(entries[i].0@ == fewer[i].0@);
            }
        }
        lemma_entries_total(index.remove(key), fewer, size);
        assert(values_by_key(index.remove(key), fewer) =~= values.remove(key));
        totals::lemma_map_total_remove(values, size, key);
        assert(sizes.drop_last() =~= fewer.map_values(|entry: (String, V)| size(entry.1)));
    }
}

impl<V> Table<V> {
    /// The index and the entries agree.
    pub closed spec fn well_formed(&self) -> bool {
        indexed(self.index@, self.entries@)
    }

    /// A table without entries.
    pub fn new() -> (res: Self)
        ensures
            res.well_formed(),
            res@ == Map::<Seq<char>, V>::empty(),
    {
        let res = Table { index: StringHashMap::new(), entries: Vec::new() };
        assert(res@ =~= Map::<Seq<char>, V>::empty());
        res
    }

    /// There are finitely many entries.
    pub proof fn lemma_finite(&self)
        requires
            self.well_formed(),
        ensures
            self@.dom().finite(),
    {
        assert(self@.dom() =~= self.index@.dom());
    }

    /// The number of entries.
    pub fn len(&self) -> (res: usize)
        requires
            self.well_formed(),
        ensures
            res == self@.len(),
            self@.dom().finite(),
    {
        assert(self@.dom() =~= self.index@.dom());
        self.entries.len()
    }

    /// The value of a key.
    pub fn get(&self, key: &str) -> (res: Option<&V>)
        requires
            self.well_formed(),
        ensures
            match res {
                Some(value) => self@.contains_key(key@) && *value == self@[key@],
                None => !self@.contains_key(key@),
            },
    {
        match self.index.get(key) {
            Some(at) => Some(&self.entries[*at].1),
            None => None,
        }
    }

    /// The values in the order in which they are walked.
    pub closed spec fn walk(&self) -> Seq<V> {
        self.entries@.map_values(|entry: (String, V)| entry.1)
    }

    /// The value at a place of the walk.
    pub fn value_at(&self, at: usize) -> (res: &V)
        requires
            self.well_formed(),
            at < self@.len(),
        ensures
            at < self.walk().len(),
            *res == self.walk()[at as int],
    {
        assert(self@.dom() =~= self.index@.dom());
        &self.entries[at].1
    }

    /// A walk comes by every value once: a sum over it is a sum over the keys.
    pub proof fn lemma_walk_total(&self, size: spec_fn(V) -> nat)
        requires
            self.well_formed(),
        ensures
            self.walk().len() == self@.len(),
            totals::seq_total(self.walk().map_values(size)) == totals::map_total(self@, size),
    {
        assert(self@.dom() =~= self.index@.dom());
        lemma_entries_total(self.index@, self.entries@, size);
        assert(self.walk().map_values(size) =~= self.entries@.map_values(
            |entry: (String, V)| size(entry.1),
        ));
    }

    /// Gives a key a value and returns the value that it had.
    pub fn insert(&mut self, key: String, value: V) -> (res: Option<V>)
        requires
            old(self).well_formed(),
        ensures
            final(self).well_formed(),
            final(self)@ == old(self)@.insert(key@, value),
            match res {
                Some(before) => old(self)@.contains_key(key@) && before == old(self)@[key@],
                None => !old(self)@.contains_key(key@),
            },
    {
        let found = self.index.get(key.as_str());
        match found {
            Some(at) => {
                let at: usize = *at;
                let mut slot = value;
                std::mem::swap(&mut self.entries[at].1, &mut slot);
                assert(self@ =~= old(self)@.insert(key@, value));
                Some(slot)
            },
            None => {
                let at: usize = self.entries.len();
                self.index.insert(key.clone(), at);
                self.entries.push((key, value));
                assert(self@ =~= old(self)@.insert(key@, value));
                None
            },
        }
    }

    /// Access to the value of a key, which gets `default` if it has none.
    pub fn entry(&mut self, key: &str, default: V) -> (res: &mut V)
        requires
            old(self).well_formed(),
        ensures
            *res == if old(self)@.contains_key(key@) {
                old(self)@[key@]
            } else {
                default
            },
            final(self).well_formed(),
            final(self)@ == old(self)@.insert(key@, *final(res)),
    {
        let at: usize = match self.index.get(key) {
            Some(at) => *at,
            None => {
                let at: usize = self.entries.len();
                self.index.insert(key.to_owned(), at);
                self.entries.push((key.to_owned(), default));
                at
            },
        };
        proof {
            let index = self.index@;
            let entries = self.entries@;
            assert(index.contains_key(key@) && index[key@] == at);
            assert forall|value: V|
                {
                    let updated = #[trigger] entries.update(at as int, (entries[at as int].0, value));
                    indexed(index, updated) && values_by_key(index, updated) == old(self)@.insert(
                        key@,
                        value,
                    )
                } by {
                let updated = entries.update(at as int, (entries[at as int].0, value));
                assert(values_by_key(index, updated) =~= old(self)@.insert(key@, value));
            }
        }
        &mut self.entries[at].1
    }

    /// Takes the entry of a key out of the table and returns its value.
    pub fn remove(&mut self, key: &str) -> (res: Option<V>)
        requires
            old(self).well_formed(),
        ensures
            final(self).well_formed(),
            final(self)@ == old(self)@.remove(key@),
            match res {
                Some(value) => old(self)@.contains_key(key@) && value == old(self)@[key@],
                None => !old(self)@.contains_key(key@),
            },
    {
        let at: usize = match self.index.get(key) {
            Some(at) => *at,
            None => {
                assert(self@ =~= old(self)@.remove(key@));
                return None;
            },
        };
        let ghost last = self.entries@.last().0@;
        let removed = self.entries.swap_remove(at);
        self.index.remove(key);
        if at < self.entries.len() {
            let moved = self.entries[at].0.clone();
            self.index.insert(moved, at);
        }
        proof {
            let before = *old(self);
            assert(before.index@.contains_key(last));
            assert(self@ =~= before@.remove(key@));
        }
        Some(removed.1)
    }
}

} // verus!
