//! A flat mapping from string keys to string values.

use vstd::prelude::*;
use crate::entries::{
    distinct_keys, has_key, lemma_map_of_entry, lemma_map_of_keys, lemma_map_of_len,
    lemma_map_of_push, lemma_map_of_remove, lemma_map_of_update, map_of,
};
use crate::text::text_eq;

verus! {

/// A finite mapping from keys to values, both strings. Each key is held once.
#[derive(Debug)]
pub struct ValueMap {
    entries: Vec<(String, String)>,
}

impl View for ValueMap {
    type V = Map<Seq<char>, Seq<char>>;

    closed spec fn view(&self) -> Map<Seq<char>, Seq<char>> {
        map_of(self.entries.deep_view())
    }
}

/// Finds the entry with a key.
fn position(entries: &Vec<(String, String)>, key: &str) -> (found: Option<usize>)
    ensures
        match found {
            Some(index) => index < entries.len() && entries[index as int].0@ == key@,
            None => !has_key(entries.deep_view(), key@),
        },
{
    let mut i: usize = 0;
    while i < entries.len()
        invariant
            i <= entries.len(),
            forall|k: int| 0 <= k < i ==> entries[k].0@ != key@,
        decreases entries.len() - i,
    {
        if text_eq(entries[i].0.as_str(), key) {
            return Some(i);
        }
        i = i + 1;
    }
    None
}

impl ValueMap {
    #[verifier::type_invariant]
    spec fn well_formed(self) -> bool {
        distinct_keys(self.entries.deep_view())
    }

    /// The mapping without any key.
    pub fn new() -> (values: ValueMap)
        ensures
            values@ == Map::<Seq<char>, Seq<char>>::empty(),
    {
        ValueMap { entries: Vec::new() }
    }

    /// The number of keys.
    pub fn len(&self) -> (count: usize)
        ensures
            self@.dom().finite(),
            count == self@.len(),
    {
        proof {
            use_type_invariant(self);
            lemma_map_of_len(self.entries.deep_view());
        }
        self.entries.len()
    }

    /// The value of a key, if the key is bound.
    pub fn get(&self, key: &str) -> (value: Option<&String>)
        ensures
            match value {
                Some(text) => self@.contains_key(key@) && self@[key@] == text@,
                None => !self@.contains_key(key@),
            },
    {
        proof {
            use_type_invariant(self);
            lemma_map_of_keys(self.entries.deep_view());
        }
        match position(&self.entries, key) {
            Some(index) => {
                proof {
                    lemma_map_of_entry(self.entries.deep_view(), index as int);
                }
                Some(&self.entries[index].1)
            },
            None => None,
        }
    }

    /// Binds a key to a value, replacing what the key was bound to.
    pub fn insert(&mut self, key: String, value: String)
        ensures
            final(self)@ == old(self)@.insert(key@, value@),
    {
        proof {
            use_type_invariant(&*self);
        }
        let mut entries: Vec<(String, String)> = Vec::new();
        std::mem::swap(&mut entries, &mut self.entries);
        let ghost before = entries.deep_view();
        match position(&entries, key.as_str()) {
            Some(index) => {
                proof {
                    lemma_map_of_update(before, index as int, value@);
                }
                entries.set(index, (key, value));
                assert(entries.deep_view() =~= before.update(
                    index as int,
                    (before[index as int].0, value@),
                ));
            },
            None => {
                proof {
                    lemma_map_of_push(before, key@, value@);
                }
                entries.push((key, value));
                assert(entries.deep_view() =~= before.push((key@, value@)));
            },
        }
        self.entries = entries;
    }

    /// Unbinds a key. A key that is not bound is left so.
    pub fn remove(&mut self, key: &str)
        ensures
            final(self)@ == old(self)@.remove(key@),
    {
        proof {
            use_type_invariant(&*self);
        }
        let mut entries: Vec<(String, String)> = Vec::new();
        std::mem::swap(&mut entries, &mut self.entries);
        let ghost before = entries.deep_view();
        match position(&entries, key) {
            Some(index) => {
                proof {
                    lemma_map_of_remove(before, index as int);
                }
                entries.remove(index);
                assert(entries.deep_view() =~= before.remove(index as int));
            },
            None => {
                proof {
                    lemma_map_of_keys(before);
                }
            },
        }
        self.entries = entries;
    }

    /// Lays another mapping over this one: where both bind a key, the other's
    /// value is taken.
    pub fn overlay(&mut self, other: &ValueMap)
        ensures
            final(self)@ == old(self)@.union_prefer_right(other@),
    {
        let ghost laid = other.entries.deep_view();
        let mut i: usize = 0;
        while i < other.entries.len()
            invariant
                i <= other.entries.len(),
                laid == other.entries.deep_view(),
                self@ == old(self)@.union_prefer_right(map_of(laid.take(i as int))),
            decreases other.entries.len() - i,
        {
            let key = other.entries[i].0.clone();
            let value = other.entries[i].1.clone();
            proof {
                assert(laid.take(i + 1).drop_last() =~= laid.take(i as int));
                assert(old(self)@.union_prefer_right(map_of(laid.take(i as int))).insert(
                    key@,
                    value@,
                ) =~= old(self)@.union_prefer_right(map_of(laid.take(i + 1))));
            }
            self.insert(key, value);
            i = i + 1;
        }
        assert(laid.take(laid.len() as int) =~= laid);
    }

    /// The entries of the mapping, each key once, in no particular order.
    pub fn to_pairs(&self) -> (pairs: Vec<(String, String)>)
        ensures
            distinct_keys(pairs.deep_view()),
            map_of(pairs.deep_view()) == self@,
    {
        proof {
            use_type_invariant(self);
        }
        let mut pairs: Vec<(String, String)> = Vec::new();
        let mut i: usize = 0;
        while i < self.entries.len()
            invariant
                i <= self.entries.len(),
                pairs.len() == i,
                forall|k: int|
                    0 <= k < i ==> pairs[k].0@ == self.entries[k].0@ && pairs[k].1@
                        == self.entries[k].1@,
            decreases self.entries.len() - i,
        {
            pairs.push((self.entries[i].0.clone(), self.entries[i].1.clone()));
            i = i + 1;
        }
        assert(pairs.deep_view() =~= self.entries.deep_view());
        pairs
    }

    /// The mapping that results when the entries are applied in order.
    pub fn from_pairs(pairs: &Vec<(String, String)>) -> (values: ValueMap)
        ensures
            values@ == map_of(pairs.deep_view()),
    {
        let ghost given = pairs.deep_view();
        let mut values = ValueMap::new();
        let mut i: usize = 0;
        while i < pairs.len()
            invariant
                i <= pairs.len(),
                given == pairs.deep_view(),
                values@ == map_of(given.take(i as int)),
            decreases pairs.len() - i,
        {
            proof {
                assert(given.take(i + 1).drop_last() =~= given.take(i as int));
            }
            values.insert(pairs[i].0.clone(), pairs[i].1.clone());
            i = i + 1;
        }
        assert(given.take(given.len() as int) =~= given);
        values
    }
}

impl Clone for ValueMap {
    fn clone(&self) -> (copy: ValueMap)
        ensures
            copy@ == self@,
    {
        ValueMap { entries: self.to_pairs() }
    }
}

} // verus!
