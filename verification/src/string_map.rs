//! A map from strings that remembers the order in which its keys came.

use vstd::prelude::*;
use vstd::string::*;

use crate::text::same_text;

verus! {

/// A map with strings as keys. No key occurs twice; a key keeps the place at
/// which it came first.
#[derive(Debug)]
pub struct StringMap<V> {
    entries: Vec<(String, V)>,
}

impl<V> View for StringMap<V> {
    type V = Map<Seq<char>, V>;

    closed spec fn view(&self) -> Map<Seq<char>, V> {
        Map::new(
            |key: Seq<char>| self.order().contains(key),
            |key: Seq<char>| self.entries@[self.order().index_of(key)].1,
        )
    }
}

impl<V> StringMap<V> {
    /// The keys in the order in which they came.
    pub closed spec fn order(self) -> Seq<Seq<char>> {
        Seq::new(self.entries@.len(), |i: int| self.entries@[i].0@)
    }

    #[verifier::type_invariant]
    spec fn well_formed(self) -> bool {
        self.order().no_duplicates()
    }

    /// An empty map.
    pub fn new() -> (r: Self)
        ensures
            r@ == Map::<Seq<char>, V>::empty(),
            r.order() == Seq::<Seq<char>>::empty(),
    {
        let r = StringMap { entries: Vec::new() };
        assert(r.order() =~= Seq::empty());
        assert(r@ =~= Map::empty());
        r
    }

    /// The number of keys.
    pub fn len(&self) -> (r: usize)
        ensures
            r == self@.dom().len(),
            r == self.order().len(),
            self.order().no_duplicates(),
            self@.dom() == self.order().to_set(),
    {
        proof {
            use_type_invariant(&*self);
            self.order().unique_seq_to_set();
            assert(self@.dom() =~= self.order().to_set());
        }
        self.entries.len()
    }

    /// Whether there is no key.
    pub fn is_empty(&self) -> (r: bool)
        ensures
            r == (self@ == Map::<Seq<char>, V>::empty()),
            r == (self.order().len() == 0),
    {
        proof {
            if self.entries@.len() > 0 {
                assert(self.order().contains(self.order()[0]));
                assert(self@.contains_key(self.order()[0]));
            } else {
                assert(self@ =~= Map::empty());
            }
        }
        self.entries.len() == 0
    }

    /// The place of a key.
    fn position(&self, key: &str) -> (r: Option<usize>)
        ensures
            match r {
                Some(i) => i < self.entries@.len() && self.order()[i as int] == key@,
                None => !self.order().contains(key@),
            },
    {
        let mut i: usize = 0;
        while i < self.entries.len()
            invariant
                i <= self.entries@.len(),
                forall|j: int| 0 <= j < i ==> self.entries@[j].0@ != key@,
            decreases self.entries@.len() - i,
        {
            if same_text(self.entries[i].0.as_str(), key) {
                return Some(i);
            }
            i += 1;
        }
        None
    }

    /// The value of a key.
    pub fn get(&self, key: &str) -> (r: Option<&V>)
        ensures
            match r {
                Some(value) => self@.contains_key(key@) && *value == self@[key@],
                None => !self@.contains_key(key@),
            },
    {
        proof {
            use_type_invariant(&*self);
        }
        match self.position(key) {
            Some(i) => {
                assert(self.order().contains(key@));
                assert(self.order().index_of(key@) == i);
                Some(&self.entries[i].1)
            },
            None => None,
        }
    }

    /// The key that came as the `i`th.
    pub fn key_at(&self, i: usize) -> (r: &String)
        requires
            i < self.order().len(),
        ensures
            r@ == self.order()[i as int],
    {
        &self.entries[i].0
    }

    /// The value whose key came as the `i`th.
    pub fn value_at(&self, i: usize) -> (r: &V)
        requires
            i < self.order().len(),
        ensures
            self@.contains_key(self.order()[i as int]),
            *r == self@[self.order()[i as int]],
    {
        proof {
            use_type_invariant(&*self);
            let key = self.order()[i as int];
            assert(self.order().contains(key));
            assert(self.order().index_of(key) == i);
        }
        &self.entries[i].1
    }

    /// Gives a key a value.
    pub fn insert(&mut self, key: String, value: V)
        ensures
            final(self)@ == old(self)@.insert(key@, value),
            final(self).order() == if old(self)@.contains_key(key@) {
                old(self).order()
            } else {
                old(self).order().push(key@)
            },
    {
        proof {
            use_type_invariant(&*self);
        }
        let ghost before = *self;
        let ghost name = key@;
        let found = self.position(key.as_str());
        let mut entries: Vec<(String, V)> = Vec::new();
        std::mem::swap(&mut entries, &mut self.entries);
        match found {
            Some(i) => {
                entries.set(i, (key, value));
            },
            None => {
                entries.push((key, value));
            },
        }
        let ghost after = StringMap { entries };
        proof {
            match found {
                Some(i) => {
                    assert(before.order().contains(name));
                    assert(after.order() =~= before.order());
                    assert(after.order().index_of(name) == i);
                    assert forall|k: Seq<char>| k != name && before.order().contains(k) implies
                        #[trigger] after@[k] == before@[k] by {
                        let j = before.order().index_of(k);
                        assert(before.order()[j] == k);
                        assert(j != i);
                    }
                },
                None => {
                    assert(after.order() =~= before.order().push(name));
                    assert(after.order()[before.order().len() as int] == name);
                    assert(after.order().no_duplicates());
                    assert(after.order().index_of(name) == before.order().len());
                    assert forall|k: Seq<char>| before.order().contains(k) implies
                        #[trigger] after@[k] == before@[k] by {
                        let j = before.order().index_of(k);
                        assert(before.order()[j] == k);
                        assert(after.order()[j] == k);
                        assert(after.order().index_of(k) == j);
                    }
                },
            }
            assert forall|k: Seq<char>| after.order().contains(k) implies k == name
                || before.order().contains(k) by {
                let j = after.order().index_of(k);
                assert(after.order()[j] == k);
                if j < before.order().len() {
                    assert(before.order()[j] == k);
                }
            }
            assert forall|k: Seq<char>| before.order().contains(k) implies after.order().contains(
                k,
            ) by {
                let j = before.order().index_of(k);
                assert(after.order()[j] == k);
            }
            assert(after.order().contains(name));
            assert(after@.dom() =~= before@.insert(name, value).dom());
            assert(after@[name] == value);
            assert(after@ =~= before@.insert(name, value));
        }
        self.entries = entries;
    }
}

} // verus!
