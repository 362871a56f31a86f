//! A small map from text keys to values that remembers the order in which
//! its keys first came.
//!
//! It is kept as two vectors and not as a hash map: vstd states what a
//! `HashMap` holds only for key types whose hashing it has a model of, and
//! `String` is not among them, so nothing could be proved of the fields.

use crate::text::find_text;
use vstd::prelude::*;

verus! {

/// The keys of a list of texts, each as a sequence of characters.
pub open spec fn keys_view(keys: Seq<String>) -> Seq<Seq<char>> {
    keys.map_values(|k: String| k@)
}

/// The values of a list, each by its view.
pub open spec fn values_view<V: View>(values: Seq<V>) -> Seq<V::V> {
    values.map_values(|v: V| v@)
}

/// The map that sends each key to the value at the key's position.
pub open spec fn map_of<T>(keys: Seq<Seq<char>>, values: Seq<T>) -> Map<Seq<char>, T> {
    Map::new(|key: Seq<char>| keys.contains(key), |key: Seq<char>| values[keys.index_of(key)])
}

/// With no key twice, the map holds at each key the value at the key's position.
pub proof fn lemma_map_of_at<T>(keys: Seq<Seq<char>>, values: Seq<T>, i: int)
    requires
        keys.no_duplicates(),
        0 <= i < keys.len(),
    ensures
        map_of(keys, values).contains_key(keys[i]),
        map_of(keys, values)[keys[i]] == values[i],
        keys.index_of(keys[i]) == i,
{
    assert(keys.contains(keys[i]));
}

/// A map from text keys to values. A key occurs once; writing to a key that
/// is there replaces its value.
pub struct FieldMap<V> {
    keys: Vec<String>,
    values: Vec<V>,
}

impl<V: View> View for FieldMap<V> {
    type V = Map<Seq<char>, V::V>;

    closed spec fn view(&self) -> Map<Seq<char>, V::V> {
        map_of(keys_view(self.keys@), values_view(self.values@))
    }
}

impl<V: View> FieldMap<V> {
    /// Holds when the map is in a state that its own operations can reach.
    pub closed spec fn wf(&self) -> bool {
        &&& self.keys.len() == self.values.len()
        &&& keys_view(self.keys@).no_duplicates()
    }

    /// The keys in the order they first came.
    pub closed spec fn key_order(&self) -> Seq<Seq<char>> {
        keys_view(self.keys@)
    }

    /// The keys of a well-formed map are those of its view, each once.
    pub proof fn lemma_key_order(&self)
        requires
            self.wf(),
        ensures
            self.key_order().no_duplicates(),
            self.key_order().len() == self@.len(),
            self@.dom().finite(),
            forall|key: Seq<char>| self.key_order().contains(key) <==> self@.contains_key(key),
    {
        let keys = self.key_order();
        assert(self@.dom() =~= keys.to_set());
        keys.unique_seq_to_set();
    }

    /// An empty map.
    pub fn new() -> (map: FieldMap<V>)
        ensures
            map.wf(),
            map@ == Map::<Seq<char>, V::V>::empty(),
            map.key_order() == Seq::<Seq<char>>::empty(),
    {
        let map = FieldMap { keys: Vec::new(), values: Vec::new() };
        assert(map@ =~= Map::<Seq<char>, V::V>::empty());
        assert(map.key_order() =~= Seq::<Seq<char>>::empty());
        map
    }

    /// Writes `value` under `key`, in place of what was there.
    pub fn insert(&mut self, key: String, value: V)
        requires
            old(self).wf(),
        ensures
            final(self).wf(),
            final(self)@ == old(self)@.insert(key@, value@),
            final(self).key_order() == (if old(self)@.contains_key(key@) {
                old(self).key_order()
            } else {
                old(self).key_order().push(key@)
            }),
    {
        let found = find_text(&self.keys, &key);
        let ghost old_keys = keys_view(self.keys@);
        let ghost old_values = values_view(self.values@);
        let i = match found {
            Some(i) => {
                assert(old_keys[i as int] == key@);
                self.values[i] = value;
                i
            },
            None => {
                assert(!old_keys.contains(key@));
                self.keys.push(key);
                self.values.push(value);
                self.keys.len() - 1
            },
        };
        proof {
            let keys = keys_view(self.keys@);
            let values = values_view(self.values@);
            if found is Some {
                assert(keys =~= old_keys);
                assert(values =~= old_values.update(i as int, value@));
            } else {
                assert(keys =~= old_keys.push(key@));
                assert(values =~= old_values.push(value@));
            }
            assert(keys[i as int] == key@);
            assert forall|k: Seq<char>| keys.contains(k) <==> (old_keys.contains(k) || k
                == key@) by {
                if old_keys.contains(k) {
                    let j = old_keys.index_of(k);
                    assert(keys[j] == k);
                }
            }
            assert forall|k: Seq<char>| keys.contains(k) && k != key@ implies values[keys.index_of(
                k,
            )] == old_values[old_keys.index_of(k)] by {
                let j = keys.index_of(k);
                assert(old_keys.contains(k));
                let l = old_keys.index_of(k);
                assert(keys[l] == k);
            }
            lemma_map_of_at(keys, values, i as int);
            assert(self@ =~= old(self)@.insert(key@, value@));
        }
    }

    /// The value under `key`, if there is one.
    pub fn get(&self, key: &str) -> (value: Option<&V>)
        requires
            self.wf(),
        ensures
            match value {
                Some(v) => self@.contains_key(key@) && v@ == self@[key@],
                None => !self@.contains_key(key@),
            },
    {
        let wanted = key.to_owned();
        let ghost keys = keys_view(self.keys@);
        match find_text(&self.keys, &wanted) {
            Some(i) => {
                proof {
                    assert(keys[i as int] == key@);
                    lemma_map_of_at(keys, values_view(self.values@), i as int);
                }
                Some(&self.values[i])
            },
            None => {
                assert(!keys.contains(key@));
                None
            },
        }
    }

    /// Whether there is a value under `key`.
    pub fn contains_key(&self, key: &str) -> (found: bool)
        requires
            self.wf(),
        ensures
            found == self@.contains_key(key@),
    {
        self.get(key).is_some()
    }

    /// The number of keys.
    pub fn len(&self) -> (len: usize)
        requires
            self.wf(),
        ensures
            len == self.key_order().len(),
            len == self@.len(),
    {
        proof {
            self.lemma_key_order();
        }
        self.keys.len()
    }

    /// Whether the map holds nothing.
    pub fn is_empty(&self) -> (empty: bool)
        requires
            self.wf(),
        ensures
            empty == (self@ == Map::<Seq<char>, V::V>::empty()),
            empty == (self.key_order().len() == 0),
    {
        proof {
            self.lemma_key_order();
            if self.keys.len() == 0 {
                assert(self@ =~= Map::<Seq<char>, V::V>::empty());
            } else {
                lemma_map_of_at(keys_view(self.keys@), values_view(self.values@), 0);
            }
        }
        self.keys.len() == 0
    }

    /// The key at position `i` of the key order.
    pub fn key_at(&self, i: usize) -> (key: &String)
        requires
            self.wf(),
            i < self.key_order().len(),
        ensures
            key@ == self.key_order()[i as int],
            self@.contains_key(key@),
    {
        proof {
            lemma_map_of_at(keys_view(self.keys@), values_view(self.values@), i as int);
        }
        &self.keys[i]
    }

    /// The value under the key at position `i` of the key order.
    pub fn value_at(&self, i: usize) -> (value: &V)
        requires
            self.wf(),
            i < self.key_order().len(),
        ensures
            value@ == self@[self.key_order()[i as int]],
    {
        proof {
            lemma_map_of_at(keys_view(self.keys@), values_view(self.values@), i as int);
        }
        &self.values[i]
    }
}

} // verus!
