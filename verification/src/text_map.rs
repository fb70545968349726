//! A map from text to text that remembers the order in which its keys came.

use crate::text::{first_index, lemma_first_index, lemma_first_index_push, position, texts};
use vstd::prelude::*;

verus! {

/// A finite map from text to text. Keys are compared by their characters and
/// kept in the order of their first insertion.
#[derive(Debug)]
pub struct TextMap {
    keys: Vec<String>,
    values: Vec<String>,
}

impl View for TextMap {
    type V = Map<Seq<char>, Seq<char>>;

    closed spec fn view(&self) -> Map<Seq<char>, Seq<char>> {
        Map::new(
            |k: Seq<char>| texts(self.keys@).contains(k),
            |k: Seq<char>| self.values[first_index(texts(self.keys@), k)]@,
        )
    }
}

impl TextMap {
    /// Every key has its value, and no key is held twice.
    pub closed spec fn wf(&self) -> bool {
        &&& self.keys.len() == self.values.len()
        &&& texts(self.keys@).no_duplicates()
    }

    /// The keys in the order of their first insertion.
    pub closed spec fn key_order(&self) -> Seq<Seq<char>> {
        texts(self.keys@)
    }

    /// The key order lists the domain, each key once.
    pub proof fn lemma_key_order(&self)
        requires
            self.wf(),
        ensures
            self.key_order().no_duplicates(),
            self.key_order().to_set() == self@.dom(),
            self@.dom().finite(),
    {
        assert(self.key_order().to_set() =~= self@.dom());
        vstd::seq_lib::seq_to_set_is_finite(self.key_order());
    }

    /// The empty map.
    pub fn new() -> (map: Self)
        ensures
            map.wf(),
            map@ == Map::<Seq<char>, Seq<char>>::empty(),
            map.key_order() == Seq::<Seq<char>>::empty(),
    {
        let map = TextMap { keys: Vec::new(), values: Vec::new() };
        proof {
            assert(texts(map.keys@) =~= Seq::<Seq<char>>::empty());
            assert(map@ =~= Map::<Seq<char>, Seq<char>>::empty());
        }
        map
    }

    /// The keys in the order of their first insertion.
    pub fn keys(&self) -> (keys: &Vec<String>)
        ensures
            texts(keys@) == self.key_order(),
    {
        &self.keys
    }

    /// The value of `key`, if the map holds one.
    pub fn get(&self, key: &String) -> (value: Option<&String>)
        requires
            self.wf(),
        ensures
            value is Some <==> self@.dom().contains(key@),
            value matches Some(v) ==> v@ == self@[key@],
    {
        let i = position(&self.keys, key);
        proof {
            lemma_first_index(texts(self.keys@), key@);
        }
        if i < self.keys.len() {
            Some(&self.values[i])
        } else {
            None
        }
    }

    /// Sets the value of `key`. A new key goes to the end of the key order.
    pub fn insert(&mut self, key: String, value: String)
        requires
            old(self).wf(),
        ensures
            final(self).wf(),
            final(self)@ == old(self)@.insert(key@, value@),
            final(self).key_order() == if old(self)@.dom().contains(key@) {
                old(self).key_order()
            } else {
                old(self).key_order().push(key@)
            },
    {
        let ghost names = texts(self.keys@);
        let i = position(&self.keys, &key);
        proof {
            lemma_first_index(names, key@);
        }
        if i < self.keys.len() {
            self.values.set(i, value);
            proof {
                assert(texts(self.keys@) =~= names);
                assert(self@ =~= old(self)@.insert(key@, value@)) by {
                    assert forall|k: Seq<char>| self@.dom().contains(k) implies #[trigger] self@[k]
                        == old(self)@.insert(key@, value@)[k] by {
                        lemma_first_index(names, k);
                    }
                }
            }
        } else {
            self.keys.push(key);
            self.values.push(value);
            proof {
                let after = texts(self.keys@);
                assert(after =~= names.push(key@));
                assert(after.no_duplicates());
                assert forall|k: Seq<char>| after.contains(k) <==> (names.contains(k) || k
                    == key@) by {
                    lemma_first_index(after, k);
                    lemma_first_index(names, k);
                    lemma_first_index_push(names, key@, k);
                }
                assert forall|k: Seq<char>| after.contains(k) implies #[trigger] self@[k] == old(
                    self,
                )@.insert(key@, value@)[k] by {
                    lemma_first_index_push(names, key@, k);
                    if k == key@ {
                        assert(self.values[names.len() as int]@ == value@);
                    } else {
                        lemma_first_index(names, k);
                        assert(self.values[first_index(names, k)] == old(self).values[first_index(
                            names,
                            k,
                        )]);
                    }
                }
                assert(self@.dom() =~= old(self)@.insert(key@, value@).dom());
                assert(self@ =~= old(self)@.insert(key@, value@));
            }
        }
    }
}

} // verus!
