//! A small map from strings to strings, kept as an association list with
//! distinct keys.
use vstd::prelude::*;

use crate::text::{chars_eq, chars_of};

verus! {

pub struct StrMap {
    entries: Vec<(String, String)>,
}

impl StrMap {
    /// The keys, as character sequences, in stored order.
    pub closed spec fn keys(self) -> Seq<Seq<char>> {
        self.entries@.map_values(|e: (String, String)| e.0@)
    }

    #[verifier::type_invariant]
    spec fn distinct_keys(self) -> bool {
        self.keys().no_duplicates()
    }

    /// The map from keys to values.
    pub closed spec fn view(self) -> Map<Seq<char>, Seq<char>> {
        Map::new(
            |k: Seq<char>| self.keys().contains(k),
            |k: Seq<char>|
                self.entries@[self.keys().index_of(k)].1@,
        )
    }

    pub fn new() -> (m: Self)
        ensures
            m@ == Map::<Seq<char>, Seq<char>>::empty(),
    {
        let m = StrMap { entries: Vec::new() };
        assert(m.keys() =~= Seq::<Seq<char>>::empty());
        assert(m@ =~= Map::<Seq<char>, Seq<char>>::empty());
        m
    }

    /// The position of `key`, if it is present.
    fn find(&self, key: &Vec<char>) -> (r: Option<usize>)
        ensures
            match r {
                Some(i) => i < self.keys().len() && self.keys()[i as int] == key@ && self.keys().index_of(key@) == i,
                None => !self.keys().contains(key@),
            },
    {
        proof {
            use_type_invariant(self);
        }
        let mut i: usize = 0;
        while i < self.entries.len()
            invariant
                i <= self.entries.len() == self.keys().len(),
                self.keys().no_duplicates(),
                forall|j: int| 0 <= j < i ==> self.keys()[j] != key@,
            decreases self.entries.len() - i,
        {
            let k = chars_of(self.entries[i].0.as_str());
            assert(k@ == self.keys()[i as int]);
            if chars_eq(&k, key) {
                proof {
                    self.keys().index_of_first_ensures(key@);
                    let f = self.keys().index_of_first(key@);
                    if f != Some(i as int) {
                        let j = f.unwrap();
                        assert(self.keys()[j] == key@);
                    }
                    assert(self.keys().index_of(key@) == i) by {
                        assert(self.keys().contains(key@));
                    }
                }
                return Some(i);
            }
            i += 1;
        }
        None
    }

    /// The value stored under `key`.
    pub fn get(&self, key: &str) -> (r: Option<String>)
        ensures
            match r {
                Some(v) => self@.contains_key(key@) && self@[key@] == v@,
                None => !self@.contains_key(key@),
            },
    {
        let k = chars_of(key);
        match self.find(&k) {
            Some(i) => Some(self.entries[i].1.clone()),
            None => None,
        }
    }

    /// Stores `value` under `key`, replacing any earlier value.
    pub fn insert(&mut self, key: String, value: String)
        ensures
            final(self)@ == old(self)@.insert(key@, value@),
    {
        proof {
            use_type_invariant(&*self);
        }
        let k = chars_of(key.as_str());
        let pos = self.find(&k);
        let ghost old_keys = self.keys();
        let ghost old_map = self@;
        let mut v: Vec<(String, String)> = Vec::new();
        std::mem::swap(&mut v, &mut self.entries);
        assert(v@.map_values(|e: (String, String)| e.0@) == old_keys);
        match pos {
            Some(i) => {
                v.set(i, (key, value));
                proof {
                    let nk = v@.map_values(|e: (String, String)| e.0@);
                    assert(nk =~= old_keys);
                }
            },
            None => {
                v.push((key, value));
                proof {
                    let nk = v@.map_values(|e: (String, String)| e.0@);
                    assert(nk =~= old_keys.push(k@));
                    assert(nk.no_duplicates()) by {
                        assert forall|a: int, b: int| 0 <= a < nk.len() && 0 <= b < nk.len() && a != b implies nk[a] != nk[b] by {
                            if a < old_keys.len() && b < old_keys.len() {
                            } else if a < old_keys.len() {
                                assert(old_keys.contains(nk[a]));
                            } else {
                                assert(old_keys.contains(nk[b]));
                            }
                        }
                    }
                }
            },
        }
        self.entries = v;
        proof {
            let nk = self.keys();
            assert forall|x: Seq<char>| #[trigger] self@.contains_key(x) == old_map.insert(key@, value@).contains_key(x) by {
                assert(self@.contains_key(x) == nk.contains(x));
                assert(old_map.contains_key(x) == old_keys.contains(x));
                match pos {
                    Some(i) => {
                        assert(nk == old_keys);
                        assert(old_keys[i as int] == key@);
                    },
                    None => {
                        assert(nk == old_keys.push(k@));
                        if x == k@ {
                            assert(nk[old_keys.len() as int] == x);
                        }
                        if old_keys.contains(x) {
                            let j = choose|j: int| 0 <= j < old_keys.len() && old_keys[j] == x;
                            assert(nk[j] == x);
                        }
                        if nk.contains(x) && x != k@ {
                            let j = choose|j: int| 0 <= j < nk.len() && nk[j] == x;
                            assert(j < old_keys.len());
                            assert(old_keys[j] == x);
                        }
                    },
                }
            }
            assert forall|x: Seq<char>| #[trigger] self@.contains_key(x) implies self@[x] == old_map.insert(key@, value@)[x] by {
                nk.index_of_first_ensures(x);
                old_keys.index_of_first_ensures(x);
                let j = nk.index_of(x);
                match pos {
                    Some(i) => {
                        if x != key@ {
                            assert(j != i);
                            assert(self.entries@[j] == old(self).entries@[j]);
                        } else {
                            if j != i {
                                assert(nk[j] == nk[i as int]);
                            }
                        }
                    },
                    None => {
                        if x == key@ {
                            assert(!old_keys.contains(x));
                            if j < old_keys.len() {
                                assert(old_keys[j] == x);
                            }
                        } else {
                            if j == old_keys.len() {
                                assert(nk[j] == k@);
                            }
                            assert(j < old_keys.len());
                            assert(self.entries@[j] == old(self).entries@[j]);
                            let oj = old_keys.index_of(x);
                            if oj < j {
                                assert(nk[oj] == x);
                            }
                            if j < oj {
                                assert(old_keys[j] == x);
                            }
                        }
                    },
                }
            }
            assert(self@ =~= old_map.insert(key@, value@));
        }
    }

    /// The number of keys.
    pub fn len(&self) -> (r: usize)
        ensures
            r == self@.len(),
    {
        proof {
            use_type_invariant(self);
            self.keys().unique_seq_to_set();
            assert(self@.dom() =~= self.keys().to_set());
        }
        self.entries.len()
    }
}

} // verus!
