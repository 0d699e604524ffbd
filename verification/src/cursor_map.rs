use vstd::prelude::*;
use crate::cursor::Cursor;

verus! {

/// A map from cursors to values: at most one value per cursor.
#[derive(Debug)]
pub struct CursorMap<V> {
    entries: Vec<(Cursor, V)>,
}

/// The files of a cursor scheme: at most one path per cursor.
pub type CursorPathMap = CursorMap<String>;

impl<V> CursorMap<V> {
    #[verifier::type_invariant]
    spec fn keys_distinct(self) -> bool {
        forall|i: int, j: int|
            0 <= i < j < self.entries.len() ==> (#[trigger] self.entries@[i]).0@ != (
            #[trigger] self.entries@[j]).0@
    }

    spec fn has_key_at(self, k: (nat, Seq<char>)) -> bool {
        exists|i: int| 0 <= i < self.entries.len() && (#[trigger] self.entries@[i]).0@ == k
    }

    spec fn key_index(self, k: (nat, Seq<char>)) -> int {
        choose|i: int| 0 <= i < self.entries.len() && (#[trigger] self.entries@[i]).0@ == k
    }

}

impl<V: View> CursorMap<V> {
    proof fn lemma_entry(self, i: int)
        requires
            self.keys_distinct(),
            0 <= i < self.entries.len(),
        ensures
            self@.contains_key(self.entries@[i].0@),
            self@[self.entries@[i].0@] == self.entries@[i].1@,
    {
        let k = self.entries@[i].0@;
        assert(self.has_key_at(k));
        let j = self.key_index(k);
        if j != i {
            if j < i {
                assert(self.entries@[j].0@ != self.entries@[i].0@);
            } else {
                assert(self.entries@[i].0@ != self.entries@[j].0@);
            }
        }
    }

    proof fn lemma_absent(self, k: (nat, Seq<char>))
        requires
            forall|i: int| 0 <= i < self.entries.len() ==> (#[trigger] self.entries@[i]).0@ != k,
        ensures
            !self@.contains_key(k),
    {
    }

    /// An empty map.
    pub fn new() -> (r: CursorMap<V>)
        ensures
            r@ == Map::<(nat, Seq<char>), V::V>::empty(),
    {
        let r = CursorMap { entries: Vec::new() };
        assert(r@ =~= Map::<(nat, Seq<char>), V::V>::empty());
        r
    }

    fn position(&self, k: &Cursor) -> (r: Option<usize>)
        ensures
            match r {
                Some(i) => i < self.entries.len() && self.entries@[i as int].0@ == k@,
                None => forall|i: int|
                    0 <= i < self.entries.len() ==> (#[trigger] self.entries@[i]).0@ != k@,
            },
    {
        let mut i: usize = 0;
        while i < self.entries.len()
            invariant
                i <= self.entries.len(),
                forall|j: int| 0 <= j < i ==> (#[trigger] self.entries@[j]).0@ != k@,
            decreases self.entries.len() - i,
        {
            if self.entries[i].0.same(k) {
                return Some(i);
            }
            i = i + 1;
        }
        None
    }

    /// The path of `k`, if it has one.
    pub fn get(&self, k: &Cursor) -> (r: Option<&V>)
        ensures
            r is Some == self@.contains_key(k@),
            r matches Some(v) ==> v@ == self@[k@],
    {
        proof {
            use_type_invariant(self);
        }
        match self.position(k) {
            Some(i) => {
                proof {
                    self.lemma_entry(i as int);
                }
                Some(&self.entries[i].1)
            },
            None => {
                proof {
                    self.lemma_absent(k@);
                }
                None
            },
        }
    }

    /// Sets the path of `k`, and gives back the path it had.
    pub fn insert(&mut self, k: Cursor, v: V) -> (r: Option<V>)
        ensures
            final(self)@ == old(self)@.insert(k@, v@),
            r is Some == old(self)@.contains_key(k@),
            r matches Some(o) ==> o@ == old(self)@[k@],
    {
        proof {
            use_type_invariant(&*self);
        }
        let ghost old_map = self@;
        let ghost kv = k@;
        let ghost vv = v@;
        let found = self.position(&k);
        let mut entries: Vec<(Cursor, V)> = Vec::new();
        std::mem::swap(&mut entries, &mut self.entries);
        let r = match found {
            Some(i) => {
                proof {
                    old(self).lemma_entry(i as int);
                }
                let (_, o) = entries.remove(i);
                Some(o)
            },
            None => {
                proof {
                    old(self).lemma_absent(k@);
                }
                None
            },
        };
        let ghost mid = entries@;
        assert forall|a: int, b: int| 0 <= a < b < mid.len() implies (#[trigger] mid[a]).0@
            != (#[trigger] mid[b]).0@ && mid[a].0@ != kv by {
            match found {
                Some(i) => {
                    if a < i {
                        if b < i {
                            assert(old(self).entries@[a] == mid[a]);
                        } else {
                            assert(old(self).entries@[b + 1] == mid[b]);
                        }
                    } else {
                        assert(old(self).entries@[a + 1] == mid[a]);
                        assert(old(self).entries@[b + 1] == mid[b]);
                    }
                },
                None => {},
            }
        }
        assert forall|a: int| 0 <= a < mid.len() implies (#[trigger] mid[a]).0@ != kv by {
            match found {
                Some(i) => {
                    if a < i {
                        assert(old(self).entries@[a] == mid[a]);
                    } else {
                        assert(old(self).entries@[a + 1] == mid[a]);
                    }
                },
                None => {},
            }
        }
        entries.push((k, v));
        self.entries = entries;
        proof {
            let n = self.entries.len() - 1;
            assert(self.entries@[n as int].0@ == kv);
            assert forall|key: (nat, Seq<char>)| #[trigger] self@.contains_key(key) == old_map.insert(
                kv,
                vv,
            ).contains_key(key) && (self@.contains_key(key) ==> self@[key] == old_map.insert(
                kv,
                vv,
            )[key]) by {
                if key == kv {
                    self.lemma_entry(n as int);
                } else if self@.contains_key(key) {
                    let j = self.key_index(key);
                    self.lemma_entry(j);
                    assert(j < n);
                    let oj = match found {
                        Some(i) => if j < i { j } else { j + 1 },
                        None => j,
                    };
                    assert(old(self).entries@[oj] == self.entries@[j]);
                    old(self).lemma_entry(oj);
                } else if old_map.contains_key(key) {
                    let oj = old(self).key_index(key);
                    old(self).lemma_entry(oj);
                    match found {
                        Some(i) => {
                            assert(oj != i);
                            let j = if oj < i { oj } else { oj - 1 };
                            assert(self.entries@[j] == old(self).entries@[oj]);
                            self.lemma_entry(j);
                        },
                        None => {
                            assert(self.entries@[oj] == old(self).entries@[oj]);
                            self.lemma_entry(oj);
                        },
                    }
                }
            }
            assert(self@ =~= old_map.insert(kv, vv));
        }
        r
    }

    /// Removes the path of `k`, and gives back the path it had.
    pub fn remove(&mut self, k: &Cursor) -> (r: Option<V>)
        ensures
            final(self)@ == old(self)@.remove(k@),
            r is Some == old(self)@.contains_key(k@),
            r matches Some(o) ==> o@ == old(self)@[k@],
    {
        proof {
            use_type_invariant(&*self);
        }
        let ghost old_map = self@;
        match self.position(k) {
            Some(i) => {
                proof {
                    self.lemma_entry(i as int);
                }
                let mut entries: Vec<(Cursor, V)> = Vec::new();
                std::mem::swap(&mut entries, &mut self.entries);
                let (_, o) = entries.remove(i);
                assert forall|a: int, b: int| 0 <= a < b < entries.len() implies (
                #[trigger] entries@[a]).0@ != (#[trigger] entries@[b]).0@ by {
                    if a < i {
                        if b < i {
                            assert(old(self).entries@[a] == entries@[a]);
                            assert(old(self).entries@[b] == entries@[b]);
                        } else {
                            assert(old(self).entries@[a] == entries@[a]);
                            assert(old(self).entries@[b + 1] == entries@[b]);
                        }
                    } else {
                        assert(old(self).entries@[a + 1] == entries@[a]);
                        assert(old(self).entries@[b + 1] == entries@[b]);
                    }
                }
                self.entries = entries;
                proof {
                    use_type_invariant(&*self);
                    assert forall|key: (nat, Seq<char>)| #[trigger] self@.contains_key(key)
                        == old_map.remove(k@).contains_key(key) && (self@.contains_key(key)
                        ==> self@[key] == old_map.remove(k@)[key]) by {
                        if self@.contains_key(key) {
                            let j = self.key_index(key);
                            let oj = if j < i { j } else { j + 1 };
                            assert(old(self).entries@[oj] == self.entries@[j]);
                            old(self).lemma_entry(oj);
                            assert(oj != i as int) by {
                                if oj == i as int {
                                    assert(old(self).entries@[oj].0@ == k@);
                                }
                            }
                            self.lemma_entry(j);
                        } else if old_map.contains_key(key) && key != k@ {
                            let oj = old(self).key_index(key);
                            old(self).lemma_entry(oj);
                            assert(oj != i);
                            let j = if oj < i { oj } else { oj - 1 };
                            assert(self.entries@[j] == old(self).entries@[oj]);
                        }
                    }
                    assert(self@ =~= old_map.remove(k@));
                }
                Some(o)
            },
            None => {
                proof {
                    self.lemma_absent(k@);
                    assert(self@ =~= old_map.remove(k@));
                }
                None
            },
        }
    }

    /// The cursors and their values, in no particular order.
    pub fn entries(&self) -> (r: &Vec<(Cursor, V)>)
        ensures
            forall|i: int| 0 <= i < r.len() ==> self@.contains_key((#[trigger] r@[i]).0@)
                && self@[r@[i].0@] == r@[i].1@,
            forall|k: (nat, Seq<char>)| #[trigger] self@.contains_key(k) ==> exists|i: int|
                0 <= i < r.len() && (#[trigger] r@[i]).0@ == k,
            forall|i: int, j: int| 0 <= i < j < r.len() ==> (#[trigger] r@[i]).0@ != (
            #[trigger] r@[j]).0@,
    {
        proof {
            use_type_invariant(self);
            assert forall|i: int| 0 <= i < self.entries.len() implies self@.contains_key(
                (#[trigger] self.entries@[i]).0@,
            ) && self@[self.entries@[i].0@] == self.entries@[i].1@ by {
                self.lemma_entry(i);
            }
            assert forall|k: (nat, Seq<char>)| #[trigger] self@.contains_key(k) implies exists|
                i: int,
            | 0 <= i < self.entries.len() && (#[trigger] self.entries@[i]).0@ == k by {
                let i = self.key_index(k);
            }
        }
        &self.entries
    }

    /// The cursors and their values, in no particular order.
    pub fn into_entries(self) -> (r: Vec<(Cursor, V)>)
        ensures
            forall|i: int| 0 <= i < r.len() ==> self@.contains_key((#[trigger] r@[i]).0@)
                && self@[r@[i].0@] == r@[i].1@,
            forall|k: (nat, Seq<char>)| #[trigger] self@.contains_key(k) ==> exists|i: int|
                0 <= i < r.len() && (#[trigger] r@[i]).0@ == k,
            forall|i: int, j: int| 0 <= i < j < r.len() ==> (#[trigger] r@[i]).0@ != (
            #[trigger] r@[j]).0@,
    {
        proof {
            use_type_invariant(&self);
            assert forall|i: int| 0 <= i < self.entries.len() implies self@.contains_key(
                (#[trigger] self.entries@[i]).0@,
            ) && self@[self.entries@[i].0@] == self.entries@[i].1@ by {
                self.lemma_entry(i);
            }
            assert forall|k: (nat, Seq<char>)| #[trigger] self@.contains_key(k) implies exists|
                i: int,
            | 0 <= i < self.entries.len() && (#[trigger] self.entries@[i]).0@ == k by {
                let i = self.key_index(k);
            }
        }
        self.entries
    }
}

/// The abstract value: a finite map from cursor views to value views.
impl<V: View> View for CursorMap<V> {
    type V = Map<(nat, Seq<char>), V::V>;

    closed spec fn view(&self) -> Map<(nat, Seq<char>), V::V> {
        Map::new(|k: (nat, Seq<char>)| self.has_key_at(k), |k: (nat, Seq<char>)| self.entries@[self.key_index(k)].1@)
    }
}

} // verus!
