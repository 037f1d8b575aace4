//! A small map from text keys to values, kept as a list in which no key
//! occurs twice.
use vstd::prelude::*;
use crate::text::str_eq;

verus! {

/// A map from text keys to values.
pub struct KeyedList<V> {
    entries: Vec<(String, V)>,
}

/// Entry `i` has the key `k`.
pub open spec fn key_at<V>(entries: Seq<(String, V)>, i: int, k: Seq<char>) -> bool {
    0 <= i < entries.len() && entries[i].0@ == k
}

/// No key occurs twice.
pub open spec fn keys_unique<V>(entries: Seq<(String, V)>) -> bool {
    forall|i: int, j: int|
        0 <= i < entries.len() && 0 <= j < entries.len() && i != j ==> (#[trigger] entries[i]).0@
            != (#[trigger] entries[j]).0@
}

impl<V> KeyedList<V> {
    #[verifier::type_invariant]
    spec fn unique(self) -> bool {
        keys_unique(self.entries@)
    }

    /// The map that the list holds.
    pub closed spec fn map(&self) -> Map<Seq<char>, V> {
        Map::new(
            |k: Seq<char>| exists|i: int| key_at(self.entries@, i, k),
            |k: Seq<char>| self.entries@[choose|i: int| key_at(self.entries@, i, k)].1,
        )
    }

    /// An empty map.
    pub fn new() -> (r: Self)
        ensures
            r.map() == Map::<Seq<char>, V>::empty(),
    {
        let r = KeyedList { entries: Vec::new() };
        assert(r.map() =~= Map::<Seq<char>, V>::empty());
        r
    }

    /// The number of keys.
    pub fn len(&self) -> (r: usize)
        ensures
            r == self.map().dom().len(),
    {
        proof {
            use_type_invariant(self);
            self.lemma_dom();
        }
        self.entries.len()
    }

    proof fn lemma_dom(&self)
        requires
            keys_unique(self.entries@),
        ensures
            self.map().dom().finite(),
            self.map().dom().len() == self.entries@.len(),
            self.map().dom() == self.entries@.map_values(|e: (String, V)| e.0@).to_set(),
    {
        let keys = self.entries@.map_values(|e: (String, V)| e.0@);
        assert(self.map().dom() =~= keys.to_set()) by {
            assert forall|k: Seq<char>| self.map().dom().contains(k) implies keys.to_set().contains(
                k,
            ) by {
                let i = choose|i: int| key_at(self.entries@, i, k);
                assert(keys[i] == k);
            }
            assert forall|k: Seq<char>| keys.to_set().contains(k) implies self.map().dom().contains(
                k,
            ) by {
                let i = choose|i: int| 0 <= i < keys.len() && keys[i] == k;
                assert(key_at(self.entries@, i, k));
            }
        }
        assert(keys.no_duplicates()) by {
            assert forall|i: int, j: int|
                0 <= i < keys.len() && 0 <= j < keys.len() && i != j implies keys[i] != keys[j] by {
                assert(self.entries@[i].0@ != self.entries@[j].0@);
            }
        }
        keys.unique_seq_to_set();
    }

    /// The index of the entry with the key `key`.
    fn index_of(&self, key: &str) -> (r: Option<usize>)
        ensures
            r is None <==> !self.map().dom().contains(key@),
            r matches Some(i) ==> key_at(self.entries@, i as int, key@) && self.map()[key@]
                == self.entries@[i as int].1,
    {
        proof {
            use_type_invariant(self);
        }
        let mut i: usize = 0;
        while i < self.entries.len()
            invariant
                i <= self.entries.len(),
                keys_unique(self.entries@),
                forall|k: int| 0 <= k < i ==> !key_at(self.entries@, k, key@),
            decreases self.entries.len() - i,
        {
            if str_eq(self.entries[i].0.as_str(), key) {
                proof {
                    let c = choose|c: int| key_at(self.entries@, c, key@);
                    assert(key_at(self.entries@, i as int, key@));
                    if c != i {
                        assert(self.entries@[c].0@ != self.entries@[i as int].0@);
                    }
                }
                return Some(i);
            }
            i = i + 1;
        }
        None
    }

    /// The value under `key`, if there is one.
    pub fn get(&self, key: &str) -> (r: Option<&V>)
        ensures
            r is Some <==> self.map().dom().contains(key@),
            r matches Some(v) ==> self.map()[key@] == *v,
    {
        match self.index_of(key) {
            Some(i) => Some(&self.entries[i].1),
            None => None,
        }
    }

    /// Puts `value` under `key`, in place of what was there.
    pub fn insert(&mut self, key: String, value: V)
        ensures
            final(self).map() == old(self).map().insert(key@, value),
    {
        proof {
            use_type_invariant(&*self);
        }
        let ghost old_map = self.map();
        let ghost old_entries = self.entries@;
        let ghost kv = key@;
        let ghost vv = value;
        match self.index_of(key.as_str()) {
            Some(i) => {
                let mut entries: Vec<(String, V)> = Vec::new();
                std::mem::swap(&mut entries, &mut self.entries);
                let _ = entries.remove(i);
                entries.insert(i, (key, value));
                assert(entries@ =~= old_entries.update(i as int, entries@[i as int]));
                assert(keys_unique(entries@)) by {
                    assert forall|a: int, b: int|
                        0 <= a < entries@.len() && 0 <= b < entries@.len() && a != b implies (
                        #[trigger] entries@[a]).0@ != (#[trigger] entries@[b]).0@ by {
                        assert(old_entries[a].0@ != old_entries[b].0@);
                    }
                }
                self.entries = entries;
            },
            None => {
                let mut entries: Vec<(String, V)> = Vec::new();
                std::mem::swap(&mut entries, &mut self.entries);
                entries.push((key, value));
                assert(keys_unique(entries@)) by {
                    assert forall|a: int, b: int|
                        0 <= a < entries@.len() && 0 <= b < entries@.len() && a != b implies (
                        #[trigger] entries@[a]).0@ != (#[trigger] entries@[b]).0@ by {
                        if a < old_entries.len() && b < old_entries.len() {
                            assert(old_entries[a].0@ != old_entries[b].0@);
                        } else if a < old_entries.len() {
                            assert(!key_at(old_entries, a, kv));
                        } else {
                            assert(!key_at(old_entries, b, kv));
                        }
                    }
                }
                self.entries = entries;
            },
        }
        proof {
            let m = self.map();
            let e = self.entries@;
            assert forall|k: Seq<char>| #[trigger] m.dom().contains(k) == old_map.insert(
                kv,
                vv,
            ).dom().contains(k) by {
                if k == kv {
                    let j = if old_map.dom().contains(kv) {
                        choose|j: int| key_at(old_entries, j, kv)
                    } else {
                        old_entries.len() as int
                    };
                    assert(key_at(e, j, kv));
                } else if old_map.dom().contains(k) {
                    let j = choose|j: int| key_at(old_entries, j, k);
                    assert(key_at(e, j, k));
                } else if m.dom().contains(k) {
                    let j = choose|j: int| key_at(e, j, k);
                    assert(key_at(old_entries, j, k));
                }
            }
            assert forall|k: Seq<char>| #[trigger] m.dom().contains(k) implies m[k] == old_map.insert(
                kv,
                vv,
            )[k] by {
                let c = choose|c: int| key_at(e, c, k);
                if k == kv {
                    assert(e[c].1 == vv) by {
                        if old_map.dom().contains(kv) {
                            let j = choose|j: int| key_at(old_entries, j, kv);
                            assert(key_at(e, j, kv));
                            if c != j {
                                assert(e[c].0@ != e[j].0@);
                            }
                        } else {
                            assert(key_at(e, old_entries.len() as int, kv));
                            if c != old_entries.len() {
                                assert(e[c].0@ != e[old_entries.len() as int].0@);
                            }
                        }
                    }
                } else {
                    assert(key_at(old_entries, c, k));
                    let d = choose|d: int| key_at(old_entries, d, k);
                    if c != d {
                        assert(old_entries[c].0@ != old_entries[d].0@);
                    }
                }
            }
            assert(m =~= old_map.insert(kv, vv));
        }
    }

    /// Takes the value under `key` out of the map, if there is one.
    pub fn remove(&mut self, key: &str) -> (r: Option<V>)
        ensures
            r is Some <==> old(self).map().dom().contains(key@),
            r matches Some(v) ==> old(self).map()[key@] == v,
            final(self).map() == old(self).map().remove(key@),
    {
        proof {
            use_type_invariant(&*self);
        }
        let ghost old_map = self.map();
        let ghost old_entries = self.entries@;
        let ghost kv = key@;
        match self.index_of(key) {
            Some(i) => {
                let mut entries: Vec<(String, V)> = Vec::new();
                std::mem::swap(&mut entries, &mut self.entries);
                let (_, v) = entries.remove(i);
                assert(entries@ =~= old_entries.remove(i as int));
                assert(keys_unique(entries@)) by {
                    assert forall|a: int, b: int|
                        0 <= a < entries@.len() && 0 <= b < entries@.len() && a != b implies (
                        #[trigger] entries@[a]).0@ != (#[trigger] entries@[b]).0@ by {
                        let oa = if a < i { a } else { a + 1 };
                        let ob = if b < i { b } else { b + 1 };
                        assert(old_entries[oa].0@ != old_entries[ob].0@);
                    }
                }
                self.entries = entries;
                proof {
                    let m = self.map();
                    let e = self.entries@;
                    assert forall|k: Seq<char>| #[trigger] m.dom().contains(k) == old_map.remove(
                        kv,
                    ).dom().contains(k) by {
                        if m.dom().contains(k) {
                            let j = choose|j: int| key_at(e, j, k);
                            let oj = if j < i { j } else { j + 1 };
                            assert(key_at(old_entries, oj, k));
                            if k == kv {
                                assert(old_entries[oj].0@ == old_entries[i as int].0@);
                            }
                        } else if old_map.dom().contains(k) && k != kv {
                            let j = choose|j: int| key_at(old_entries, j, k);
                            assert(j != i);
                            let nj = if j < i { j } else { j - 1 };
                            assert(key_at(e, nj, k));
                        }
                    }
                    assert forall|k: Seq<char>| #[trigger] m.dom().contains(k) implies m[k]
                        == old_map.remove(kv)[k] by {
                        let c = choose|c: int| key_at(e, c, k);
                        let oc = if c < i { c } else { c + 1 };
                        assert(key_at(old_entries, oc, k));
                        let d = choose|d: int| key_at(old_entries, d, k);
                        if oc != d {
                            assert(old_entries[oc].0@ != old_entries[d].0@);
                        }
                    }
                    assert(m =~= old_map.remove(kv));
                }
                Some(v)
            },
            None => {
                assert(old_map.remove(kv) =~= old_map);
                None
            },
        }
    }
}

} // verus!
