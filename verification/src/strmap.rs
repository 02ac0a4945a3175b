//! A map keyed by text, in insertion order of its keys.
use crate::text::{lemma_lex_order, lex_lt, str_eq, str_lt};
use vstd::prelude::*;

verus! {

/// A map from text keys to values; a later insertion under a key replaces the value.
#[derive(Debug, PartialEq, Eq)]
pub struct StrMap<V> {
    entries: Vec<(String, V)>,
}

impl<V> StrMap<V> {
    /// The keys are distinct and in increasing order.
    #[verifier::type_invariant]
    spec fn distinct_keys(self) -> bool {
        &&& forall|i: int, j: int|
            0 <= i < j < self.entries@.len() ==> (#[trigger] self.entries@[i]).0@ != (
            #[trigger] self.entries@[j]).0@
        &&& forall|i: int, j: int|
            0 <= i < j < self.entries@.len() ==> lex_lt(
                (#[trigger] self.entries@[i]).0@,
                (#[trigger] self.entries@[j]).0@,
            )
    }

    /// The number of keys.
    pub closed spec fn spec_len(&self) -> nat {
        self.entries@.len()
    }
}

impl<V> View for StrMap<V> {
    type V = Map<Seq<char>, V>;

    closed spec fn view(&self) -> Map<Seq<char>, V> {
        Map::new(
            |k: Seq<char>|
                exists|i: int| 0 <= i < self.entries@.len() && (#[trigger] self.entries@[i]).0@ == k,
            |k: Seq<char>|
                {
                    let i = choose|i: int|
                        0 <= i < self.entries@.len() && (#[trigger] self.entries@[i]).0@ == k;
                    self.entries@[i].1
                },
        )
    }
}

impl<V> StrMap<V> {
    pub fn new() -> (m: Self)
        ensures
            m@ == Map::<Seq<char>, V>::empty(),
            m.spec_len() == 0,
    {
        let m = StrMap { entries: Vec::new() };
        assert(m@ =~= Map::<Seq<char>, V>::empty());
        m
    }

    /// The index of `key`, if present.
    fn index_of(&self, key: &str) -> (r: Option<usize>)
        ensures
            match r {
                Some(i) => i < self.entries@.len() && self.entries@[i as int].0@ == key@,
                None => forall|i: int|
                    0 <= i < self.entries@.len() ==> (#[trigger] self.entries@[i]).0@ != key@,
            },
    {
        let mut i: usize = 0;
        while i < self.entries.len()
            invariant
                i <= self.entries@.len(),
                forall|q: int| 0 <= q < i ==> (#[trigger] self.entries@[q]).0@ != key@,
            decreases self.entries@.len() - i,
        {
            if str_eq(self.entries[i].0.as_str(), key) {
                return Some(i);
            }
            i += 1;
        }
        None
    }

    /// The value under `key`.
    pub fn get(&self, key: &str) -> (r: Option<&V>)
        ensures
            match r {
                Some(v) => self@.contains_key(key@) && *v == self@[key@],
                None => !self@.contains_key(key@),
            },
    {
        match self.index_of(key) {
            Some(i) => {
                proof {
                    use_type_invariant(self);
                    lemma_at_entries(self.entries@, i as int, self@);
                }
                Some(&self.entries[i].1)
            },
            None => None,
        }
    }

    /// Whether `key` is present.
    pub fn contains_key(&self, key: &str) -> (r: bool)
        ensures
            r == self@.contains_key(key@),
    {
        self.index_of(key).is_some()
    }

    /// Sets `key` to `value`, replacing an earlier value.
    pub fn insert(&mut self, key: String, value: V)
        ensures
            final(self)@ == old(self)@.insert(key@, value),
            final(self).spec_len() == old(self).spec_len() + if old(self)@.contains_key(key@) {
                0int
            } else {
                1int
            },
    {
        proof {
            use_type_invariant(&*self);
        }
        let ghost old_map = self@;
        let ghost old_entries = self.entries@;
        match self.index_of(key.as_str()) {
            Some(i) => {
                proof {
                    lemma_at_entries(old_entries, i as int, old_map);
                }
                let mut entries: Vec<(String, V)> = Vec::new();
                std::mem::swap(&mut entries, &mut self.entries);
                entries.set(i, (key, value));
                self.entries = entries;
                proof {
                    assert forall|a: int, b: int|
                        0 <= a < b < self.entries@.len() implies (#[trigger] self.entries@[a]).0@ != (
                        #[trigger] self.entries@[b]).0@ by {
                        assert(old_entries[a].0@ != old_entries[b].0@);
                    }
                    assert forall|a: int, b: int|
                        0 <= a < b < self.entries@.len() implies lex_lt(
                            (#[trigger] self.entries@[a]).0@,
                            (#[trigger] self.entries@[b]).0@,
                        ) by {
                        assert(lex_lt(old_entries[a].0@, old_entries[b].0@));
                    }
                    assert forall|k: Seq<char>| true implies self@.contains_key(k) == old_map.insert(
                        key@,
                        value,
                    ).contains_key(k) by {
                        if k != key@ {
                            if old_map.contains_key(k) {
                                let q = choose|q: int|
                                    0 <= q < old_entries.len() && (#[trigger] old_entries[q]).0@ == k;
                                assert(self.entries@[q] == old_entries[q]);
                            }
                            if self@.contains_key(k) {
                                let q = choose|q: int|
                                    0 <= q < self.entries@.len() && (#[trigger] self.entries@[q]).0@
                                        == k;
                                assert(self.entries@[q] == old_entries[q]);
                            }
                        } else {
                            assert(self.entries@[i as int].0@ == k);
                        }
                    }
                    assert forall|k: Seq<char>| #[trigger] self@.contains_key(k) implies self@[k]
                        == old_map.insert(key@, value)[k] by {
                        let q = choose|q: int|
                            0 <= q < self.entries@.len() && (#[trigger] self.entries@[q]).0@ == k;
                        lemma_at_entries(self.entries@, q, self@);
                        if k != key@ {
                            assert(self.entries@[q] == old_entries[q]);
                            lemma_at_entries(old_entries, q, old_map);
                        }
                    }
                    assert(self@ =~= old_map.insert(key@, value));
                }
            },
            None => {
                let p = self.insert_position(key.as_str());
                let mut entries: Vec<(String, V)> = Vec::new();
                std::mem::swap(&mut entries, &mut self.entries);
                entries.insert(p, (key, value));
                self.entries = entries;
                proof {
                    let n = old_entries.len() as int;
                    let ne = self.entries@;
                    assert(ne.len() == n + 1);
                    assert forall|q: int| 0 <= q < n implies #[trigger] old_entries[q] == (if q < p {
                        ne[q]
                    } else {
                        ne[q + 1]
                    }) by {}
                    assert(ne[p as int].0@ == key@);
                    assert forall|a: int, b: int|
                        0 <= a < b < ne.len() implies lex_lt((#[trigger] ne[a]).0@, (#[trigger] ne[b]).0@) by {
                        if a < p && b < p {
                            assert(lex_lt(old_entries[a].0@, old_entries[b].0@));
                        } else if a < p && b == p {
                            assert(ne[a] == old_entries[a]);
                        } else if a < p && b > p {
                            assert(ne[a] == old_entries[a]);
                            assert(ne[b] == old_entries[b - 1]);
                        } else if a == p {
                            assert(ne[b] == old_entries[b - 1]);
                        } else {
                            assert(ne[a] == old_entries[a - 1]);
                            assert(ne[b] == old_entries[b - 1]);
                            assert(lex_lt(old_entries[a - 1].0@, old_entries[b - 1].0@));
                        }
                    }
                    assert forall|a: int, b: int|
                        0 <= a < b < ne.len() implies (#[trigger] ne[a]).0@ != (#[trigger] ne[b]).0@ by {
                        assert(lex_lt(ne[a].0@, ne[b].0@));
                        lemma_lex_order(ne[a].0@, ne[b].0@, ne[b].0@);
                    }
                    assert(!old_map.contains_key(key@)) by {
                        if old_map.contains_key(key@) {
                            let q = choose|q: int|
                                0 <= q < old_entries.len() && (#[trigger] old_entries[q]).0@ == key@;
                            assert(old_entries[q].0@ != key@);
                        }
                    }
                    assert forall|k: Seq<char>| true implies self@.contains_key(k) == old_map.insert(
                        key@,
                        value,
                    ).contains_key(k) by {
                        if k != key@ {
                            if old_map.contains_key(k) {
                                let q = choose|q: int|
                                    0 <= q < old_entries.len() && (#[trigger] old_entries[q]).0@ == k;
                                if q < p {
                                    assert(ne[q] == old_entries[q]);
                                } else {
                                    assert(ne[q + 1] == old_entries[q]);
                                }
                            }
                            if self@.contains_key(k) {
                                let q = choose|q: int| 0 <= q < ne.len() && (#[trigger] ne[q]).0@ == k;
                                if q < p {
                                    assert(ne[q] == old_entries[q]);
                                } else if q > p {
                                    assert(ne[q] == old_entries[q - 1]);
                                }
                            }
                        } else {
                            assert(ne[p as int].0@ == k);
                        }
                    }
                    assert forall|k: Seq<char>| #[trigger] self@.contains_key(k) implies self@[k]
                        == old_map.insert(key@, value)[k] by {
                        let q = choose|q: int| 0 <= q < ne.len() && (#[trigger] ne[q]).0@ == k;
                        lemma_at_entries(ne, q, self@);
                        if k != key@ {
                            if q < p {
                                assert(ne[q] == old_entries[q]);
                                lemma_at_entries(old_entries, q, old_map);
                            } else {
                                assert(ne[q] == old_entries[q - 1]);
                                lemma_at_entries(old_entries, q - 1, old_map);
                            }
                        }
                    }
                    assert(self@ =~= old_map.insert(key@, value));
                }
            },
        }
    }

    /// Where a key that is not present goes: after every key that comes before it, and
    /// before every key that comes after it.
    fn insert_position(&self, key: &str) -> (p: usize)
        requires
            forall|i: int| 0 <= i < self.entries@.len() ==> (#[trigger] self.entries@[i]).0@ != key@,
        ensures
            p <= self.entries@.len(),
            forall|i: int| 0 <= i < p ==> lex_lt((#[trigger] self.entries@[i]).0@, key@),
            forall|i: int| p <= i < self.entries@.len() ==> lex_lt(key@, (#[trigger] self.entries@[i]).0@),
    {
        proof {
            use_type_invariant(self);
        }
        let mut p: usize = 0;
        while p < self.entries.len()
            invariant
                p <= self.entries@.len(),
                forall|i: int| 0 <= i < self.entries@.len() ==> (#[trigger] self.entries@[i]).0@ != key@,
                forall|i: int| 0 <= i < p ==> lex_lt((#[trigger] self.entries@[i]).0@, key@),
            ensures
                p <= self.entries@.len(),
                forall|i: int| 0 <= i < p ==> lex_lt((#[trigger] self.entries@[i]).0@, key@),
                p < self.entries@.len() ==> lex_lt(key@, self.entries@[p as int].0@),
            decreases self.entries@.len() - p,
        {
            if str_lt(key, self.entries[p].0.as_str()) {
                break;
            }
            proof {
                lemma_lex_order(key@, self.entries@[p as int].0@, key@);
            }
            p += 1;
        }
        proof {
            if p < self.entries@.len() {
                assert forall|i: int| p <= i < self.entries@.len() implies lex_lt(key@, (#[trigger] self.entries@[i]).0@) by {
                    if i > p {
                        assert(lex_lt(self.entries@[p as int].0@, self.entries@[i].0@));
                        lemma_lex_order(key@, self.entries@[p as int].0@, self.entries@[i].0@);
                    }
                }
            }
        }
        p
    }

    /// The number of keys.
    pub fn len(&self) -> (n: usize)
        ensures
            n == self.spec_len(),
            n == self@.dom().len(),
            self@.dom().finite(),
    {
        proof {
            use_type_invariant(self);
            let keys = self.entries@.map_values(|e: (String, V)| e.0@);
            assert forall|i: int, j: int| 0 <= i < keys.len() && 0 <= j < keys.len() && i != j implies keys[i] != keys[j] by {
                if i < j {
                    assert(self.entries@[i].0@ != self.entries@[j].0@);
                } else {
                    assert(self.entries@[j].0@ != self.entries@[i].0@);
                }
            }
            assert(keys.no_duplicates());
            keys.unique_seq_to_set();
            vstd::seq_lib::seq_to_set_is_finite(keys);
            assert forall|k: Seq<char>| self@.dom().contains(k) <==> keys.to_set().contains(k) by {
                if self@.dom().contains(k) {
                    let i = choose|i: int| 0 <= i < self.entries@.len() && (#[trigger] self.entries@[i]).0@ == k;
                    assert(keys[i] == k);
                }
                if keys.to_set().contains(k) {
                    let i = choose|i: int| 0 <= i < keys.len() && keys[i] == k;
                    assert(self.entries@[i].0@ == k);
                }
            }
            assert(self@.dom() =~= keys.to_set());
        }
        self.entries.len()
    }
}

/// In a map built from entries with distinct keys, each entry's key maps to its value.
proof fn lemma_at_entries<V>(entries: Seq<(String, V)>, i: int, m: Map<Seq<char>, V>)
    requires
        0 <= i < entries.len(),
        forall|a: int, b: int|
            0 <= a < b < entries.len() ==> (#[trigger] entries[a]).0@ != (#[trigger] entries[b]).0@,
        m == Map::new(
            |k: Seq<char>| exists|q: int| 0 <= q < entries.len() && (#[trigger] entries[q]).0@ == k,
            |k: Seq<char>|
                {
                    let q = choose|q: int| 0 <= q < entries.len() && (#[trigger] entries[q]).0@ == k;
                    entries[q].1
                },
        ),
    ensures
        m.contains_key(entries[i].0@),
        m[entries[i].0@] == entries[i].1,
{
    let k = entries[i].0@;
    let q = choose|q: int| 0 <= q < entries.len() && (#[trigger] entries[q]).0@ == k;
    assert(q == i) by {
        if q < i {
            assert(entries[q].0@ != entries[i].0@);
        }
        if i < q {
            assert(entries[i].0@ != entries[q].0@);
        }
    }
}

} // verus!
