//! A map from strings to values, kept as a list of entries whose keys are
//! pairwise distinct. Its view is the finite map from key text to value.
use vstd::prelude::*;
use crate::order::{sort_strings, strictly_sorted};

verus! {

broadcast use vstd::string::group_string_axioms;

/// A string-keyed map. Entries keep the order in which their keys were
/// first inserted; no key occurs twice.
pub struct StringMap<V> {
    keys: Vec<String>,
    vals: Vec<V>,
}

/// True when no key text occurs twice in `ks`.
pub open spec fn distinct_keys(ks: Seq<Seq<char>>) -> bool {
    forall|i: int, j: int| 0 <= i < ks.len() && 0 <= j < ks.len() && i != j ==> ks[i] != ks[j]
}

impl<V> StringMap<V> {
    #[verifier::type_invariant]
    spec fn well_formed(self) -> bool {
        &&& self.keys@.len() == self.vals@.len()
        &&& distinct_keys(self.key_seq())
    }

    /// The key texts, in entry order.
    pub closed spec fn key_seq(self) -> Seq<Seq<char>> {
        self.keys@.map_values(|k: String| k@)
    }

    spec fn index_of(self, k: Seq<char>) -> int {
        choose|i: int| 0 <= i < self.keys@.len() && self.keys@[i]@ == k
    }

    proof fn lemma_index(self, i: int)
        requires
            self.well_formed(),
            0 <= i < self.keys@.len(),
        ensures
            self@.contains_key(self.keys@[i]@),
            self@[self.keys@[i]@] == self.vals@[i],
    {
        let k = self.keys@[i]@;
        assert(self.key_seq()[i] == k);
        let j = self.index_of(k);
        assert(self.key_seq()[j] == k);
    }

    proof fn lemma_absent(self, k: Seq<char>)
        requires
            forall|i: int| 0 <= i < self.keys@.len() ==> self.keys@[i]@ != k,
        ensures
            !self@.contains_key(k),
    {
    }

    /// The map with no entries.
    pub fn new() -> (m: Self)
        ensures
            m@ == Map::<Seq<char>, V>::empty(),
    {
        let m = StringMap { keys: Vec::new(), vals: Vec::new() };
        assert(m@ =~= Map::<Seq<char>, V>::empty());
        m
    }

    /// The number of entries.
    pub fn len(&self) -> (n: usize)
        ensures
            n == self@.dom().len(),
    {
        proof {
            use_type_invariant(self);
            self.lemma_dom_is_keys();
            self.key_seq().unique_seq_to_set();
        }
        self.keys.len()
    }

    proof fn lemma_dom_is_keys(self)
        requires
            self.well_formed(),
        ensures
            self@.dom() == self.key_seq().to_set(),
            self@.dom().finite(),
    {
        assert forall|k: Seq<char>| self@.dom().contains(k) implies self.key_seq().to_set().contains(
            k,
        ) by {
            let i = choose|i: int| 0 <= i < self.keys@.len() && self.keys@[i]@ == k;
            assert(self.key_seq()[i] == k);
        }
        assert forall|k: Seq<char>| self.key_seq().to_set().contains(k) implies self@.dom().contains(
            k,
        ) by {
            let i = choose|i: int| 0 <= i < self.key_seq().len() && self.key_seq()[i] == k;
            assert(self.keys@[i]@ == k);
        }
        assert(self@.dom() =~= self.key_seq().to_set());
        self.key_seq().lemma_cardinality_of_set();
    }

    /// Position of the entry whose key has the text `k`, if any.
    fn find(&self, k: &str) -> (r: Option<usize>)
        ensures
            match r {
                Some(i) => i < self.keys@.len() && self.keys@[i as int]@ == k@,
                None => forall|i: int| 0 <= i < self.keys@.len() ==> self.keys@[i]@ != k@,
            },
    {
        let target = k.to_string();
        let mut i: usize = 0;
        while i < self.keys.len()
            invariant
                i <= self.keys@.len(),
                target@ == k@,
                forall|j: int| 0 <= j < i ==> self.keys@[j]@ != k@,
            decreases self.keys@.len() - i,
        {
            if self.keys[i] == target {
                return Some(i);
            }
            i += 1;
        }
        None
    }

    /// Whether some entry has the key `k`.
    pub fn contains_key(&self, k: &str) -> (b: bool)
        ensures
            b == self@.contains_key(k@),
    {
        proof {
            use_type_invariant(self);
        }
        match self.find(k) {
            Some(i) => {
                proof {
                    self.lemma_index(i as int);
                }
                true
            },
            None => false,
        }
    }

    /// The value stored under `k`, if any.
    pub fn get(&self, k: &str) -> (r: Option<&V>)
        ensures
            match r {
                Some(v) => self@.contains_key(k@) && *v == self@[k@],
                None => !self@.contains_key(k@),
            },
    {
        proof {
            use_type_invariant(self);
        }
        match self.find(k) {
            Some(i) => {
                proof {
                    self.lemma_index(i as int);
                }
                Some(&self.vals[i])
            },
            None => None,
        }
    }

    /// Stores `v` under `k`, replacing any value stored there before.
    pub fn insert(&mut self, k: String, v: V)
        ensures
            final(self)@ == old(self)@.insert(k@, v),
    {
        proof {
            use_type_invariant(&*self);
        }
        let ghost old_map = self@;
        let ghost old_keys = self.keys@;
        let ghost old_vals = self.vals@;
        match self.find(k.as_str()) {
            Some(i) => {
                let mut taken = StringMap { keys: Vec::new(), vals: Vec::new() };
                std::mem::swap(&mut taken, self);
                let StringMap { keys, mut vals } = taken;
                vals.set(i, v);
                *self = StringMap { keys, vals };
                proof {
                    assert(self.key_seq() == old(self).key_seq());
                    let new_map = self@;
                    assert forall|q: Seq<char>| #![auto]
                        new_map.contains_key(q) == old_map.insert(k@, v).contains_key(q) by {
                        if q != k@ {
                            if new_map.contains_key(q) {
                                let j = choose|j: int| 0 <= j < self.keys@.len() && self.keys@[j]@ == q;
                                assert(old_keys[j]@ == q);
                            }
                            if old_map.contains_key(q) {
                                let j = choose|j: int| 0 <= j < old_keys.len() && old_keys[j]@ == q;
                                assert(self.keys@[j]@ == q);
                            }
                        } else {
                            self.lemma_index(i as int);
                        }
                    }
                    assert forall|q: Seq<char>| new_map.contains_key(q) implies new_map[q] == old_map.insert(
                        k@,
                        v,
                    )[q] by {
                        let j = choose|j: int| 0 <= j < self.keys@.len() && self.keys@[j]@ == q;
                        self.lemma_index(j);
                        assert(old(self).key_seq()[j] == q);
                        old(self).lemma_index(j);
                        if j != i {
                            assert(self.key_seq()[j] != self.key_seq()[i as int]);
                        }
                    }
                    assert(new_map =~= old_map.insert(k@, v));
                }
            },
            None => {
                let ghost kv = k@;
                let mut taken = StringMap { keys: Vec::new(), vals: Vec::new() };
                std::mem::swap(&mut taken, self);
                let StringMap { mut keys, mut vals } = taken;
                proof {
                    assert(keys@.map_values(|s: String| s@) =~= old_keys.map_values(|s: String| s@));
                    assert(keys@.map_values(|s: String| s@).push(kv) =~= keys@.push(k).map_values(|s: String| s@));
                }
                keys.push(k);
                vals.push(v);
                *self = StringMap { keys, vals };
                proof {
                    let n = old_keys.len() as int;
                    assert(self.key_seq() =~= old(self).key_seq().push(kv));
                    assert(self.keys@[n]@ == kv);
                    let new_map = self@;
                    assert forall|q: Seq<char>| #![auto]
                        new_map.contains_key(q) == old_map.insert(kv, v).contains_key(q) by {
                        if new_map.contains_key(q) && q != kv {
                            let j = choose|j: int| 0 <= j < self.keys@.len() && self.keys@[j]@ == q;
                            assert(j != n);
                            assert(old_keys[j]@ == q);
                        }
                        if old_map.contains_key(q) {
                            let j = choose|j: int| 0 <= j < old_keys.len() && old_keys[j]@ == q;
                            assert(self.keys@[j]@ == q);
                        }
                        if q == kv {
                            assert(self.keys@[n]@ == q);
                        }
                    }
                    assert forall|q: Seq<char>| new_map.contains_key(q) implies new_map[q] == old_map.insert(
                        kv,
                        v,
                    )[q] by {
                        let j = choose|j: int| 0 <= j < self.keys@.len() && self.keys@[j]@ == q;
                        self.lemma_index(j);
                        if j < n {
                            assert(old(self).keys@[j]@ == q);
                            old(self).lemma_index(j);
                        }
                    }
                    assert(new_map =~= old_map.insert(kv, v));
                }
            },
        }
    }

    /// Removes the entry for `k`, handing back its value if there was one.
    pub fn remove(&mut self, k: &str) -> (r: Option<V>)
        ensures
            final(self)@ == old(self)@.remove(k@),
            r == (if old(self)@.contains_key(k@) {
                Some(old(self)@[k@])
            } else {
                None::<V>
            }),
    {
        proof {
            use_type_invariant(&*self);
        }
        let ghost old_map = self@;
        let ghost old_keys = self.keys@;
        match self.find(k) {
            None => {
                proof {
                    self.lemma_absent(k@);
                    assert(old_map.remove(k@) =~= old_map);
                }
                None
            },
            Some(i) => {
                proof {
                    self.lemma_index(i as int);
                }
                let mut taken = StringMap { keys: Vec::new(), vals: Vec::new() };
                std::mem::swap(&mut taken, self);
                let StringMap { mut keys, mut vals } = taken;
                let ghost old_vals = vals@;
                let _ = keys.remove(i);
                let v = vals.remove(i);
                proof {
                    let ks = keys@.map_values(|s: String| s@);
                    let oks = old_keys.map_values(|s: String| s@);
                    assert forall|a: int, b: int|
                        0 <= a < ks.len() && 0 <= b < ks.len() && a != b implies ks[a] != ks[b] by {
                        let a2 = if a < i { a } else { a + 1 };
                        let b2 = if b < i { b } else { b + 1 };
                        assert(ks[a] == oks[a2]);
                        assert(ks[b] == oks[b2]);
                    }
                }
                *self = StringMap { keys, vals };
                proof {
                    let new_map = self@;
                    let n = self.keys@.len() as int;
                    assert forall|q: Seq<char>| #![auto]
                        new_map.contains_key(q) == old_map.remove(k@).contains_key(q) by {
                        if new_map.contains_key(q) {
                            let j = choose|j: int| 0 <= j < n && self.keys@[j]@ == q;
                            let j2 = if j < i { j } else { j + 1 };
                            assert(old_keys[j2]@ == q);
                            assert(old(self).key_seq()[j2] == q);
                            assert(old(self).key_seq()[i as int] == k@);
                        }
                        if old_map.contains_key(q) && q != k@ {
                            let j = choose|j: int| 0 <= j < old_keys.len() && old_keys[j]@ == q;
                            assert(j != i);
                            let j2 = if j < i { j } else { j - 1 };
                            assert(self.keys@[j2]@ == q);
                        }
                    }
                    assert forall|q: Seq<char>| new_map.contains_key(q) implies new_map[q]
                        == old_map.remove(k@)[q] by {
                        let j = choose|j: int| 0 <= j < n && self.keys@[j]@ == q;
                        self.lemma_index(j);
                        let j2 = if j < i { j } else { j + 1 };
                        assert(old_keys[j2]@ == q);
                        old(self).lemma_index(j2);
                    }
                    assert(new_map =~= old_map.remove(k@));
                }
                Some(v)
            },
        }
    }

    /// The entries, as parallel vectors of keys and values.
    pub fn into_parts(self) -> (r: (Vec<String>, Vec<V>))
        ensures
            r.0@.len() == r.1@.len(),
            distinct_keys(r.0@.map_values(|s: String| s@)),
            forall|i: int|
                #![trigger r.0@[i]]
                0 <= i < r.0@.len() ==> self@.contains_key(r.0@[i]@) && self@[r.0@[i]@] == r.1@[i],
            forall|k: Seq<char>|
                self@.contains_key(k) ==> exists|i: int| 0 <= i < r.0@.len() && r.0@[i]@ == k,
    {
        proof {
            use_type_invariant(&self);
            assert forall|i: int| 0 <= i < self.keys@.len() implies self@.contains_key(self.keys@[i]@)
                && self@[self.keys@[i]@] == self.vals@[i] by {
                self.lemma_index(i);
            }
        }
        let StringMap { keys, vals } = self;
        (keys, vals)
    }

    /// Stores every entry of `other`, whose values win over those already
    /// stored under the same keys.
    pub fn extend(&mut self, other: Self)
        ensures
            final(self)@ == old(self)@.union_prefer_right(other@),
    {
        let ghost om = other@;
        let ghost start = self@;
        let (mut ks, mut vs) = other.into_parts();
        let ghost all_ks = ks@;
        let ghost all_vs = vs@;
        let ghost aks = all_ks.map_values(|s: String| s@);
        while ks.len() > 0
            invariant
                ks@.len() == vs@.len() <= all_ks.len() == all_vs.len(),
                ks@ == all_ks.take(ks@.len() as int),
                vs@ == all_vs.take(vs@.len() as int),
                aks == all_ks.map_values(|s: String| s@),
                distinct_keys(aks),
                forall|i: int|
                    #![trigger all_ks[i]]
                    0 <= i < all_ks.len() ==> om.contains_key(all_ks[i]@) && om[all_ks[i]@]
                        == all_vs[i],
                forall|k: Seq<char>|
                    om.contains_key(k) ==> exists|i: int| 0 <= i < all_ks.len() && all_ks[i]@ == k,
                forall|k: Seq<char>| #![auto]
                    self@.contains_key(k) == (start.contains_key(k) || (om.contains_key(k) && !(
                    exists|j: int| 0 <= j < ks@.len() && all_ks[j]@ == k))),
                forall|k: Seq<char>| #![auto]
                    self@.contains_key(k) ==> self@[k] == (if om.contains_key(k) && !(exists|j: int|
                        0 <= j < ks@.len() && all_ks[j]@ == k) {
                        om[k]
                    } else {
                        start[k]
                    }),
            decreases ks@.len(),
        {
            let ghost n = ks@.len() as int;
            let k = ks.pop().unwrap();
            let v = vs.pop().unwrap();
            proof {
                assert(k == all_ks[n - 1]);
                assert(v == all_vs[n - 1]);
                assert(ks@ =~= all_ks.take(n - 1));
                assert(vs@ =~= all_vs.take(n - 1));
                assert(aks[n - 1] == k@);
                assert forall|j: int| 0 <= j < n - 1 implies all_ks[j]@ != k@ by {
                    assert(aks[j] == all_ks[j]@);
                }
            }
            self.insert(k, v);
        }
        proof {
            assert(self@ =~= start.union_prefer_right(om));
        }
    }

    /// Copies of the keys, in entry order.
    pub fn keys(&self) -> (r: Vec<String>)
        ensures
            r@.map_values(|s: String| s@).to_set() == self@.dom(),
            r@.map_values(|s: String| s@).no_duplicates(),
    {
        proof {
            use_type_invariant(self);
            self.lemma_dom_is_keys();
        }
        let mut r: Vec<String> = Vec::new();
        let mut i: usize = 0;
        while i < self.keys.len()
            invariant
                i <= self.keys@.len(),
                r@.map_values(|s: String| s@) =~= self.key_seq().take(i as int),
            decreases self.keys@.len() - i,
        {
            r.push(self.keys[i].clone());
            proof {
                assert(self.key_seq().take(i + 1) =~= self.key_seq().take(i as int).push(self.keys@[i as int]@));
            }
            i += 1;
        }
        proof {
            assert(self.key_seq().take(i as int) =~= self.key_seq());
        }
        r
    }

    /// The keys in strictly increasing lexicographic order.
    pub fn sorted_keys(&self) -> (r: Vec<String>)
        ensures
            strictly_sorted(r@.map_values(|s: String| s@)),
            r@.map_values(|s: String| s@).to_set() == self@.dom(),
            r@.len() == self@.dom().len(),
    {
        let ks = self.keys();
        let ghost kv = ks@.map_values(|s: String| s@);
        proof {
            kv.unique_seq_to_set();
        }
        sort_strings(ks)
    }

    /// Whether the map has no entries.
    pub fn is_empty(&self) -> (b: bool)
        ensures
            b == (self@.dom().len() == 0),
    {
        self.len() == 0
    }
}

impl<V> View for StringMap<V> {
    type V = Map<Seq<char>, V>;

    closed spec fn view(&self) -> Map<Seq<char>, V> {
        Map::new(
            |k: Seq<char>| exists|i: int| 0 <= i < self.keys@.len() && self.keys@[i]@ == k,
            |k: Seq<char>| self.vals@[self.index_of(k)],
        )
    }
}

impl<V: Clone> Clone for StringMap<V> {
    /// A copy with the same keys, each value a clone of the value it copies.
    fn clone(&self) -> (r: Self)
        ensures
            r@.dom() == self@.dom(),
            forall|k: Seq<char>| #[trigger] r@.contains_key(k) ==> cloned(self@[k], r@[k]),
    {
        proof {
            use_type_invariant(self);
        }
        let mut keys: Vec<String> = Vec::new();
        let mut vals: Vec<V> = Vec::new();
        let mut i: usize = 0;
        while i < self.keys.len()
            invariant
                i <= self.keys@.len() == self.vals@.len(),
                keys@.len() == i,
                vals@.len() == i,
                forall|j: int| 0 <= j < i ==> #[trigger] keys@[j] == self.keys@[j],
                forall|j: int| 0 <= j < i ==> cloned(self.vals@[j], #[trigger] vals@[j]),
            decreases self.keys@.len() - i,
        {
            keys.push(self.keys[i].clone());
            vals.push(self.vals[i].clone());
            i += 1;
        }
        proof {
            assert(keys@ =~= self.keys@);
            assert(keys@.map_values(|s: String| s@) =~= self.key_seq());
        }
        let r = StringMap { keys, vals };
        proof {
            assert forall|k: Seq<char>| #![auto] r@.contains_key(k) == self@.contains_key(k) by {
            }
            assert(r@.dom() =~= self@.dom());
            assert forall|k: Seq<char>| #[trigger] r@.contains_key(k) implies cloned(self@[k], r@[k]) by {
                let j = choose|j: int| 0 <= j < r.keys@.len() && r.keys@[j]@ == k;
                r.lemma_index(j);
                self.lemma_index(j);
            }
        }
        r
    }
}

/// A read gives back the last write: after storing `v` under `k`, `k`
/// holds `v` and every other key holds what it held before.
pub proof fn lemma_read_after_write<V>(m: StringMap<V>, k: Seq<char>, v: V, other: Seq<char>)
    requires
        other != k,
    ensures
        m@.insert(k, v).contains_key(k),
        m@.insert(k, v)[k] == v,
        m@.insert(k, v).contains_key(other) == m@.contains_key(other),
        m@.contains_key(other) ==> m@.insert(k, v)[other] == m@[other],
{
}

/// After removing `k` no value is stored under it, and every other key
/// keeps its value.
pub proof fn lemma_read_after_remove<V>(m: StringMap<V>, k: Seq<char>, other: Seq<char>)
    requires
        other != k,
    ensures
        !m@.remove(k).contains_key(k),
        m@.remove(k).contains_key(other) == m@.contains_key(other),
        m@.contains_key(other) ==> m@.remove(k)[other] == m@[other],
{
}

/// Copies a map of strings; the copy has the same view.
pub fn clone_strings(m: &StringMap<String>) -> (r: StringMap<String>)
    ensures
        r@ == m@,
{
    let r = m.clone();
    assert(r@ =~= m@);
    r
}

} // verus!
