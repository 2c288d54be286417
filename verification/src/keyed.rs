//! Tables keyed by values that are compared by what they denote.

use vstd::prelude::*;

verus! {

/// A key that is compared by the value it denotes.
pub trait Identity: View {
    /// True when both keys denote the same value.
    fn same_as(&self, other: &Self) -> (same: bool)
        ensures
            same == (self@ == other@),
    ;
}

/// A table that holds one entry for each key, in the order in which the keys came.
pub struct KeyedList<K: Identity, T> {
    keys: Vec<K>,
    values: Vec<T>,
}

/// The values that a sequence of keys denotes.
pub open spec fn denoted<K: View>(keys: Seq<K>) -> Seq<K::V> {
    keys.map_values(|k: K| k@)
}

impl<K: Identity, T> View for KeyedList<K, T> {
    type V = Map<K::V, T>;

    closed spec fn view(&self) -> Map<K::V, T> {
        Map::new(
            |k: K::V| denoted(self.keys@).contains(k),
            |k: K::V| self.values@[denoted(self.keys@).index_of(k)],
        )
    }
}

impl<K: Identity, T> KeyedList<K, T> {
    #[verifier::type_invariant]
    spec fn inv(self) -> bool {
        &&& self.keys@.len() == self.values@.len()
        &&& denoted(self.keys@).no_duplicates()
    }

    /// The keys in the order in which they came.
    pub closed spec fn order(self) -> Seq<K::V> {
        denoted(self.keys@)
    }

    proof fn lemma_at(self, i: int)
        requires
            self.inv(),
            0 <= i < self.keys@.len(),
        ensures
            self@.contains_key(self.keys@[i]@),
            self@[self.keys@[i]@] == self.values@[i],
            self.order()[i] == self.keys@[i]@,
    {
        let ks = denoted(self.keys@);
        assert(ks[i] == self.keys@[i]@);
        assert(ks.contains(ks[i]));
        let j = ks.index_of(ks[i]);
        assert(ks[j] == ks[i]);
    }

    /// The order lists exactly the keys of the table.
    pub proof fn lemma_named(self, key: K::V)
        ensures
            self.order().contains(key) <==> self@.contains_key(key),
    {
    }

    /// The order lists each key of the table exactly once.
    pub open spec fn ordered(self) -> bool {
        &&& self.order().no_duplicates()
        &&& self@.dom().finite()
        &&& self@.len() == self.order().len()
        &&& forall|k: K::V|
            #![trigger self.order().contains(k)]
            #![trigger self@.contains_key(k)]
            self.order().contains(k) <==> self@.contains_key(k)
    }

    proof fn lemma_order(self)
        requires
            self.inv(),
        ensures
            self.ordered(),
    {
        self.order().unique_seq_to_set();
        assert(self.order().to_set() =~= self@.dom());
        vstd::seq_lib::seq_to_set_is_finite(self.order());
    }

    /// An empty table.
    pub fn new() -> (t: Self)
        ensures
            t@ == Map::<K::V, T>::empty(),
            t.order() == Seq::<K::V>::empty(),
    {
        let keys: Vec<K> = Vec::new();
        let values: Vec<T> = Vec::new();
        assert(denoted(keys@) =~= Seq::<K::V>::empty());
        let t = KeyedList { keys, values };
        assert(t@ =~= Map::<K::V, T>::empty());
        t
    }

    /// The place of `key`, or the number of keys.
    fn find(&self, key: &K) -> (i: usize)
        ensures
            i <= self.keys@.len(),
            i < self.keys@.len() ==> self.keys@[i as int]@ == key@,
            i == self.keys@.len() ==> !denoted(self.keys@).contains(key@),
    {
        let mut i: usize = 0;
        while i < self.keys.len()
            invariant
                i <= self.keys@.len(),
                forall|j: int| 0 <= j < i ==> (#[trigger] self.keys@[j])@ != key@,
            decreases self.keys@.len() - i,
        {
            if self.keys[i].same_as(key) {
                return i;
            }
            i = i + 1;
        }
        proof {
            let ks = denoted(self.keys@);
            if ks.contains(key@) {
                let j = choose|j: int| 0 <= j < ks.len() && ks[j] == key@;
                assert(self.keys@[j]@ == key@);
            }
        }
        i
    }

    /// The entry of `key`.
    pub fn get(&self, key: &K) -> (r: Option<&T>)
        ensures
            match r {
                Some(v) => self@.contains_key(key@) && *v == self@[key@],
                None => !self@.contains_key(key@),
            },
    {
        proof {
            use_type_invariant(self);
        }
        let i = self.find(key);
        if i < self.keys.len() {
            proof {
                self.lemma_at(i as int);
            }
            Some(&self.values[i])
        } else {
            None
        }
    }

    /// True when the table holds an entry of `key`.
    pub fn contains_key(&self, key: &K) -> (r: bool)
        ensures
            r == self@.contains_key(key@),
    {
        self.get(key).is_some()
    }

    /// Takes everything out.
    fn take_parts(&mut self) -> (parts: (Vec<K>, Vec<T>))
        ensures
            parts.0@ == old(self).keys@,
            parts.1@ == old(self).values@,
            old(self).inv(),
            final(self)@ == Map::<K::V, T>::empty(),
    {
        proof {
            use_type_invariant(&*self);
        }
        let mut other: Self = KeyedList::new();
        std::mem::swap(self, &mut other);
        let KeyedList { keys, values } = other;
        (keys, values)
    }

    /// Sets the entry of `key`. A key that is there already keeps its place.
    pub fn insert(&mut self, key: K, value: T)
        ensures
            final(self)@ == old(self)@.insert(key@, value),
            final(self).order() == if old(self)@.contains_key(key@) {
                old(self).order()
            } else {
                old(self).order().push(key@)
            },
    {
        let i = self.find(&key);
        let (mut keys, mut values) = self.take_parts();
        let ghost before = *old(self);
        if i < keys.len() {
            proof {
                before.lemma_at(i as int);
            }
            values.set(i, value);
            *self = KeyedList { keys, values };
            proof {
                let ks = denoted(keys@);
                assert forall|k: K::V| #[trigger] self@.contains_key(k) implies self@[k]
                    == before@.insert(key@, value)[k] by {
                    let j = ks.index_of(k);
                    assert(ks[j] == k);
                    if k != key@ {
                        assert(j != i as int);
                    } else {
                        assert(ks[i as int] == k);
                    }
                }
                assert(self@ =~= before@.insert(key@, value));
            }
        } else {
            let ghost ks = denoted(keys@);
            keys.push(key);
            values.push(value);
            assert(denoted(keys@) =~= ks.push(key@));
            *self = KeyedList { keys, values };
            proof {
                let all = denoted(keys@);
                assert(all[ks.len() as int] == key@);
                assert(all.contains(key@));
                assert forall|k: K::V| all.contains(k) <==> (k == key@ || ks.contains(k)) by {
                    if ks.contains(k) {
                        let j = choose|j: int| 0 <= j < ks.len() && ks[j] == k;
                        assert(all[j] == k);
                    }
                    if all.contains(k) {
                        let j = choose|j: int| 0 <= j < all.len() && all[j] == k;
                        if j < ks.len() {
                            assert(ks[j] == k);
                        }
                    }
                }
                assert forall|k: K::V| #[trigger] self@.contains_key(k) implies self@[k]
                    == before@.insert(key@, value)[k] by {
                    let j = all.index_of(k);
                    assert(all[j] == k);
                    if k != key@ {
                        assert(j < ks.len());
                        let m = ks.index_of(k);
                        assert(ks[m] == k);
                        assert(all[m] == k);
                        assert(m == j);
                    }
                }
                assert(self@ =~= before@.insert(key@, value));
            }
        }
    }

    /// Takes the entry of `key` out.
    pub fn remove(&mut self, key: &K) -> (r: Option<T>)
        ensures
            final(self)@ == old(self)@.remove(key@),
            final(self).order() == old(self).order().filter(|k: K::V| k != key@),
            match r {
                Some(v) => old(self)@.contains_key(key@) && v == old(self)@[key@],
                None => !old(self)@.contains_key(key@),
            },
    {
        proof {
            use_type_invariant(&*self);
        }
        let i = self.find(key);
        let ghost ks = denoted(self.keys@);
        let ghost keep = |k: K::V| k != key@;
        if i == self.keys.len() {
            proof {
                assert(self@.remove(key@) =~= self@);
                assert forall|j: int| 0 <= j < ks.len() implies keep(#[trigger] ks[j]) by {
                    assert(ks.contains(ks[j]));
                }
                crate::seqs::lemma_filter_all(ks, keep);
            }
            return None;
        }
        let ghost before = *self;
        let (mut keys, mut values) = self.take_parts();
        proof {
            before.lemma_at(i as int);
        }
        keys.remove(i);
        let value = values.remove(i);
        assert(denoted(keys@) =~= ks.remove(i as int));
        proof {
            crate::seqs::lemma_remove_no_duplicates(ks, i as int);
        }
        *self = KeyedList { keys, values };
        proof {
            let rest = denoted(keys@);
            assert(ks[i as int] == key@);
            assert forall|k: K::V| #[trigger] rest.contains(k) <==> (ks.contains(k) && k != key@) by {
                if rest.contains(k) {
                    let j = choose|j: int| 0 <= j < rest.len() && rest[j] == k;
                    let m = if j < i {
                        j
                    } else {
                        j + 1
                    };
                    assert(ks[m] == k);
                    assert(m != i as int);
                }
                if ks.contains(k) && k != key@ {
                    let m = choose|m: int| 0 <= m < ks.len() && ks[m] == k;
                    let j = if m < i {
                        m
                    } else {
                        m - 1
                    };
                    assert(rest[j] == k);
                }
            }
            assert forall|k: K::V| #[trigger] self@.contains_key(k) implies self@[k]
                == before@.remove(key@)[k] by {
                assert(rest.contains(k));
                let j = rest.index_of(k);
                assert(rest[j] == k);
                let m = if j < i {
                    j
                } else {
                    j + 1
                };
                assert(ks[m] == k);
                let q = ks.index_of(k);
                assert(ks[q] == k);
                assert(q == m);
            }
            assert(self@ =~= before@.remove(key@));
            crate::seqs::lemma_filter_but_one(ks, i as int);
            assert(ks.filter(|k: K::V| k != ks[i as int]) == ks.filter(keep)) by {
                assert((|k: K::V| k != ks[i as int]) =~= keep);
            }
        }
        Some(value)
    }

    /// The number of keys.
    pub fn len(&self) -> (n: usize)
        ensures
            n == self.order().len(),
            n == self@.len(),
            self.ordered(),
    {
        proof {
            use_type_invariant(self);
            self.lemma_order();
        }
        self.keys.len()
    }

    /// The key that came at place `i`.
    pub fn key_at(&self, i: usize) -> (k: &K)
        requires
            i < self.order().len(),
        ensures
            k@ == self.order()[i as int],
    {
        &self.keys[i]
    }

    /// The entry of the key that came at place `i`.
    pub fn value_at(&self, i: usize) -> (v: &T)
        requires
            i < self.order().len(),
        ensures
            self@.contains_key(self.order()[i as int]),
            *v == self@[self.order()[i as int]],
    {
        proof {
            use_type_invariant(self);
            self.lemma_at(i as int);
        }
        &self.values[i]
    }

    /// Takes all entries out.
    pub fn clear(&mut self)
        ensures
            final(self)@ == Map::<K::V, T>::empty(),
            final(self).order() == Seq::<K::V>::empty(),
    {
        *self = KeyedList::new();
    }
}

} // verus!
