//! The container and its operations.
//!
//! `contains_key` and `get_vec` take a key in any borrowed form of the key
//! type. Their contracts speak of the stored lists through the relations
//! that vstd gives for borrowed keys; for a key given as `&K` these say that
//! the key is in the view, and that the list is the view's.
//!
//! The other lookups take `&K`. They read the first value of a list at index
//! 0, or state the model after a change, and both need to know which key of
//! the model was meant: of a key in another borrowed form the hash map's
//! contracts do not say that.

use vstd::prelude::*;
use vstd::std_specs::hash::group_hash_axioms;
use vstd::std_specs::hash::contains_borrowed_key;
use vstd::std_specs::hash::maps_borrowed_key_to_value;
use vstd::std_specs::hash::obeys_key_model;
use vstd::std_specs::hash::spec_hash_map_iter;
use vstd::std_specs::iter::IteratorSpec;
use std::collections::hash_map;
use std::collections::hash_map::Keys;
use std::collections::HashMap;
use std::borrow::Borrow;
use std::hash::Hash;
use std::ops::Index;
use crate::iter::Iter;
use crate::iter::IterMut;
use crate::iter::all_lent_nonempty;
use crate::iter::all_nonempty;
use crate::laws::lemma_pairs_of_mapped;
use crate::model::entries;
use crate::model::firsts;
use crate::model::lent_firsts;
use crate::laws::lemma_inserted;
use crate::laws::lemma_pairs_total;
use crate::model::first_value;
use crate::model::heads;
use crate::model::inserted;
use crate::model::lent;
use crate::model::lent_lists;
use crate::model::listed;
use crate::model::lists_nonempty;
use crate::model::pairs_of;
use crate::model::total_len;
use crate::model::total_values;
use crate::std_map::map_capacity;
use crate::std_map::map_iter_mut;
use crate::std_map::map_get_mut;

verus! {

broadcast use group_hash_axioms;

/// A map from keys to non-empty, ordered lists of values.
pub struct MultiMap<K, V> {
    inner: HashMap<K, Vec<V>>,
    /// The number of keys that room was asked for at creation.
    reserved: usize,
}

impl<K, V> View for MultiMap<K, V> {
    type V = Map<K, Seq<V>>;

    open spec fn view(&self) -> Map<K, Seq<V>> {
        Map::new(|k: K| self.lists().contains_key(k), |k: K| self.lists()[k]@)
    }
}

impl<K, V> MultiMap<K, V> {
    /// The stored lists themselves, key by key. The view holds the values of
    /// each of them.
    pub closed spec fn lists(&self) -> Map<K, Vec<V>> {
        self.inner@
    }
}

impl<K, V> MultiMap<K, V> where K: Eq + Hash {
    /// Well-formedness: the key type is a sound hash-table key, the set of
    /// keys is finite, and no key owns an empty list.
    pub open spec fn wf(&self) -> bool {
        &&& obeys_key_model::<K>()
        &&& self@.dom().finite()
        &&& lists_nonempty(self@)
    }

    /// The number of keys that room was asked for when the multimap was
    /// created: a floor under `capacity()` for as long as it lives.
    pub closed spec fn reserved(&self) -> usize {
        self.reserved
    }

    /// Indexed access is open for exactly the keys that `get` finds, on a
    /// well-formed multimap, and reads the value that `get` returns.
    pub proof fn lemma_index_agrees_with_get(&self, k: &K)
        ensures
            vstd::std_specs::core::IndexSpec::index_req(self, &k) <==> self.wf() && first_value(
                self@,
                *k,
            ) is Some,
            vstd::std_specs::core::IndexSpec::index_req(self, &k) ==> first_value(self@, *k)
                == Some(self@[*k][0]),
    {
    }

    /// A multimap has finitely many keys.
    pub proof fn lemma_finite(&self)
        ensures
            self@.dom().finite(),
    {
        self.lemma_dom();
    }

    proof fn lemma_dom(&self)
        ensures
            self@.dom() == self.inner@.dom(),
            self@.dom().finite(),
            self@.len() == self.inner@.len(),
    {
        assert(self@.dom() =~= self.inner@.dom());
    }

    /// Creates an empty multimap.
    pub fn new() -> (r: MultiMap<K, V>)
        requires
            obeys_key_model::<K>(),
        ensures
            r.wf(),
            r@ == Map::<K, Seq<V>>::empty(),
            r.reserved() == 0,
    {
        let r = MultiMap { inner: HashMap::new(), reserved: 0 };
        proof {
            r.lemma_dom();
            assert(r@ =~= Map::<K, Seq<V>>::empty());
        }
        r
    }

    /// Creates an empty multimap with room for at least `capacity` keys.
    pub fn with_capacity(capacity: usize) -> (r: MultiMap<K, V>)
        requires
            obeys_key_model::<K>(),
        ensures
            r.wf(),
            r@ == Map::<K, Seq<V>>::empty(),
            r.reserved() == capacity,
    {
        let r = MultiMap { inner: HashMap::with_capacity(capacity), reserved: capacity };
        proof {
            r.lemma_dom();
            assert(r@ =~= Map::<K, Seq<V>>::empty());
        }
        r
    }

    /// Adds `v` to the end of the list of `k`, creating the list if `k` is new.
    pub fn insert(&mut self, k: K, v: V)
        requires
            obeys_key_model::<K>(),
        ensures
            final(self).reserved() == old(self).reserved(),
            old(self).wf() ==> final(self).wf(),
            final(self)@ == inserted(old(self)@, k, v),
            final(self)@.len() == old(self)@.len() + if old(self)@.contains_key(k) {
                0nat
            } else {
                1nat
            },
    {
        if self.inner.contains_key(&k) {
            let values = map_get_mut(&mut self.inner, &k).unwrap();
            values.push(v);
        } else {
            let mut values = Vec::new();
            values.push(v);
            self.inner.insert(k, values);
        }
        proof {
            old(self).lemma_dom();
            self.lemma_dom();
            assert(self@ =~= inserted(old(self)@, k, v));
            lemma_inserted(old(self)@, k, v);
        }
    }

    /// Whether `k` owns a list. For `k: &K` the result is
    /// `self@.contains_key(*k)`.
    pub fn contains_key<Q: ?Sized>(&self, k: &Q) -> (r: bool) where K: Borrow<Q>, Q: Hash + Eq
        requires
            obeys_key_model::<K>(),
        ensures
            r == contains_borrowed_key(self.lists(), k),
            forall|key: K| #[trigger] self.lists().contains_key(key) == self@.contains_key(key),
    {
        self.inner.contains_key(k)
    }

    /// The number of keys (not of values).
    pub fn len(&self) -> (r: usize)
        requires
            obeys_key_model::<K>(),
        ensures
            r == self@.len(),
    {
        proof {
            self.lemma_dom();
        }
        self.inner.len()
    }

    /// Removes `k` with its whole list, and returns the list.
    pub fn remove(&mut self, k: &K) -> (r: Option<Vec<V>>)
        requires
            obeys_key_model::<K>(),
        ensures
            final(self).reserved() == old(self).reserved(),
            old(self).wf() ==> final(self).wf(),
            final(self)@ == old(self)@.remove(*k),
            !final(self)@.contains_key(*k),
            !old(self)@.contains_key(*k) ==> final(self)@ == old(self)@,
            match r {
                Some(list) => old(self)@.contains_key(*k) && list@ == old(self)@[*k],
                None => !old(self)@.contains_key(*k),
            },
    {
        let r = self.inner.remove(k);
        proof {
            self.lemma_dom();
            assert(self@ =~= old(self)@.remove(*k));
            if !old(self)@.contains_key(*k) {
                assert(self@ =~= old(self)@);
            }
        }
        r
    }

    /// The first value of `k`.
    pub fn get(&self, k: &K) -> (r: Option<&V>)
        requires
            self.wf(),
        ensures
            match r {
                Some(v) => self@.contains_key(*k) && *v == self@[*k][0],
                None => !self@.contains_key(*k),
            },
            match r {
                Some(v) => first_value(self@, *k) == Some(*v),
                None => first_value(self@, *k) is None,
            },
    {
        match self.inner.get(k) {
            Some(list) => {
                assert(self@.contains_key(*k));
                Some(&list[0])
            },
            None => None,
        }
    }

    /// The whole list of `k`. For `k: &K` the result is `Some` of a list with
    /// the values `self@[*k]` when `self@.contains_key(*k)`, and `None`
    /// otherwise.
    pub fn get_vec<Q: ?Sized>(&self, k: &Q) -> (r: Option<&Vec<V>>) where K: Borrow<Q>, Q: Hash + Eq
        requires
            obeys_key_model::<K>(),
        ensures
            match r {
                Some(list) => maps_borrowed_key_to_value(self.lists(), k, *list),
                None => !contains_borrowed_key(self.lists(), k),
            },
            forall|key: K| #[trigger] self.lists().contains_key(key) == self@.contains_key(key),
            forall|key: K|
                self.lists().contains_key(key) ==> (#[trigger] self.lists()[key])@ == self@[key],
    {
        self.inner.get(k)
    }

    /// The first value of `k`, lent mutably. The list keeps its length and
    /// every value behind the first.
    pub fn get_mut(&mut self, k: &K) -> (r: Option<&mut V>)
        requires
            old(self).wf(),
        ensures
            final(self).reserved() == old(self).reserved(),
            final(self).wf(),
            match r {
                Some(v) => {
                    &&& old(self)@.contains_key(*k)
                    &&& *v == old(self)@[*k][0]
                    &&& final(self)@ == old(self)@.insert(*k, old(self)@[*k].update(0, *final(v)))
                },
                None => !old(self)@.contains_key(*k) && final(self)@ == old(self)@,
            },
    {
        let ghost before = *old(self);
        let ghost after = *final(self);
        match map_get_mut(&mut self.inner, k) {
            Some(list) => {
                assert(before@.contains_key(*k));
                assert(list@ == before@[*k]);
                let first = &mut list[0];
                proof {
                    after.lemma_dom();
                    assert(after@ =~= before@.insert(*k, before@[*k].update(0, *final(first))));
                }
                Some(first)
            },
            None => {
                proof {
                    after.lemma_dom();
                    assert(after@ =~= before@);
                }
                None
            },
        }
    }

    /// The whole list of `k`, lent mutably. The multimap stays well-formed as
    /// long as the borrower leaves at least one value in the list.
    pub fn get_vec_mut(&mut self, k: &K) -> (r: Option<&mut Vec<V>>)
        requires
            obeys_key_model::<K>(),
        ensures
            final(self).reserved() == old(self).reserved(),
            match r {
                Some(list) => {
                    &&& old(self)@.contains_key(*k)
                    &&& list@ == old(self)@[*k]
                    &&& final(self)@ == old(self)@.insert(*k, final(list)@)
                    &&& old(self).wf() ==> (final(self).wf() <==> final(list)@.len() > 0)
                },
                None => {
                    &&& !old(self)@.contains_key(*k)
                    &&& final(self)@ == old(self)@
                    &&& old(self).wf() ==> final(self).wf()
                },
            },
    {
        let ghost before = *old(self);
        let ghost after = *final(self);
        match map_get_mut(&mut self.inner, k) {
            Some(list) => {
                proof {
                    after.lemma_dom();
                    assert(before@.contains_key(*k));
                    assert(after@.contains_key(*k));
                    assert(after@ =~= before@.insert(*k, final(list)@));
                }
                Some(list)
            },
            None => {
                proof {
                    after.lemma_dom();
                    assert(after@ =~= before@);
                }
                None
            },
        }
    }

    /// The keys, each once, in no particular order.
    pub fn keys<'a>(&'a self) -> (keys: Keys<'a, K, Vec<V>>)
        requires
            obeys_key_model::<K>(),
        ensures
            keys.remaining().len() == self@.len(),
            keys.remaining().no_duplicates(),
            keys.remaining().unref().to_set() == self@.dom(),
            keys.decrease() is Some,
            keys.initial_value_relation(&keys),
    {
        proof {
            self.lemma_dom();
        }
        self.inner.keys()
    }

    /// The entries that the map's iterator has in store list the map.
    proof fn lemma_entries(&self, s: Seq<(&K, &Vec<V>)>)
        requires
            obeys_key_model::<K>(),
            s == spec_hash_map_iter(&self.inner).remaining(),
            s.no_duplicates(),
        ensures
            pairs_of(entries(s), self.inner@),
    {
        let t = entries(s);
        assert forall|i: int, j: int| 0 <= i < j < t.len() implies #[trigger] t[i].0
            != #[trigger] t[j].0 by {
            assert(self.inner@.contains_key(*s[i].0));
            assert(self.inner@.contains_key(*s[j].0));
            if *s[i].0 == *s[j].0 {
                assert(s[i] == s[j]);
            }
        }
        assert forall|k: K| #[trigger] self.inner@.contains_key(k) implies exists|i: int|
            0 <= i < t.len() && #[trigger] t[i].0 == k by {
            assert(s.contains((&k, &self.inner@[k])));
            let i = choose|i: int| 0 <= i < s.len() && s[i] == (&k, &self.inner@[k]);
            assert(t[i].0 == k);
        }
    }

    /// Every key with its first value, each key once, in no particular order.
    pub fn iter(&self) -> (r: Iter<'_, K, V>)
        requires
            self.wf(),
        ensures
            r.source().remaining().len() == self@.len(),
            all_nonempty(r.source().remaining()),
            pairs_of(firsts(r.source().remaining()), heads(self@)),
    {
        let inner = self.inner.iter();
        proof {
            let s = inner.remaining();
            self.lemma_dom();
            self.lemma_entries(s);
            assert(heads(self@).dom() =~= self.inner@.dom());
            lemma_pairs_of_mapped(
                entries(s),
                self.inner@,
                |l: Vec<V>| l@[0],
                firsts(s),
                heads(self@),
            );
            assert forall|i: int| 0 <= i < s.len() implies (#[trigger] s[i]).1@.len() > 0 by {
                assert(self.inner@.contains_key(entries(s)[i].0));
                assert(self@.contains_key(*s[i].0));
            }
        }
        Iter::over(inner)
    }

    /// Every key with its whole list, each key once, in no particular order.
    pub fn iter_all<'a>(&'a self) -> (r: hash_map::Iter<'a, K, Vec<V>>)
        requires
            obeys_key_model::<K>(),
        ensures
            r.remaining().len() == self@.len(),
            pairs_of(listed(r.remaining()), self@),
            total_len(listed(r.remaining())) == total_values(self@),
            r.decrease() is Some,
            r.initial_value_relation(&r),
    {
        let r = self.inner.iter();
        proof {
            let s = r.remaining();
            self.lemma_dom();
            self.lemma_entries(s);
            lemma_pairs_of_mapped(entries(s), self.inner@, |l: Vec<V>| l@, listed(s), self@);
            lemma_pairs_total(listed(s), self@);
        }
        r
    }

    /// Every key with its first value lent mutably, each key once, in no
    /// particular order. The iterator holds every list on loan and hands out
    /// its first value only: each list ends as the loan leaves it,
    /// `IterMut::next` states that a list handed out keeps its length and
    /// every value behind the first, and a list never handed out stays as it
    /// is once the iterator is used no more.
    pub fn iter_mut(&mut self) -> (r: IterMut<'_, K, V>)
        requires
            old(self).wf(),
        ensures
            final(self).reserved() == old(self).reserved(),
            has_resolved(r) ==> forall|i: int|
                0 <= i < r.source().remaining().len() ==> has_resolved(
                    (#[trigger] r.source().remaining()[i]).1
                ),
            r.source().remaining().len() == old(self)@.len(),
            all_lent_nonempty(r.source().remaining()),
            pairs_of(lent_lists(r.source().remaining()), old(self)@),
            pairs_of(lent_firsts(r.source().remaining()), heads(old(self)@)),
            final(self)@.dom() == old(self)@.dom(),
            forall|i: int|
                0 <= i < r.source().remaining().len() ==> final(self)@[*(
                    #[trigger] r.source().remaining()[i]
                ).0] == final(r.source().remaining()[i].1)@,
            final(self).wf() <==> forall|i: int|
                0 <= i < r.source().remaining().len() ==> final(
                    (#[trigger] r.source().remaining()[i]).1
                )@.len() > 0,
    {
        let ghost before = *old(self);
        let inner = self.iter_all_mut();
        proof {
            let e = inner.remaining();
            before.lemma_dom();
            assert(heads(before@).dom() =~= before@.dom());
            lemma_pairs_of_mapped(
                lent_lists(e),
                before@,
                |l: Seq<V>| l[0],
                lent_firsts(e),
                heads(before@),
            );
            assert forall|i: int| 0 <= i < e.len() implies (*(#[trigger] e[i]).1)@.len() > 0 by {
                assert(before@.contains_key(lent_lists(e)[i].0));
            }
        }
        IterMut::over(inner)
    }

    /// Every key with its whole list lent mutably, each key once, in no
    /// particular order. The multimap stays well-formed as long as the
    /// borrower leaves at least one value in every list. An iterator that is
    /// used no more leaves the lists that it has in store as they are.
    pub fn iter_all_mut<'a>(&'a mut self) -> (r: hash_map::IterMut<'a, K, Vec<V>>)
        requires
            obeys_key_model::<K>(),
        ensures
            final(self).reserved() == old(self).reserved(),
            r.obeys_prophetic_iter_laws(),
            r.remaining().len() == old(self)@.len(),
            pairs_of(lent_lists(r.remaining()), old(self)@),
            final(self)@.dom() == old(self)@.dom(),
            forall|i: int|
                0 <= i < r.remaining().len() ==> final(self)@[*(#[trigger] r.remaining()[i]).0]
                    == final(r.remaining()[i].1)@,
            final(self).wf() <==> forall|i: int|
                0 <= i < r.remaining().len() ==> final((#[trigger] r.remaining()[i]).1)@.len() > 0,
            has_resolved(r) ==> forall|i: int|
                0 <= i < r.remaining().len() ==> has_resolved((#[trigger] r.remaining()[i]).1),
    {
        let ghost before = *old(self);
        let ghost after = *final(self);
        let r = map_iter_mut(&mut self.inner);
        proof {
            before.lemma_dom();
            after.lemma_dom();
            let e = r.remaining();
            let s = lent(e);
            lemma_pairs_of_mapped(s, before.inner@, |l: Vec<V>| l@, lent_lists(e), before@);
            assert forall|i: int| 0 <= i < e.len() implies {
                &&& after@.contains_key(*(#[trigger] e[i]).0)
                &&& after@[*e[i].0] == final(e[i].1)@
            } by {
                assert(before.inner@.contains_key(s[i].0));
            }
            assert forall|k: K|
                (forall|i: int| 0 <= i < e.len() ==> final((#[trigger] e[i]).1)@.len() > 0)
                    && #[trigger] after@.contains_key(k) implies after@[k].len() > 0 by {
                assert(before.inner@.contains_key(k));
                let i = choose|i: int| 0 <= i < s.len() && #[trigger] s[i].0 == k;
                assert(*e[i].0 == k);
            }
            assert forall|i: int| after.wf() && 0 <= i < e.len() implies final(
                (#[trigger] e[i]).1
            )@.len() > 0 by {
                assert(after@.contains_key(*e[i].0));
            }
        }
        r
    }

    /// How many keys fit without reallocating: a lower bound, never under
    /// the number of keys held nor under the room asked for at creation.
    pub fn capacity(&self) -> (r: usize)
        requires
            obeys_key_model::<K>(),
        ensures
            r >= self@.len(),
            r >= self.reserved(),
    {
        proof {
            self.lemma_dom();
        }
        let held = map_capacity(&self.inner);
        if held >= self.reserved {
            held
        } else {
            self.reserved
        }
    }

    /// Whether there is no key.
    pub fn is_empty(&self) -> (r: bool)
        requires
            obeys_key_model::<K>(),
        ensures
            r == (self@.len() == 0),
            r == (self@ == Map::<K, Seq<V>>::empty()),
    {
        proof {
            self.lemma_dom();
            if self@.len() == 0 {
                assert(self@ =~= Map::<K, Seq<V>>::empty());
            }
        }
        self.inner.is_empty()
    }

    /// Removes every key and every list.
    pub fn clear(&mut self)
        ensures
            final(self).reserved() == old(self).reserved(),
            obeys_key_model::<K>() ==> final(self).wf(),
            final(self)@ == Map::<K, Seq<V>>::empty(),
            final(self)@.len() == 0,
    {
        self.inner.clear();
        proof {
            self.lemma_dom();
            assert(self@ =~= Map::<K, Seq<V>>::empty());
        }
    }
}

impl<'a, K, V> vstd::std_specs::core::IndexSpecImpl<&'a K> for MultiMap<K, V> where K: Eq + Hash {
    /// Indexing is for keys that are present.
    open spec fn index_req(&self, index: &&'a K) -> bool {
        self.wf() && self@.contains_key(**index)
    }
}

impl<'a, K, V> Index<&'a K> for MultiMap<K, V> where K: Eq + Hash {
    type Output = V;

    /// The first value of `index`, which must be present.
    fn index(&self, index: &'a K) -> (r: &V)
        ensures
            *r == self@[*index][0],
            first_value(self@, *index) == Some(*r),
    {
        let list = self.inner.get(index).expect("no entry found for key");
        &list[0]
    }
}

} // verus!
