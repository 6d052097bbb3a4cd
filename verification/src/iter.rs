//! Iteration over the keys of a multimap with their first values.
//!
//! Both iterators are thin layers over the iterators of the underlying hash
//! map: each call of `next` takes one entry from the map's iterator and hands
//! out its key with the first value of its list.

use vstd::prelude::*;
use vstd::std_specs::iter::IteratorSpec;
use crate::std_map::iter_len;
use crate::std_map::iter_next;
use crate::std_map::iter_mut_len;
use crate::std_map::iter_mut_next;

verus! {

/// No list in `s` is empty.
pub open spec fn all_nonempty<K, V>(s: Seq<(&K, &Vec<V>)>) -> bool {
    forall|i: int| 0 <= i < s.len() ==> (#[trigger] s[i]).1@.len() > 0
}

/// No list lent in `s` is empty as it stands.
pub open spec fn all_lent_nonempty<K, V>(s: Seq<(&K, &mut Vec<V>)>) -> bool {
    forall|i: int| 0 <= i < s.len() ==> (*(#[trigger] s[i]).1)@.len() > 0
}

/// The pairs of a key and its first value that are still to come.
///
/// What is still to come is `self.source().remaining()`: the entries that
/// the map's iterator has in store.
pub struct Iter<'a, K, V> {
    inner: std::collections::hash_map::Iter<'a, K, Vec<V>>,
}

impl<'a, K, V> Iter<'a, K, V> {
    /// The iterator of the underlying map.
    pub closed spec fn source(&self) -> std::collections::hash_map::Iter<'a, K, Vec<V>> {
        self.inner
    }

    /// An iterator over the first values of what `inner` yields.
    pub(crate) fn over(inner: std::collections::hash_map::Iter<'a, K, Vec<V>>) -> (r: Self)
        ensures
            r.source() == inner,
    {
        Iter { inner }
    }

    /// The next key with the first value of its list, or `None` when every
    /// pair has been handed out.
    pub fn next(&mut self) -> (r: Option<(&'a K, &'a V)>)
        requires
            all_nonempty(old(self).source().remaining()),
        ensures
            all_nonempty(final(self).source().remaining()),
            match r {
                Some(pair) => {
                    &&& old(self).source().remaining().len() > 0
                    &&& *pair.0 == *old(self).source().remaining()[0].0
                    &&& *pair.1 == old(self).source().remaining()[0].1@[0]
                    &&& final(self).source().remaining() == old(self).source().remaining().drop_first()
                },
                None => {
                    &&& old(self).source().remaining().len() == 0
                    &&& final(self).source().remaining() == old(self).source().remaining()
                },
            },
    {
        match iter_next(&mut self.inner) {
            Some((k, list)) => Some((k, &list[0])),
            None => None,
        }
    }

    /// How many pairs are still to come.
    pub fn len(&self) -> (r: usize)
        ensures
            r == self.source().remaining().len(),
    {
        iter_len(&self.inner)
    }

    /// The exact number of pairs still to come, as both bounds.
    pub fn size_hint(&self) -> (r: (usize, Option<usize>))
        ensures
            r.0 == self.source().remaining().len(),
            r.1 == Some(r.0),
    {
        let n = iter_len(&self.inner);
        (n, Some(n))
    }
}

impl<'a, K, V> Clone for Iter<'a, K, V> {
    /// An iterator at the same place: the same pairs are still to come.
    fn clone(&self) -> (r: Self)
        ensures
            r.source().remaining() == self.source().remaining(),
    {
        Iter { inner: self.inner.clone() }
    }
}

/// The pairs of a key and its first value, lent mutably, that are still to
/// come.
///
/// What is still to come is `self.source().remaining()`: the entries that
/// the map's iterator has in store, each list lent mutably. An iterator that
/// is used no more leaves the lists that it still has in store as they are.
#[verifier::reject_recursive_types(K)]
#[verifier::reject_recursive_types(V)]
pub struct IterMut<'a, K, V> {
    inner: std::collections::hash_map::IterMut<'a, K, Vec<V>>,
}

impl<'a, K, V> IterMut<'a, K, V> {
    /// The iterator of the underlying map.
    pub closed spec fn source(&self) -> std::collections::hash_map::IterMut<'a, K, Vec<V>> {
        self.inner
    }

    /// An iterator over the first values of what `inner` yields.
    pub(crate) fn over(inner: std::collections::hash_map::IterMut<'a, K, Vec<V>>) -> (r: Self)
        requires
            has_resolved(inner) ==> forall|i: int|
                0 <= i < inner.remaining().len() ==> has_resolved(
                    (#[trigger] inner.remaining()[i]).1
                ),
        ensures
            r.source() == inner,
            has_resolved(r) ==> forall|i: int|
                0 <= i < r.source().remaining().len() ==> has_resolved(
                    (#[trigger] r.source().remaining()[i]).1
                ),
    {
        IterMut { inner }
    }

    /// The next key with the first value of its list lent mutably, or `None`
    /// when every pair has been handed out. Whatever the borrower writes, the
    /// list keeps its length and every value behind the first.
    pub fn next(&mut self) -> (r: Option<(&'a K, &'a mut V)>)
        requires
            all_lent_nonempty(old(self).source().remaining()),
        ensures
            all_lent_nonempty(final(self).source().remaining()),
            has_resolved(*final(self)) ==> forall|i: int|
                0 <= i < final(self).source().remaining().len() ==> has_resolved(
                    (#[trigger] final(self).source().remaining()[i]).1
                ),
            match r {
                Some(pair) => {
                    let entry = old(self).source().remaining()[0];
                    &&& old(self).source().remaining().len() > 0
                    &&& *pair.0 == *entry.0
                    &&& *pair.1 == (*entry.1)@[0]
                    &&& final(entry.1)@ == (*entry.1)@.update(0, *final(pair.1))
                    &&& final(self).source().remaining() == old(self).source().remaining().drop_first()
                },
                None => {
                    &&& old(self).source().remaining().len() == 0
                    &&& final(self).source().remaining() == old(self).source().remaining()
                },
            },
    {
        match iter_mut_next(&mut self.inner) {
            Some((k, list)) => Some((k, &mut list[0])),
            None => None,
        }
    }

    /// How many pairs are still to come.
    pub fn len(&self) -> (r: usize)
        ensures
            r == self.source().remaining().len(),
    {
        iter_mut_len(&self.inner)
    }

    /// The exact number of pairs still to come, as both bounds.
    pub fn size_hint(&self) -> (r: (usize, Option<usize>))
        ensures
            r.0 == self.source().remaining().len(),
            r.1 == Some(r.0),
    {
        let n = iter_mut_len(&self.inner);
        (n, Some(n))
    }
}

} // verus!
