//! Contracts for the parts of `std::collections::hash_map` that vstd leaves
//! unspecified.
//!
//! Nothing in this file is proved: each item states what the standard
//! library documents of the method that it names.

use vstd::prelude::*;
use vstd::std_specs::hash::obeys_key_model;
use vstd::std_specs::iter::IteratorSpec;
use std::collections::HashMap;
use std::hash::Hash;
use crate::model::lent;
use crate::model::pairs_of;

verus! {

/// `HashMap::get_mut`.
///
/// Trusted: for a key type that obeys the hash-table key model, the call
/// returns `None` exactly when `k` is absent, and then leaves the map as it
/// was. Otherwise it lends out the value stored under `k`; once the loan
/// ends the map holds, under `k`, whatever the borrower left there, and every
/// other entry is untouched.
#[verifier::external_body]
pub(crate) fn map_get_mut<'a, K: Eq + Hash, T>(m: &'a mut HashMap<K, T>, k: &K) -> (r: Option<
    &'a mut T,
>)
    ensures
        obeys_key_model::<K>() ==> match r {
            Some(slot) => {
                &&& old(m)@.contains_key(*k)
                &&& *slot == old(m)@[*k]
                &&& final(m)@ == old(m)@.insert(*k, *final(slot))
            },
            None => !old(m)@.contains_key(*k) && final(m)@ == old(m)@,
        },
{
    m.get_mut(k)
}

/// `HashMap::capacity`.
///
/// Trusted: the number returned is how many entries the map can hold without
/// reallocating, so it is never below the number of entries it holds now.
#[verifier::external_body]
pub(crate) fn map_capacity<K, T>(m: &HashMap<K, T>) -> (r: usize)
    ensures
        obeys_key_model::<K>() ==> r >= m@.len(),
{
    m.capacity()
}

/// `std::collections::hash_map::IterMut`, carried through as an opaque value.
#[verifier::external_type_specification]
#[verifier::external_body]
#[verifier::reject_recursive_types(K)]
#[verifier::reject_recursive_types(T)]
pub struct ExHashIterMut<'a, K: 'a, T: 'a>(std::collections::hash_map::IterMut<'a, K, T>);

/// `HashMap::iter_mut`.
///
/// Trusted: the iterator keeps the iterator laws: it yields the items it has
/// in store one after the other, and then `None` for good. For a key type
/// that obeys the hash-table key model, those items are the entries of the
/// map, each key once, every value lent mutably. Once the loans end the map
/// has the keys it had, and holds under each key what the borrower left in
/// that key's value. An iterator that is used no more leaves the entries
/// that it has in store as they are.
#[verifier::external_body]
pub(crate) fn map_iter_mut<'a, K, T>(m: &'a mut HashMap<K, T>) -> (r:
    std::collections::hash_map::IterMut<'a, K, T>)
    ensures
        r.obeys_prophetic_iter_laws(),
        obeys_key_model::<K>() ==> {
            &&& pairs_of(lent(r.remaining()), old(m)@)
            &&& final(m)@.dom() == old(m)@.dom()
            &&& forall|i: int|
                0 <= i < r.remaining().len() ==> final(m)@[*(#[trigger] r.remaining()[i]).0]
                    == *final(r.remaining()[i].1)
        },
        has_resolved(r) ==> forall|i: int|
            0 <= i < r.remaining().len() ==> has_resolved((#[trigger] r.remaining()[i]).1),
{
    m.iter_mut()
}

/// `Iterator::next` of `std::collections::hash_map::IterMut`, for callers
/// that hold the iterator itself.
///
/// Callable from verified code. Nothing is claimed of it here; what a call
/// returns follows from the iterator laws, which `map_iter_mut` states that
/// its iterator keeps.
pub assume_specification<'a, K, T>[ <std::collections::hash_map::IterMut<'a, K, T> as Iterator>::next ](
    it: &mut std::collections::hash_map::IterMut<'a, K, T>,
) -> (r: Option<(&'a K, &'a mut T)>)
;

/// `Iterator::next` of `std::collections::hash_map::IterMut`, for the
/// iterators of this library.
///
/// Trusted: the call hands out the first of the entries that the iterator
/// has in store and keeps the others in their order; with none in store it
/// returns `None` and stays as it is. An iterator that is used no more
/// leaves the entries that it still has in store as they are.
#[verifier::external_body]
pub(crate) fn iter_mut_next<'a, K, T>(it: &mut std::collections::hash_map::IterMut<'a, K, T>) -> (r:
    Option<(&'a K, &'a mut T)>)
    ensures
        match r {
            Some(pair) => {
                &&& (*old(it)).remaining().len() > 0
                &&& pair == (*old(it)).remaining()[0]
                &&& (*final(it)).remaining() == (*old(it)).remaining().drop_first()
            },
            None => {
                &&& (*old(it)).remaining().len() == 0
                &&& (*final(it)).remaining() == (*old(it)).remaining()
            },
        },
        has_resolved(*final(it)) ==> forall|i: int|
            0 <= i < (*final(it)).remaining().len() ==> has_resolved(
                (#[trigger] (*final(it)).remaining()[i]).1
            ),
{
    it.next()
}

/// `ExactSizeIterator::len` of `std::collections::hash_map::Iter`.
///
/// Trusted: the number returned is the number of entries that the iterator
/// has in store.
#[verifier::external_body]
pub(crate) fn iter_len<'a, K, T>(it: &std::collections::hash_map::Iter<'a, K, T>) -> (r: usize)
    ensures
        r == it.remaining().len(),
{
    it.len()
}

/// `ExactSizeIterator::len` of `std::collections::hash_map::IterMut`.
///
/// Trusted: the number returned is the number of entries that the iterator
/// has in store.
#[verifier::external_body]
pub(crate) fn iter_mut_len<'a, K, T>(it: &std::collections::hash_map::IterMut<'a, K, T>) -> (r:
    usize)
    ensures
        r == it.remaining().len(),
{
    it.len()
}

/// `Iterator::next` of `std::collections::hash_map::Iter`.
///
/// Trusted: the call hands out the first of the entries that the iterator
/// has in store and keeps the others in their order; with none in store it
/// returns `None` and stays as it is.
#[verifier::external_body]
pub(crate) fn iter_next<'a, K, T>(it: &mut std::collections::hash_map::Iter<'a, K, T>) -> (r:
    Option<(&'a K, &'a T)>)
    ensures
        match r {
            Some(pair) => {
                &&& (*old(it)).remaining().len() > 0
                &&& pair == (*old(it)).remaining()[0]
                &&& (*final(it)).remaining() == (*old(it)).remaining().drop_first()
            },
            None => {
                &&& (*old(it)).remaining().len() == 0
                &&& (*final(it)).remaining() == (*old(it)).remaining()
            },
        },
{
    it.next()
}

/// `Clone::clone` of `std::collections::hash_map::Iter`.
///
/// Trusted: the clone has the same entries in store, in the same order.
pub assume_specification<'a, K, T>[ <std::collections::hash_map::Iter<'a, K, T> as Clone>::clone ](
    it: &std::collections::hash_map::Iter<'a, K, T>,
) -> (r: std::collections::hash_map::Iter<'a, K, T>)
    ensures
        r.remaining() == it.remaining(),
;

} // verus!
