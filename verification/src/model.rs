//! The mathematical model of a multimap: a map from keys to sequences of
//! values, and the functions on it that the contracts speak of.

use vstd::prelude::*;

verus! {

/// The model after inserting `v` under `k`: a fresh one-element list when `k`
/// is new, the old list with `v` appended otherwise.
pub open spec fn inserted<K, V>(m: Map<K, Seq<V>>, k: K, v: V) -> Map<K, Seq<V>> {
    if m.contains_key(k) {
        m.insert(k, m[k].push(v))
    } else {
        m.insert(k, seq![v])
    }
}

/// The model after inserting the values of `vs` under `k`, one after the
/// other, the first one first.
pub open spec fn inserted_all<K, V>(m: Map<K, Seq<V>>, k: K, vs: Seq<V>) -> Map<K, Seq<V>>
    decreases vs.len(),
{
    if vs.len() == 0 {
        m
    } else {
        inserted(inserted_all(m, k, vs.drop_last()), k, vs.last())
    }
}

/// Every key of `m` owns at least one value.
pub open spec fn lists_nonempty<K, V>(m: Map<K, Seq<V>>) -> bool {
    forall|k: K| #[trigger] m.contains_key(k) ==> m[k].len() > 0
}

/// The first value of `k`, if `k` owns a list.
pub open spec fn first_value<K, V>(m: Map<K, Seq<V>>, k: K) -> Option<V> {
    if m.contains_key(k) {
        Some(m[k][0])
    } else {
        None
    }
}

/// The first value of every list of `m`.
pub open spec fn heads<K, V>(m: Map<K, Seq<V>>) -> Map<K, V> {
    Map::new(|k: K| m.contains_key(k), |k: K| m[k][0])
}

/// `s` lists the pairs of `m`: every key of `m` once, with its value, and
/// nothing else.
pub open spec fn pairs_of<K, T>(s: Seq<(K, T)>, m: Map<K, T>) -> bool {
    &&& s.len() == m.len()
    &&& forall|i: int|
        0 <= i < s.len() ==> m.contains_key(#[trigger] s[i].0) && m[s[i].0] == s[i].1
    &&& forall|i: int, j: int| 0 <= i < j < s.len() ==> #[trigger] s[i].0 != #[trigger] s[j].0
    &&& forall|k: K| #[trigger]
        m.contains_key(k) ==> exists|i: int| 0 <= i < s.len() && #[trigger] s[i].0 == k
}

/// What a borrowed sequence of keys and lists holds: each key with the
/// values of its list.
pub open spec fn listed<K, V>(s: Seq<(&K, &Vec<V>)>) -> Seq<(K, Seq<V>)> {
    Seq::new(s.len(), |i: int| (*s[i].0, s[i].1@))
}

/// What a sequence of keys and mutably lent values holds now: each key with
/// the value as it stands.
pub open spec fn lent<K, T>(s: Seq<(&K, &mut T)>) -> Seq<(K, T)> {
    Seq::new(s.len(), |i: int| (*s[i].0, *s[i].1))
}

/// What a sequence of keys and mutably lent lists holds now: each key with
/// the values of its list as they stand.
pub open spec fn lent_lists<K, V>(s: Seq<(&K, &mut Vec<V>)>) -> Seq<(K, Seq<V>)> {
    Seq::new(s.len(), |i: int| (*s[i].0, (*s[i].1)@))
}

/// What a borrowed sequence of keys and lists holds: each key with its list.
pub open spec fn entries<K, V>(s: Seq<(&K, &Vec<V>)>) -> Seq<(K, Vec<V>)> {
    Seq::new(s.len(), |i: int| (*s[i].0, *s[i].1))
}

/// What a borrowed sequence of keys and lists shows of first values: each
/// key with the first value of its list.
pub open spec fn firsts<K, V>(s: Seq<(&K, &Vec<V>)>) -> Seq<(K, V)> {
    Seq::new(s.len(), |i: int| (*s[i].0, s[i].1@[0]))
}

/// What a sequence of keys and mutably lent lists shows of first values now:
/// each key with the first value of its list as it stands.
pub open spec fn lent_firsts<K, V>(s: Seq<(&K, &mut Vec<V>)>) -> Seq<(K, V)> {
    Seq::new(s.len(), |i: int| (*s[i].0, (*s[i].1)@[0]))
}

/// The number of values that `m` holds, over all keys.
pub open spec fn total_values<K, V>(m: Map<K, Seq<V>>) -> nat
    decreases m.dom().len(),
    when m.dom().finite()
    via total_values_decreases::<K, V>
{
    if m.dom().len() == 0 {
        0
    } else {
        let k = m.dom().choose();
        m[k].len() + total_values(m.remove(k))
    }
}

#[via_fn]
proof fn total_values_decreases<K, V>(m: Map<K, Seq<V>>) {
    if m.dom().len() != 0 {
        let k = m.dom().choose();
        assert(m.dom().contains(k));
        assert(m.remove(k).dom() =~= m.dom().remove(k));
    }
}

/// The sum of the lengths of the lists in `s`.
pub open spec fn total_len<K, V>(s: Seq<(K, Seq<V>)>) -> nat
    decreases s.len(),
{
    if s.len() == 0 {
        0
    } else {
        total_len(s.drop_last()) + s.last().1.len()
    }
}

} // verus!
