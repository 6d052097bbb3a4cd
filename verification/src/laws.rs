//! Laws of the multimap model: what a run of insertions and removals leaves
//! behind. Each is stated over the functions that the contracts of the
//! operations use, so it applies to any multimap through its view.

use vstd::prelude::*;
use crate::model::inserted;
use crate::model::inserted_all;
use crate::model::first_value;
use crate::model::lists_nonempty;
use crate::model::heads;
use crate::model::pairs_of;
use crate::model::total_values;
use crate::model::total_len;

verus! {

/// Inserting under `k` leaves `k` present with a non-empty list, keeps the
/// set of keys finite, and touches no other key: without `k`, the model is
/// what it was without `k`. The number of keys grows by
/// one exactly when `k` was absent; then the new list is the single value.
pub proof fn lemma_inserted<K, V>(m: Map<K, Seq<V>>, k: K, v: V)
    requires
        m.dom().finite(),
    ensures
        inserted(m, k, v).dom().finite(),
        inserted(m, k, v).contains_key(k),
        m.contains_key(k) ==> inserted(m, k, v).len() == m.len() && inserted(m, k, v)[k]
            == m[k].push(v),
        !m.contains_key(k) ==> inserted(m, k, v).len() == m.len() + 1 && inserted(m, k, v)[k]
            == seq![v],
        inserted(m, k, v).remove(k) == m.remove(k),
        lists_nonempty(m) ==> lists_nonempty(inserted(m, k, v)),
{
    assert(inserted(m, k, v).dom() =~= m.dom().insert(k));
    assert(inserted(m, k, v).remove(k) =~= m.remove(k));
}

/// Values inserted under one key come back in the order of their arrival,
/// after whatever the key held before; the first of them all is the key's
/// first value. No other key is touched.
pub proof fn lemma_inserted_all<K, V>(m: Map<K, Seq<V>>, k: K, vs: Seq<V>)
    requires
        vs.len() > 0,
    ensures
        inserted_all(m, k, vs).contains_key(k),
        m.contains_key(k) ==> inserted_all(m, k, vs)[k] == m[k] + vs,
        !m.contains_key(k) ==> inserted_all(m, k, vs)[k] == vs,
        !m.contains_key(k) ==> first_value(inserted_all(m, k, vs), k) == Some(vs[0]),
        inserted_all(m, k, vs).remove(k) == m.remove(k),
    decreases vs.len(),
{
    let front = vs.drop_last();
    let before = inserted_all(m, k, front);
    assert(inserted(before, k, vs.last()).remove(k) =~= before.remove(k));
    if front.len() == 0 {
        assert(before == m);
        if m.contains_key(k) {
            assert(m[k].push(vs.last()) =~= m[k] + vs);
        } else {
            assert(seq![vs.last()] =~= vs);
        }
    } else {
        lemma_inserted_all(m, k, front);
        if m.contains_key(k) {
            assert((m[k] + front).push(vs.last()) =~= m[k] + vs);
        } else {
            assert(front.push(vs.last()) =~= vs);
        }
    }
}

/// Rewriting the first value of `k` keeps the length of its list and every
/// value behind the first, and touches no other key.
pub proof fn lemma_first_value_rewritten<K, V>(m: Map<K, Seq<V>>, k: K, x: V)
    requires
        m.contains_key(k),
        m[k].len() > 0,
    ensures
        ({
            let after = m.insert(k, m[k].update(0, x));
            &&& after.dom() == m.dom()
            &&& after[k].len() == m[k].len()
            &&& after[k][0] == x
            &&& first_value(after, k) == Some(x)
            &&& forall|i: int| 0 < i < m[k].len() ==> after[k][i] == m[k][i]
            &&& after.remove(k) == m.remove(k)
        }),
{
    assert(m.insert(k, m[k].update(0, x)).dom() =~= m.dom());
    assert(m.insert(k, m[k].update(0, x)).remove(k) =~= m.remove(k));
}

/// For a present key, its first value is the head of its list: indexed
/// access and `get` read the same value.
pub proof fn lemma_first_value_present<K, V>(m: Map<K, Seq<V>>, k: K)
    requires
        m.contains_key(k),
    ensures
        first_value(m, k) == Some(m[k][0]),
        heads(m).contains_key(k),
        heads(m)[k] == m[k][0],
{
}

/// A listing of a map stays a listing when one function is applied to the
/// values on both sides: `t` lists `n` if `s` lists `m`, `t` is `s` with `f`
/// applied to each value, and `n` is `m` with `f` applied to each value.
pub proof fn lemma_pairs_of_mapped<K, A, B>(
    s: Seq<(K, A)>,
    m: Map<K, A>,
    f: spec_fn(A) -> B,
    t: Seq<(K, B)>,
    n: Map<K, B>,
)
    requires
        pairs_of(s, m),
        t.len() == s.len(),
        forall|i: int| 0 <= i < s.len() ==> #[trigger] t[i] == (s[i].0, f(s[i].1)),
        n.dom() == m.dom(),
        forall|k: K| #[trigger] m.contains_key(k) ==> n[k] == f(m[k]),
    ensures
        pairs_of(t, n),
{
    assert forall|i: int| 0 <= i < t.len() implies n.contains_key(#[trigger] t[i].0) && n[t[i].0]
        == t[i].1 by {
        assert(m.contains_key(s[i].0));
    }
    assert forall|i: int, j: int| 0 <= i < j < t.len() implies #[trigger] t[i].0
        != #[trigger] t[j].0 by {
        assert(s[i].0 != s[j].0);
    }
    assert forall|k: K| #[trigger] n.contains_key(k) implies exists|i: int|
        0 <= i < t.len() && #[trigger] t[i].0 == k by {
        assert(m.contains_key(k));
        let i = choose|i: int| 0 <= i < s.len() && #[trigger] s[i].0 == k;
        assert(t[i].0 == k);
    }
}

/// The values of a multimap are those of any one key and those of the rest.
pub proof fn lemma_total_values_split<K, V>(m: Map<K, Seq<V>>, k: K)
    requires
        m.dom().finite(),
        m.contains_key(k),
    ensures
        total_values(m) == m[k].len() + total_values(m.remove(k)),
    decreases m.dom().len(),
{
    let c = m.dom().choose();
    assert(m.dom().contains(k));
    assert(m.dom().len() != 0);
    if c != k {
        assert(m.dom().contains(c));
        let mc = m.remove(c);
        let mk = m.remove(k);
        assert(mc.dom() =~= m.dom().remove(c));
        assert(mk.dom() =~= m.dom().remove(k));
        lemma_total_values_split(mc, k);
        lemma_total_values_split(mk, c);
        assert(mc.remove(k) =~= mk.remove(c));
    }
}

/// An empty multimap holds no value.
pub proof fn lemma_total_values_empty<K, V>()
    ensures
        total_values(Map::<K, Seq<V>>::empty()) == 0,
{
}

/// Every insertion adds one value to the total.
pub proof fn lemma_total_values_inserted<K, V>(m: Map<K, Seq<V>>, k: K, v: V)
    requires
        m.dom().finite(),
    ensures
        total_values(inserted(m, k, v)) == total_values(m) + 1,
{
    let after = inserted(m, k, v);
    lemma_inserted(m, k, v);
    lemma_total_values_split(after, k);
    if m.contains_key(k) {
        lemma_total_values_split(m, k);
        assert(after.remove(k) =~= m.remove(k));
    } else {
        assert(after.remove(k) =~= m);
    }
}

/// Removing a key takes the values of its list from the total; removing an
/// absent key takes nothing.
pub proof fn lemma_total_values_removed<K, V>(m: Map<K, Seq<V>>, k: K)
    requires
        m.dom().finite(),
    ensures
        m.contains_key(k) ==> total_values(m.remove(k)) == total_values(m) - m[k].len(),
        !m.contains_key(k) ==> total_values(m.remove(k)) == total_values(m),
{
    if m.contains_key(k) {
        lemma_total_values_split(m, k);
    } else {
        assert(m.remove(k) =~= m);
    }
}

/// A sequence that lists every key once with its list has as many pairs as
/// the multimap has keys, and the lengths of its lists sum to the number of
/// values that the multimap holds.
pub proof fn lemma_pairs_total<K, V>(s: Seq<(K, Seq<V>)>, m: Map<K, Seq<V>>)
    requires
        m.dom().finite(),
        pairs_of(s, m),
    ensures
        s.len() == m.len(),
        total_len(s) == total_values(m),
    decreases s.len(),
{
    if s.len() > 0 {
        let n = s.len() - 1;
        let k = s[n].0;
        assert(m.contains_key(k));
        let front = s.drop_last();
        let rest = m.remove(k);
        assert(rest.dom() =~= m.dom().remove(k));
        assert forall|i: int| 0 <= i < front.len() implies rest.contains_key(
            #[trigger] front[i].0,
        ) && rest[front[i].0] == front[i].1 by {
            assert(m.contains_key(s[i].0));
            assert(s[i].0 != s[n].0);
        }
        assert forall|i: int, j: int| 0 <= i < j < front.len() implies #[trigger] front[i].0
            != #[trigger] front[j].0 by {
            assert(s[i].0 != s[j].0);
        }
        assert forall|key: K| #[trigger] rest.contains_key(key) implies exists|i: int|
            0 <= i < front.len() && #[trigger] front[i].0 == key by {
            assert(m.contains_key(key));
            let i = choose|i: int| 0 <= i < s.len() && #[trigger] s[i].0 == key;
            assert(i != n);
            assert(front[i].0 == key);
        }
        lemma_pairs_total(front, rest);
        lemma_total_values_split(m, k);
    }
}

} // verus!
