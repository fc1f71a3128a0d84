//! The model of an insertion-ordered map from names to values: a sequence
//! of pairs, in the order in which the names were first inserted.
use vstd::prelude::*;

verus! {

/// Index of the first pair of `m` whose name is `k`.
pub open spec fn index_of<V>(m: Seq<(Seq<char>, V)>, k: Seq<char>) -> Option<int>
    decreases m.len(),
{
    if m.len() == 0 {
        None
    } else {
        match index_of(m.drop_last(), k) {
            Some(i) => Some(i),
            None => if m.last().0 == k {
                Some(m.len() - 1)
            } else {
                None
            },
        }
    }
}

/// The value that `m` holds under the name `k`.
pub open spec fn lookup<V>(m: Seq<(Seq<char>, V)>, k: Seq<char>) -> Option<V> {
    match index_of(m, k) {
        Some(i) => Some(m[i].1),
        None => None,
    }
}

/// `m` after the insertion of `v` under `k`: a name that is present
/// keeps its place and gets the new value; a new name goes last.
pub open spec fn put<V>(m: Seq<(Seq<char>, V)>, k: Seq<char>, v: V) -> Seq<(Seq<char>, V)> {
    match index_of(m, k) {
        Some(i) => m.update(i, (m[i].0, v)),
        None => m.push((k, v)),
    }
}

/// `m` after the insertion of every pair of `other`, in order.
pub open spec fn put_all<V>(m: Seq<(Seq<char>, V)>, other: Seq<(Seq<char>, V)>) -> Seq<(Seq<char>, V)>
    decreases other.len(),
{
    if other.len() == 0 {
        m
    } else {
        put(put_all(m, other.drop_last()), other.last().0, other.last().1)
    }
}

/// `m` after the insertion of `v` under each of `names`, in order.
pub open spec fn put_each<V>(m: Seq<(Seq<char>, V)>, names: Seq<Seq<char>>, v: V) -> Seq<(Seq<char>, V)>
    decreases names.len(),
{
    if names.len() == 0 {
        m
    } else {
        put(put_each(m, names.drop_last(), v), names.last(), v)
    }
}

/// No name occurs twice.
pub open spec fn unique_keys<V>(m: Seq<(Seq<char>, V)>) -> bool {
    forall|i: int, j: int| 0 <= i < j < m.len() ==> (#[trigger] m[i]).0 != (#[trigger] m[j]).0
}

/// The value of the last pair of `m` whose name is `k`.
pub open spec fn last_value<V>(m: Seq<(Seq<char>, V)>, k: Seq<char>) -> Option<V>
    decreases m.len(),
{
    if m.len() == 0 {
        None
    } else if m.last().0 == k {
        Some(m.last().1)
    } else {
        last_value(m.drop_last(), k)
    }
}

/// The first index of a name: the name stands there, and nowhere before.
pub proof fn lemma_index_of<V>(m: Seq<(Seq<char>, V)>, k: Seq<char>)
    ensures
        match index_of(m, k) {
            Some(i) => 0 <= i < m.len() && m[i].0 == k && forall|j: int|
                0 <= j < i ==> (#[trigger] m[j]).0 != k,
            None => forall|j: int| 0 <= j < m.len() ==> (#[trigger] m[j]).0 != k,
        },
    decreases m.len(),
{
    if m.len() > 0 {
        lemma_index_of(m.drop_last(), k);
        assert(forall|j: int| 0 <= j < m.len() - 1 ==> m.drop_last()[j] == m[j]);
    }
}

/// The first index of a name is determined by what `lemma_index_of` states.
pub proof fn lemma_index_of_is<V>(m: Seq<(Seq<char>, V)>, k: Seq<char>, i: int)
    requires
        0 <= i < m.len(),
        m[i].0 == k,
        forall|j: int| 0 <= j < i ==> (#[trigger] m[j]).0 != k,
    ensures
        index_of(m, k) == Some(i),
{
    lemma_index_of(m, k);
}

/// What an insertion changes: the name holds the new value at the place
/// that it had, or at the end; every other name keeps its place and its
/// value; and names that were unique stay so.
pub proof fn lemma_put<V>(m: Seq<(Seq<char>, V)>, k: Seq<char>, v: V)
    ensures
        lookup(put(m, k, v), k) == Some(v),
        forall|k2: Seq<char>| k2 != k ==> index_of(put(m, k, v), k2) == #[trigger] index_of(m, k2),
        forall|k2: Seq<char>| k2 != k ==> lookup(put(m, k, v), k2) == #[trigger] lookup(m, k2),
        index_of(m, k) is Some ==> index_of(put(m, k, v), k) == index_of(m, k),
        index_of(m, k) is None ==> index_of(put(m, k, v), k) == Some(m.len() as int),
        m.len() <= put(m, k, v).len() <= m.len() + 1,
        unique_keys(m) ==> unique_keys(put(m, k, v)),
{
    let r = put(m, k, v);
    lemma_index_of(m, k);
    match index_of(m, k) {
        Some(i) => {
            lemma_index_of_is(r, k, i);
        },
        None => {
            lemma_index_of_is(r, k, m.len() as int);
        },
    }
    assert forall|k2: Seq<char>| k2 != k implies index_of(r, k2) == #[trigger] index_of(m, k2) by {
        lemma_index_of(m, k2);
        lemma_index_of(r, k2);
        match index_of(m, k2) {
            Some(i2) => {
                lemma_index_of_is(r, k2, i2);
            },
            None => {
                if let Some(j) = index_of(r, k2) {
                    if j < m.len() {
                        assert(m[j].0 != k2);
                    }
                }
            },
        }
    }
    assert forall|k2: Seq<char>| k2 != k implies lookup(r, k2) == #[trigger] lookup(m, k2) by {
        assert(index_of(r, k2) == index_of(m, k2));
        lemma_index_of(m, k2);
    }
}

/// A second insertion under the same name replaces the first.
pub proof fn lemma_put_put<V>(m: Seq<(Seq<char>, V)>, k: Seq<char>, a: V, b: V)
    ensures
        put(put(m, k, a), k, b) == put(m, k, b),
{
    lemma_put(m, k, a);
    lemma_index_of(m, k);
    assert(put(put(m, k, a), k, b) =~= put(m, k, b));
}

/// Insertion of what is already there changes nothing.
pub proof fn lemma_put_same<V>(m: Seq<(Seq<char>, V)>, k: Seq<char>)
    requires
        lookup(m, k) is Some,
    ensures
        put(m, k, lookup(m, k)->Some_0) == m,
{
    lemma_index_of(m, k);
    assert(put(m, k, lookup(m, k)->Some_0) =~= m);
}

/// After the insertion of all of `other`, a name of `other` holds the
/// last value that `other` gives it, and every other name holds what it
/// held before.
pub proof fn lemma_put_all_lookup<V>(m: Seq<(Seq<char>, V)>, other: Seq<(Seq<char>, V)>, k: Seq<char>)
    ensures
        lookup(put_all(m, other), k) == match last_value(other, k) {
            Some(v) => Some(v),
            None => lookup(m, k),
        },
    decreases other.len(),
{
    if other.len() > 0 {
        lemma_put_all_lookup(m, other.drop_last(), k);
        lemma_put(put_all(m, other.drop_last()), other.last().0, other.last().1);
    }
}

/// Where no name occurs twice, the last value of a name is its only one.
pub proof fn lemma_last_value_unique<V>(m: Seq<(Seq<char>, V)>, k: Seq<char>)
    requires
        unique_keys(m),
    ensures
        last_value(m, k) == lookup(m, k),
    decreases m.len(),
{
    if m.len() > 0 {
        lemma_index_of(m, k);
        lemma_index_of(m.drop_last(), k);
        if m.last().0 == k {
            if let Some(i) = index_of(m, k) {
                if i < m.len() - 1 {
                    assert(m[i].0 != m[m.len() - 1].0);
                }
            }
        } else {
            assert forall|i: int, j: int| 0 <= i < j < m.drop_last().len() implies (
            #[trigger] m.drop_last()[i]).0 != (#[trigger] m.drop_last()[j]).0 by {
                assert(m[i].0 != m[j].0);
            }
            lemma_last_value_unique(m.drop_last(), k);
        }
    }
}

} // verus!
