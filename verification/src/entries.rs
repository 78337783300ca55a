//! Sequences of key/value entries kept in insertion order, the model of the
//! fixed-capacity maps that the trackers keep.
use vstd::prelude::*;

verus! {

/// Some entry of `e` has key `k`.
pub open spec fn has_key<K, V>(e: Seq<(K, V)>, k: K) -> bool {
    exists|i: int| 0 <= i < e.len() && (#[trigger] e[i]).0 == k
}

/// No two entries of `e` share a key.
pub open spec fn keys_unique<K, V>(e: Seq<(K, V)>) -> bool {
    forall|i: int, j: int|
        0 <= i < e.len() && 0 <= j < e.len() && i != j ==> (#[trigger] e[i]).0 != (#[trigger] e[j]).0
}

/// `e` with the value of every entry keyed `k` replaced by `v`, positions unchanged.
pub open spec fn with_value<K, V>(e: Seq<(K, V)>, k: K, v: V) -> Seq<(K, V)> {
    Seq::new(e.len(), |j: int| if e[j].0 == k { (k, v) } else { e[j] })
}

/// `e` without its `i`-th element, the last element taking its place.
pub open spec fn swap_remove_at<T>(e: Seq<T>, i: int) -> Seq<T> {
    if i == e.len() - 1 {
        e.drop_last()
    } else {
        e.drop_last().update(i, e.last())
    }
}

/// The value stored under `k`, if any.
pub open spec fn value_of<K, V>(e: Seq<(K, V)>, k: K) -> Option<V> {
    if has_key(e, k) {
        Some(e[choose|i: int| 0 <= i < e.len() && (#[trigger] e[i]).0 == k].1)
    } else {
        None
    }
}

/// The keys of `e`, in order.
pub open spec fn keys_of<K, V>(e: Seq<(K, V)>) -> Seq<K> {
    Seq::new(e.len(), |i: int| e[i].0)
}

/// With unique keys, the value stored under the key of entry `i` is that entry's value.
pub proof fn lemma_value_of_index<K, V>(e: Seq<(K, V)>, i: int)
    requires
        keys_unique(e),
        0 <= i < e.len(),
    ensures
        value_of(e, e[i].0) == Some(e[i].1),
{
    let k = e[i].0;
    assert(has_key(e, k));
    let j = choose|j: int| 0 <= j < e.len() && (#[trigger] e[j]).0 == k;
    assert(j == i);
}

/// Replacing a value keeps keys unique and in place.
pub proof fn lemma_with_value_unique<K, V>(e: Seq<(K, V)>, k: K, v: V)
    requires
        keys_unique(e),
    ensures
        keys_unique(with_value(e, k, v)),
        keys_of(with_value(e, k, v)) == keys_of(e),
        has_key(e, k) ==> value_of(with_value(e, k, v), k) == Some(v),
        forall|k2: K| k2 != k ==> value_of(#[trigger] with_value(e, k, v), k2) == value_of(e, k2),
{
    let w = with_value(e, k, v);
    assert(forall|i: int| 0 <= i < e.len() ==> (#[trigger] w[i]).0 == e[i].0);
    assert(keys_of(w) =~= keys_of(e));
    if has_key(e, k) {
        let i = choose|i: int| 0 <= i < e.len() && (#[trigger] e[i]).0 == k;
        assert(w[i].0 == k);
        lemma_value_of_index(w, i);
    }
    assert forall|k2: K| k2 != k implies value_of(#[trigger] with_value(e, k, v), k2) == value_of(e, k2) by {
        if has_key(e, k2) {
            let i = choose|i: int| 0 <= i < e.len() && (#[trigger] e[i]).0 == k2;
            assert(w[i] == e[i]);
            lemma_value_of_index(w, i);
            lemma_value_of_index(e, i);
        } else {
            assert forall|i: int| 0 <= i < w.len() implies (#[trigger] w[i]).0 != k2 by {
                assert(e[i].0 != k2);
            }
        }
    }
}

/// Appending an entry with a fresh key keeps keys unique, and the new key reads back its value.
pub proof fn lemma_push_fresh_unique<K, V>(e: Seq<(K, V)>, k: K, v: V)
    requires
        keys_unique(e),
        !has_key(e, k),
    ensures
        keys_unique(e.push((k, v))),
        value_of(e.push((k, v)), k) == Some(v),
        forall|k2: K| k2 != k ==> value_of(#[trigger] e.push((k, v)), k2) == value_of(e, k2),
{
    let p = e.push((k, v));
    assert forall|i: int, j: int|
        0 <= i < p.len() && 0 <= j < p.len() && i != j implies (#[trigger] p[i]).0 != (#[trigger] p[j]).0 by {
        if i < e.len() && j < e.len() {
            assert(p[i] == e[i] && p[j] == e[j]);
        } else if i < e.len() {
            assert(p[i] == e[i]);
        } else {
            assert(p[j] == e[j]);
        }
    }
    lemma_value_of_index(p, e.len() as int);
    assert forall|k2: K| k2 != k implies value_of(#[trigger] e.push((k, v)), k2) == value_of(e, k2) by {
        if has_key(e, k2) {
            let i = choose|i: int| 0 <= i < e.len() && (#[trigger] e[i]).0 == k2;
            assert(p[i] == e[i]);
            lemma_value_of_index(p, i);
            lemma_value_of_index(e, i);
        } else {
            assert forall|i: int| 0 <= i < p.len() implies (#[trigger] p[i]).0 != k2 by {
                if i < e.len() {
                    assert(p[i] == e[i]);
                }
            }
        }
    }
}

/// Removing an element by swapping in the last one keeps every other element and drops that one.
pub proof fn lemma_swap_remove_members<T>(e: Seq<T>, i: int)
    requires
        0 <= i < e.len(),
    ensures
        swap_remove_at(e, i).len() == e.len() - 1,
        forall|j: int|
            0 <= j < swap_remove_at(e, i).len() ==> exists|m: int|
                0 <= m < e.len() && m != i && #[trigger] swap_remove_at(e, i)[j] == e[m],
        forall|m: int|
            0 <= m < e.len() && m != i ==> exists|j: int|
                0 <= j < swap_remove_at(e, i).len() && swap_remove_at(e, i)[j] == #[trigger] e[m],
{
    let r = swap_remove_at(e, i);
    assert forall|j: int| 0 <= j < r.len() implies exists|m: int|
        0 <= m < e.len() && m != i && #[trigger] r[j] == e[m] by {
        if j == i {
            assert(r[j] == e[e.len() - 1]);
        } else {
            assert(r[j] == e[j]);
        }
    }
    assert forall|m: int| 0 <= m < e.len() && m != i implies exists|j: int|
        0 <= j < r.len() && r[j] == #[trigger] e[m] by {
        if m == e.len() - 1 {
            assert(r[i] == e[m]);
        } else {
            assert(r[m] == e[m]);
        }
    }
}

/// Removing the entry at `i` keeps keys unique and forgets exactly that entry's key.
pub proof fn lemma_swap_remove_unique<K, V>(e: Seq<(K, V)>, i: int)
    requires
        keys_unique(e),
        0 <= i < e.len(),
    ensures
        keys_unique(swap_remove_at(e, i)),
        !has_key(swap_remove_at(e, i), e[i].0),
        forall|k: K| k != e[i].0 ==> value_of(#[trigger] swap_remove_at(e, i), k) == value_of(e, k),
{
    let r = swap_remove_at(e, i);
    lemma_swap_remove_members(e, i);
    let last = e.len() - 1;
    // each position of r comes from a distinct position of e other than i
    assert forall|j: int| 0 <= j < r.len() implies #[trigger] r[j] == e[if j == i { last } else { j }]
        && (if j == i { last } else { j }) != i by {
    }
    assert forall|a: int, b: int|
        0 <= a < r.len() && 0 <= b < r.len() && a != b implies (#[trigger] r[a]).0 != (#[trigger] r[b]).0 by {
        let ma = if a == i { last } else { a };
        let mb = if b == i { last } else { b };
        assert(r[a] == e[ma] && r[b] == e[mb]);
    }
    assert forall|j: int| 0 <= j < r.len() implies (#[trigger] r[j]).0 != e[i].0 by {
        let m = if j == i { last } else { j };
        assert(r[j] == e[m]);
    }
    assert forall|k: K| k != e[i].0 implies value_of(#[trigger] swap_remove_at(e, i), k) == value_of(e, k) by {
        if has_key(e, k) {
            let m = choose|m: int| 0 <= m < e.len() && (#[trigger] e[m]).0 == k;
            assert(m != i);
            let j = if m == last { i } else { m };
            assert(r[j] == e[m]);
            lemma_value_of_index(r, j);
            lemma_value_of_index(e, m);
        } else {
            assert forall|j: int| 0 <= j < r.len() implies (#[trigger] r[j]).0 != k by {
                let m = if j == i { last } else { j };
                assert(r[j] == e[m]);
            }
        }
    }
}

/// Keeping a subsequence keeps keys unique.
pub proof fn lemma_filter_unique<K, V>(e: Seq<(K, V)>, pred: spec_fn((K, V)) -> bool)
    requires
        keys_unique(e),
    ensures
        keys_unique(e.filter(pred)),
        e.filter(pred).len() <= e.len(),
        forall|k: K| has_key(e.filter(pred), k) ==> has_key(e, k),
    decreases e.len(),
{
    reveal_with_fuel(Seq::filter, 1);
    if e.len() > 0 {
        let d = e.drop_last();
        assert(keys_unique(d)) by {
            assert forall|i: int, j: int|
                0 <= i < d.len() && 0 <= j < d.len() && i != j implies (#[trigger] d[i]).0 != (#[trigger] d[j]).0 by {
                assert(d[i] == e[i] && d[j] == e[j]);
            }
        }
        lemma_filter_unique(d, pred);
        let f = d.filter(pred);
        assert(!has_key(d, e.last().0)) by {
            assert forall|i: int| 0 <= i < d.len() implies (#[trigger] d[i]).0 != e.last().0 by {
                assert(d[i] == e[i]);
            }
        }
        assert forall|k: K| has_key(d, k) implies has_key(e, k) by {
            let i = choose|i: int| 0 <= i < d.len() && (#[trigger] d[i]).0 == k;
            assert(e[i] == d[i]);
        }
        if pred(e.last()) {
            lemma_push_fresh_unique(f, e.last().0, e.last().1);
            assert(f.push((e.last().0, e.last().1)) == f.push(e.last()));
            assert forall|k: K| has_key(f.push(e.last()), k) implies has_key(e, k) by {
                let i = choose|i: int| 0 <= i < f.push(e.last()).len() && (#[trigger] f.push(e.last())[i]).0 == k;
                if i == f.len() {
                    assert(e[e.len() - 1].0 == k);
                } else {
                    assert(f.push(e.last())[i] == f[i]);
                }
            }
        }
    }
}

} // verus!

verus! {

/// Every element kept by a filter is an element of the original sequence.
pub proof fn lemma_filter_members<T>(e: Seq<T>, pred: spec_fn(T) -> bool)
    ensures
        forall|i: int| 0 <= i < e.filter(pred).len() ==> e.contains(#[trigger] e.filter(pred)[i]),
    decreases e.len(),
{
    reveal_with_fuel(Seq::filter, 1);
    if e.len() > 0 {
        let d = e.drop_last();
        lemma_filter_members(d, pred);
        let f = e.filter(pred);
        assert forall|i: int| 0 <= i < f.len() implies e.contains(#[trigger] f[i]) by {
            if i < d.filter(pred).len() {
                assert(f[i] == d.filter(pred)[i]);
                let j = choose|j: int| 0 <= j < d.len() && d[j] == d.filter(pred)[i];
                assert(e[j] == d[j]);
            } else {
                assert(f[i] == e[e.len() - 1]);
            }
        }
    }
}

} // verus!

verus! {

/// A filter that every element passes keeps the whole sequence.
pub proof fn lemma_filter_all<T>(e: Seq<T>, pred: spec_fn(T) -> bool)
    requires
        forall|i: int| 0 <= i < e.len() ==> pred(#[trigger] e[i]),
    ensures
        e.filter(pred) == e,
    decreases e.len(),
{
    reveal_with_fuel(Seq::filter, 1);
    if e.len() > 0 {
        let d = e.drop_last();
        assert forall|i: int| 0 <= i < d.len() implies pred(#[trigger] d[i]) by {
            assert(d[i] == e[i]);
        }
        lemma_filter_all(d, pred);
        assert(pred(e[e.len() - 1]));
        assert(d.push(e.last()) =~= e);
    }
}

/// A filter that some element fails makes the sequence shorter.
pub proof fn lemma_filter_drops<T>(e: Seq<T>, pred: spec_fn(T) -> bool, i: int)
    requires
        0 <= i < e.len(),
        !pred(e[i]),
    ensures
        e.filter(pred).len() < e.len(),
    decreases e.len(),
{
    reveal_with_fuel(Seq::filter, 1);
    let d = e.drop_last();
    d.lemma_filter_len(pred);
    if i < e.len() - 1 {
        assert(d[i] == e[i]);
        lemma_filter_drops(d, pred, i);
    }
}

/// An element is kept by a filter exactly when it is in the sequence and passes.
pub proof fn lemma_filter_contains_iff<T>(e: Seq<T>, pred: spec_fn(T) -> bool, x: T)
    ensures
        e.filter(pred).contains(x) <==> e.contains(x) && pred(x),
{
    lemma_filter_members(e, pred);
    if e.contains(x) && pred(x) {
        let i = choose|i: int| 0 <= i < e.len() && e[i] == x;
        e.lemma_filter_contains(pred, i);
    }
    if e.filter(pred).contains(x) {
        let j = choose|j: int| 0 <= j < e.filter(pred).len() && e.filter(pred)[j] == x;
        e.lemma_filter_pred(pred, j);
        assert(e.contains(e.filter(pred)[j]));
    }
}

/// Within a sequence with unique keys, an entry that is kept by a filter
/// keeps its value, and a key is kept exactly when its entry passes.
pub proof fn lemma_filter_values<K, V>(e: Seq<(K, V)>, pred: spec_fn((K, V)) -> bool, k: K)
    requires
        keys_unique(e),
    ensures
        has_key(e.filter(pred), k) <==> has_key(e, k) && pred((k, value_of(e, k).unwrap())),
        has_key(e.filter(pred), k) ==> value_of(e.filter(pred), k) == value_of(e, k),
{
    let f = e.filter(pred);
    lemma_filter_unique(e, pred);
    lemma_filter_members(e, pred);
    if has_key(e, k) {
        let i = choose|i: int| 0 <= i < e.len() && (#[trigger] e[i]).0 == k;
        lemma_value_of_index(e, i);
        assert(e[i] == (k, value_of(e, k).unwrap()));
        lemma_filter_contains_iff(e, pred, e[i]);
        if pred(e[i]) {
            let j = choose|j: int| 0 <= j < f.len() && f[j] == e[i];
            assert(f[j].0 == k);
            lemma_value_of_index(f, j);
        } else {
            assert forall|j: int| 0 <= j < f.len() implies (#[trigger] f[j]).0 != k by {
                assert(e.contains(f[j]));
                let m = choose|m: int| 0 <= m < e.len() && e[m] == f[j];
                if f[j].0 == k {
                    assert(m == i);
                    assert(f.contains(f[j]));
                    lemma_filter_contains_iff(e, pred, f[j]);
                }
            }
        }
    } else {
        assert forall|j: int| 0 <= j < f.len() implies (#[trigger] f[j]).0 != k by {
            assert(e.contains(f[j]));
            let m = choose|m: int| 0 <= m < e.len() && e[m] == f[j];
            assert(e[m].0 == f[j].0);
        }
    }
}

} // verus!
