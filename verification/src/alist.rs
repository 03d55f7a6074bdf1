//! Specification-level association lists keyed by character sequences.
//!
//! Both the owner-chain cache and the pod watcher's lifecycle index are
//! modelled as sequences of key/value pairs with pairwise-distinct keys;
//! the spec functions and lemmas here describe lookup, removal and
//! truncation over that model.

use vstd::prelude::*;

verus! {

/// The value bound to `key`, taking the first matching entry.
pub open spec fn alist_lookup<V>(m: Seq<(Seq<char>, V)>, key: Seq<char>) -> Option<V>
    decreases m.len(),
{
    if m.len() == 0 {
        None
    } else if m.first().0 == key {
        Some(m.first().1)
    } else {
        alist_lookup(m.drop_first(), key)
    }
}

/// Keys are pairwise distinct.
pub open spec fn alist_wf<V>(m: Seq<(Seq<char>, V)>) -> bool {
    forall|i: int, j: int| 0 <= i < j < m.len() ==> m[i].0 != m[j].0
}

/// `m` without any entry for `key`.
pub open spec fn alist_remove<V>(m: Seq<(Seq<char>, V)>, key: Seq<char>) -> Seq<(Seq<char>, V)> {
    m.filter(|e: (Seq<char>, V)| e.0 != key)
}

/// A lookup skips over a prefix that holds no entry for `key`.
pub proof fn lemma_lookup_skip<V>(m: Seq<(Seq<char>, V)>, key: Seq<char>, i: int)
    requires
        0 <= i <= m.len(),
        forall|j: int| 0 <= j < i ==> m[j].0 != key,
    ensures
        alist_lookup(m, key) == alist_lookup(m.skip(i), key),
    decreases i,
{
    if i > 0 {
        assert(m.drop_first().skip(i - 1) =~= m.skip(i));
        lemma_lookup_skip(m.drop_first(), key, i - 1);
    } else {
        assert(m.skip(0) =~= m);
    }
}

/// If the first entry for `key` stands at `i`, the lookup returns its value.
pub proof fn lemma_lookup_first_match<V>(m: Seq<(Seq<char>, V)>, key: Seq<char>, i: int)
    requires
        0 <= i < m.len(),
        m[i].0 == key,
        forall|j: int| 0 <= j < i ==> m[j].0 != key,
    ensures
        alist_lookup(m, key) == Some(m[i].1),
{
    lemma_lookup_skip(m, key, i);
    assert(m.skip(i).first() == m[i]);
}

/// If no entry holds `key`, the lookup misses.
pub proof fn lemma_lookup_none<V>(m: Seq<(Seq<char>, V)>, key: Seq<char>)
    requires
        forall|j: int| 0 <= j < m.len() ==> m[j].0 != key,
    ensures
        alist_lookup(m, key) is None,
    decreases m.len(),
{
    if m.len() > 0 {
        lemma_lookup_none(m.drop_first(), key);
    }
}

/// Removing one entry whose key is not `k` leaves the lookup of `k` alone.
pub proof fn lemma_lookup_remove_at<V>(m: Seq<(Seq<char>, V)>, i: int, k: Seq<char>)
    requires
        0 <= i < m.len(),
        m[i].0 != k,
    ensures
        alist_lookup(m.remove(i), k) == alist_lookup(m, k),
    decreases m.len(),
{
    if i == 0 {
        assert(m.remove(0) =~= m.drop_first());
    } else {
        assert(m.remove(i).first() == m.first());
        assert(m.remove(i).drop_first() =~= m.drop_first().remove(i - 1));
        if m.first().0 != k {
            lemma_lookup_remove_at(m.drop_first(), i - 1, k);
        }
    }
}

/// Appending an entry changes a lookup only where it missed before.
pub proof fn lemma_lookup_push<V>(m: Seq<(Seq<char>, V)>, e: (Seq<char>, V), k: Seq<char>)
    ensures
        alist_lookup(m.push(e), k) == if alist_lookup(m, k) is Some {
            alist_lookup(m, k)
        } else if e.0 == k {
            Some(e.1)
        } else {
            None
        },
    decreases m.len(),
{
    if m.len() == 0 {
        assert(m.push(e).drop_first() =~= m);
    } else {
        assert(m.push(e).first() == m.first());
        assert(m.push(e).drop_first() =~= m.drop_first().push(e));
        lemma_lookup_push(m.drop_first(), e, k);
    }
}

/// Truncation can only turn a hit into a miss, never change its value.
pub proof fn lemma_lookup_take<V>(m: Seq<(Seq<char>, V)>, n: int, k: Seq<char>)
    requires
        0 <= n <= m.len(),
    ensures
        alist_lookup(m.take(n), k) == alist_lookup(m, k) || alist_lookup(m.take(n), k) is None,
    decreases n,
{
    if n > 0 && m.len() > 0 {
        if m.first().0 != k {
            assert(m.take(n).first() == m.first());
            assert(m.take(n).drop_first() =~= m.drop_first().take(n - 1));
            lemma_lookup_take(m.drop_first(), n - 1, k);
        }
    } else {
        assert(m.take(0) =~= Seq::<(Seq<char>, V)>::empty());
    }
}

/// Filtering a list that holds no entry for `key` changes nothing.
pub proof fn lemma_remove_key_absent<V>(m: Seq<(Seq<char>, V)>, key: Seq<char>)
    requires
        forall|j: int| 0 <= j < m.len() ==> m[j].0 != key,
    ensures
        alist_remove(m, key) =~= m,
    decreases m.len(),
{
    reveal(Seq::filter);
    if m.len() > 0 {
        assert(forall|j: int| 0 <= j < m.len() - 1 ==> m.drop_last()[j] == m[j]);
        lemma_remove_key_absent(m.drop_last(), key);
        assert(m.last() == m[m.len() - 1]);
        assert(alist_remove(m, key) =~= alist_remove(m.drop_last(), key).push(m.last()));
    }
}

/// Under distinct keys, filtering the entry at `i` out by its key is the
/// same as removing it by position.
pub proof fn lemma_remove_key_at<V>(m: Seq<(Seq<char>, V)>, i: int)
    requires
        alist_wf(m),
        0 <= i < m.len(),
    ensures
        alist_remove(m, m[i].0) =~= m.remove(i),
{
    broadcast use Seq::filter_distributes_over_add;

    reveal_with_fuel(Seq::filter, 2);
    let key = m[i].0;
    let a = m.subrange(0, i);
    let b = seq![m[i]];
    let c = m.subrange(i + 1, m.len() as int);
    assert(m =~= a + b + c);
    assert(alist_remove(a + b + c, key) == alist_remove(a + b, key) + alist_remove(c, key));
    assert(alist_remove(a + b, key) == alist_remove(a, key) + alist_remove(b, key));
    lemma_remove_key_absent(a, key);
    lemma_remove_key_absent(c, key);
    assert(b.drop_last() =~= Seq::<(Seq<char>, V)>::empty());
    assert(alist_remove(b, key) =~= Seq::<(Seq<char>, V)>::empty());
    assert(alist_remove(m, key) =~= a + c);
    assert(m.remove(i) =~= a + c);
}

/// Removing the entry at `i` shifts the later entries down and keeps keys
/// pairwise distinct.
pub proof fn lemma_wf_remove_at<V>(m: Seq<(Seq<char>, V)>, i: int)
    requires
        alist_wf(m),
        0 <= i < m.len(),
    ensures
        alist_wf(m.remove(i)),
        forall|j: int|
            0 <= j < m.len() - 1 ==> #[trigger] m.remove(i)[j] == if j < i {
                m[j]
            } else {
                m[j + 1]
            },
{
    assert(m.remove(i) =~= m.subrange(0, i) + m.subrange(i + 1, m.len() as int));
}

/// Prepending an entry whose key is fresh keeps keys pairwise distinct.
pub proof fn lemma_wf_insert_front<V>(m: Seq<(Seq<char>, V)>, e: (Seq<char>, V))
    requires
        alist_wf(m),
        forall|j: int| 0 <= j < m.len() ==> m[j].0 != e.0,
    ensures
        alist_wf(m.insert(0, e)),
        m.insert(0, e).first() == e,
        m.insert(0, e).drop_first() =~= m,
{
    let m2 = m.insert(0, e);
    assert(m2.drop_first() =~= m);
    assert forall|a: int, b: int| 0 <= a < b < m2.len() implies m2[a].0 != m2[b].0 by {
        if a > 0 {
            assert(m2[a] == m[a - 1]);
        }
        assert(m2[b] == m[b - 1]);
    }
}

/// Removal keeps keys pairwise distinct, takes every entry for `key` out,
/// and invents no entry.
pub proof fn lemma_wf_remove_key<V>(m: Seq<(Seq<char>, V)>, key: Seq<char>)
    requires
        alist_wf(m),
    ensures
        alist_wf(alist_remove(m, key)),
        forall|j: int|
            0 <= j < alist_remove(m, key).len() ==> #[trigger] alist_remove(m, key)[j].0 != key,
        forall|j: int|
            0 <= j < alist_remove(m, key).len() ==> m.contains(#[trigger] alist_remove(m, key)[j]),
    decreases m.len(),
{
    reveal(Seq::filter);
    let r = alist_remove(m, key);
    if m.len() > 0 {
        assert(alist_wf(m.drop_last())) by {
            assert(forall|j: int| 0 <= j < m.len() - 1 ==> m.drop_last()[j] == m[j]);
        }
        lemma_wf_remove_key(m.drop_last(), key);
        let r0 = alist_remove(m.drop_last(), key);
        assert forall|j: int| 0 <= j < r0.len() implies m.contains(#[trigger] r0[j]) by {
            assert(m.drop_last().contains(r0[j]));
            let w = choose|w: int| 0 <= w < m.drop_last().len() && m.drop_last()[w] == r0[j];
            assert(m[w] == r0[j]);
        }
        if m.last().0 != key {
            assert(r =~= r0.push(m.last()));
            assert forall|i: int, j: int| 0 <= i < j < r.len() implies r[i].0 != r[j].0 by {
                if j == r.len() - 1 {
                    let w = choose|w: int|
                        0 <= w < m.drop_last().len() && m.drop_last()[w] == r0[i];
                    assert(m[w] == r[i]);
                    assert(m[w].0 != m[m.len() - 1].0);
                }
            }
            assert(m.contains(m.last())) by {
                assert(m[m.len() - 1] == m.last());
            }
        } else {
            assert(r =~= r0);
        }
    } else {
        assert(r =~= m);
    }
}

} // verus!
