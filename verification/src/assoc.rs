//! Association sequences: the mathematical model behind the chat and queue
//! maps. A map is a sequence of key/value pairs with pairwise-distinct keys;
//! lookups return the value at the unique matching index, updates replace it
//! in place, insertions append, and removals filter the key out.

use vstd::prelude::*;

verus! {

pub open spec fn keys_unique<K, V>(s: Seq<(K, V)>) -> bool {
    forall|i: int, j: int| 0 <= i < j < s.len() ==> s[i].0 != s[j].0
}

pub open spec fn assoc_has<K, V>(s: Seq<(K, V)>, k: K) -> bool {
    exists|i: int| 0 <= i < s.len() && s[i].0 == k
}

/// The index of `k` in `s`; meaningful only when `assoc_has(s, k)`.
pub open spec fn assoc_idx<K, V>(s: Seq<(K, V)>, k: K) -> int {
    choose|i: int| 0 <= i < s.len() && s[i].0 == k
}

pub open spec fn assoc_get<K, V>(s: Seq<(K, V)>, k: K) -> Option<V> {
    if assoc_has(s, k) {
        Some(s[assoc_idx(s, k)].1)
    } else {
        None
    }
}

/// Bind `k` to `v`: replace the existing entry in place, or append a new one.
pub open spec fn assoc_set<K, V>(s: Seq<(K, V)>, k: K, v: V) -> Seq<(K, V)> {
    if assoc_has(s, k) {
        s.update(assoc_idx(s, k), (k, v))
    } else {
        s.push((k, v))
    }
}

/// Drop every entry whose key is `k` (the only one, when keys are unique).
pub open spec fn assoc_remove<K, V>(s: Seq<(K, V)>, k: K) -> Seq<(K, V)> {
    s.filter(|p: (K, V)| p.0 != k)
}

/// With unique keys, any index holding `k` is the index of `k`.
pub proof fn lemma_assoc_idx_is<K, V>(s: Seq<(K, V)>, k: K, i: int)
    requires
        keys_unique(s),
        0 <= i < s.len(),
        s[i].0 == k,
    ensures
        assoc_has(s, k),
        assoc_idx(s, k) == i,
        assoc_get(s, k) == Some(s[i].1),
{
    assert(assoc_has(s, k));
    let j = assoc_idx(s, k);
    assert(0 <= j < s.len() && s[j].0 == k);
    if i < j {
        assert(s[i].0 != s[j].0);
    } else if j < i {
        assert(s[j].0 != s[i].0);
    }
}

pub proof fn lemma_assoc_set_get<K, V>(s: Seq<(K, V)>, k: K, v: V)
    requires
        keys_unique(s),
    ensures
        keys_unique(assoc_set(s, k, v)),
        assoc_get(assoc_set(s, k, v), k) == Some(v),
        forall|k2: K| k2 != k ==> assoc_get(#[trigger] assoc_set(s, k, v), k2) == assoc_get(s, k2),
{
    let t = assoc_set(s, k, v);
    if assoc_has(s, k) {
        let i = assoc_idx(s, k);
        assert(0 <= i < s.len() && s[i].0 == k);
        assert(keys_unique(t));
        lemma_assoc_idx_is(t, k, i);
        assert forall|k2: K| k2 != k implies assoc_get(#[trigger] assoc_set(s, k, v), k2)
            == assoc_get(s, k2) by {
            if assoc_has(s, k2) {
                let j = assoc_idx(s, k2);
                assert(s[j].0 == k2);
                assert(j != i);
                lemma_assoc_idx_is(t, k2, j);
                lemma_assoc_idx_is(s, k2, j);
            } else {
                assert(!assoc_has(t, k2)) by {
                    if assoc_has(t, k2) {
                        let j = assoc_idx(t, k2);
                        assert(0 <= j < s.len() && t[j].0 == k2);
                        assert(j != i);
                        assert(s[j].0 == k2);
                    }
                }
            }
        }
    } else {
        assert(forall|i: int| 0 <= i < s.len() ==> (#[trigger] s[i]).0 != k);
        assert(keys_unique(t));
        lemma_assoc_idx_is(t, k, s.len() as int);
        assert forall|k2: K| k2 != k implies assoc_get(#[trigger] assoc_set(s, k, v), k2)
            == assoc_get(s, k2) by {
            if assoc_has(s, k2) {
                let j = assoc_idx(s, k2);
                lemma_assoc_idx_is(t, k2, j);
                lemma_assoc_idx_is(s, k2, j);
            } else {
                assert(!assoc_has(t, k2)) by {
                    if assoc_has(t, k2) {
                        let j = assoc_idx(t, k2);
                        assert(0 <= j < t.len() && t[j].0 == k2);
                        assert(j < s.len());
                        assert(s[j].0 == k2);
                    }
                }
            }
        }
    }
}

/// Filtering a sequence whose only failing element sits at `i` removes
/// exactly that element.
pub proof fn lemma_filter_remove_one<A>(s: Seq<A>, pred: spec_fn(A) -> bool, i: int)
    requires
        0 <= i < s.len(),
        !pred(s[i]),
        forall|j: int| 0 <= j < s.len() && j != i ==> pred(#[trigger] s[j]),
    ensures
        s.filter(pred) == s.remove(i),
{
    let pre = s.subrange(0, i);
    let mid = s.subrange(i, i + 1);
    let post = s.subrange(i + 1, s.len() as int);
    assert(s =~= (pre + mid) + post);
    Seq::filter_distributes_over_add(pre + mid, post, pred);
    Seq::filter_distributes_over_add(pre, mid, pred);
    assert(forall|j: int| 0 <= j < pre.len() ==> pred(#[trigger] pre[j]));
    assert(forall|j: int| 0 <= j < post.len() ==> pred(#[trigger] post[j]));
    lemma_filter_all(pre, pred);
    lemma_filter_all(post, pred);
    reveal_with_fuel(Seq::filter, 3);
    assert(mid.filter(pred) =~= Seq::<A>::empty()) by {
        assert(mid.drop_last().len() == 0);
        assert(mid.drop_last() =~= Seq::<A>::empty());
        assert(mid.last() == s[i]);
    }
    assert(s.filter(pred) == ((pre + mid) + post).filter(pred));
    assert(s.filter(pred) =~= pre + post);
    assert(s.remove(i) =~= pre + post);
}

/// With unique keys, removing key `k` found at index `i` is removing the
/// entry at `i`.
pub proof fn lemma_assoc_remove_at<K, V>(s: Seq<(K, V)>, k: K, i: int)
    requires
        keys_unique(s),
        0 <= i < s.len(),
        s[i].0 == k,
    ensures
        assoc_remove(s, k) == s.remove(i),
{
    let pred = |p: (K, V)| p.0 != k;
    assert forall|j: int| 0 <= j < s.len() && j != i implies pred(#[trigger] s[j]) by {
        if j < i {
            assert(s[j].0 != s[i].0);
        } else {
            assert(s[i].0 != s[j].0);
        }
    }
    lemma_filter_remove_one(s, pred, i);
}

/// An entry that survives a removal was an entry before it.
pub proof fn lemma_assoc_remove_contains<K, V>(s: Seq<(K, V)>, k: K, e: (K, V))
    requires
        assoc_remove(s, k).contains(e),
    ensures
        s.contains(e),
{
    s.lemma_filter_contains_rev(|p: (K, V)| p.0 != k, e);
}

/// Filtering a sequence in which every element satisfies the predicate
/// leaves it unchanged.
pub proof fn lemma_filter_all<A>(s: Seq<A>, pred: spec_fn(A) -> bool)
    requires
        forall|i: int| 0 <= i < s.len() ==> pred(#[trigger] s[i]),
    ensures
        s.filter(pred) == s,
    decreases s.len(),
{
    reveal(Seq::filter);
    if s.len() == 0 {
        assert(s.filter(pred) =~= s);
    } else {
        lemma_filter_all(s.drop_last(), pred);
        assert(s.filter(pred) =~= s);
    }
}

pub proof fn lemma_assoc_remove<K, V>(s: Seq<(K, V)>, k: K)
    requires
        keys_unique(s),
    ensures
        keys_unique(assoc_remove(s, k)),
        !assoc_has(assoc_remove(s, k), k),
        !assoc_has(s, k) ==> assoc_remove(s, k) == s,
    decreases s.len(),
{
    broadcast use vstd::seq_lib::group_filter_ensures;

    let pred = |p: (K, V)| p.0 != k;
    let t = assoc_remove(s, k);
    lemma_filter_keys_unique(s, pred);
    assert(!assoc_has(t, k)) by {
        if assoc_has(t, k) {
            let i = assoc_idx(t, k);
            assert(pred(t[i]));
        }
    }
    if !assoc_has(s, k) {
        assert(forall|i: int| 0 <= i < s.len() ==> pred(#[trigger] s[i]));
        lemma_filter_all(s, pred);
    }
}

/// Filtering cannot introduce a duplicate key.
pub proof fn lemma_filter_keys_unique<K, V>(s: Seq<(K, V)>, pred: spec_fn((K, V)) -> bool)
    requires
        keys_unique(s),
    ensures
        keys_unique(s.filter(pred)),
    decreases s.len(),
{
    reveal(Seq::filter);
    if s.len() > 0 {
        let rest = s.drop_last();
        assert(keys_unique(rest));
        lemma_filter_keys_unique(rest, pred);
        let fr = rest.filter(pred);
        if pred(s.last()) {
            let f = s.filter(pred);
            assert(f == fr.push(s.last()));
            assert forall|i: int, j: int| 0 <= i < j < f.len() implies f[i].0 != f[j].0 by {
                if j == f.len() - 1 {
                    assert(fr.contains(f[i])) by {
                        assert(fr[i] == f[i]);
                    }
                    rest.lemma_filter_contains_rev(pred, f[i]);
                    let n = choose|n: int| 0 <= n < rest.len() && rest[n] == f[i];
                    assert(s[n].0 != s[s.len() - 1].0);
                } else {
                    assert(fr[i].0 != fr[j].0);
                }
            }
        }
    }
}

} // verus!
