//! Association vectors: the kernel keeps every keyed collection as a vector
//! of `(key, value)` pairs with pairwise-distinct keys, modelled in
//! specifications as a sequence.

use vstd::prelude::*;
use crate::types::Principal;

verus! {

/// Some pair of `s` carries the key `k`.
pub open spec fn assoc_has_key<K, V>(s: Seq<(K, V)>, k: K) -> bool {
    exists|i: int| 0 <= i < s.len() && s[i].0 == k
}

/// The index of the pair carrying `k` (unique when keys are distinct).
pub open spec fn assoc_idx<K, V>(s: Seq<(K, V)>, k: K) -> int {
    choose|i: int| 0 <= i < s.len() && s[i].0 == k
}

/// All keys of `s` are pairwise distinct.
pub open spec fn assoc_unique<K, V>(s: Seq<(K, V)>) -> bool {
    forall|i: int, j: int| 0 <= i < j < s.len() ==> s[i].0 != s[j].0
}

/// The value stored under `k`, if any.
pub open spec fn assoc_get<K, V>(s: Seq<(K, V)>, k: K) -> Option<V> {
    if assoc_has_key(s, k) {
        Some(s[assoc_idx(s, k)].1)
    } else {
        None
    }
}

/// With distinct keys, any position holding `k` is the position of `k`.
pub proof fn lemma_assoc_idx_at<K, V>(s: Seq<(K, V)>, k: K, i: int)
    requires
        assoc_unique(s),
        0 <= i < s.len(),
        s[i].0 == k,
    ensures
        assoc_has_key(s, k),
        assoc_idx(s, k) == i,
{
    assert(assoc_has_key(s, k));
    let j = assoc_idx(s, k);
    assert(0 <= j < s.len() && s[j].0 == k);
    if i < j {
        assert(s[i].0 != s[j].0);
    } else if j < i {
        assert(s[j].0 != s[i].0);
    }
}

/// Finds the position of `k` among pairs keyed by principals.
pub fn assoc_find<V>(v: &Vec<(Principal, V)>, k: Principal) -> (r: Option<usize>)
    ensures
        match r {
            Some(i) => i < v@.len() && v@[i as int].0 == k,
            None => !assoc_has_key(v@, k),
        },
{
    let mut i: usize = 0;
    while i < v.len()
        invariant
            i <= v@.len(),
            forall|j: int| 0 <= j < i ==> v@[j].0 != k,
        decreases v@.len() - i,
    {
        if v[i].0.id == k.id {
            return Some(i);
        }
        i = i + 1;
    }
    None
}

/// Finds the position of `k` among pairs keyed by numeric ids.
pub fn assoc_find_u64<V>(v: &Vec<(u64, V)>, k: u64) -> (r: Option<usize>)
    ensures
        match r {
            Some(i) => i < v@.len() && v@[i as int].0 == k,
            None => !assoc_has_key(v@, k),
        },
{
    let mut i: usize = 0;
    while i < v.len()
        invariant
            i <= v@.len(),
            forall|j: int| 0 <= j < i ==> v@[j].0 != k,
        decreases v@.len() - i,
    {
        if v[i].0 == k {
            return Some(i);
        }
        i = i + 1;
    }
    None
}

/// After replacing or appending the entry of one key at position `i`,
/// every other key keeps its binding.
pub proof fn lemma_assoc_untouched<K, V>(pre: Seq<(K, V)>, post: Seq<(K, V)>, k: K, i: int)
    requires
        assoc_unique(pre),
        assoc_unique(post),
        0 <= i < post.len(),
        post.len() == pre.len() || post.len() == pre.len() + 1,
        post.len() == pre.len() + 1 ==> i == pre.len(),
        post[i].0 == k,
        i < pre.len() ==> pre[i].0 == k,
        forall|j: int| 0 <= j < pre.len() && j != i ==> post[j] == pre[j],
    ensures
        forall|k2: K| k2 != k ==> assoc_has_key(post, k2) == assoc_has_key(pre, k2),
        forall|k2: K| k2 != k ==> assoc_get(post, k2) == assoc_get(pre, k2),
{
    assert forall|k2: K| k2 != k implies assoc_has_key(post, k2) == assoc_has_key(pre, k2)
        && assoc_get(post, k2) == assoc_get(pre, k2) by {
        if assoc_has_key(pre, k2) {
            let j = choose|j: int| 0 <= j < pre.len() && pre[j].0 == k2;
            assert(j != i);
            assert(post[j] == pre[j]);
            lemma_assoc_idx_at(post, k2, j);
            lemma_assoc_idx_at(pre, k2, j);
        } else {
            if assoc_has_key(post, k2) {
                let j = choose|j: int| 0 <= j < post.len() && post[j].0 == k2;
                if j == i {
                    assert(post[i].0 == k);
                } else if j < pre.len() {
                    assert(pre[j].0 == k2);
                } else {
                    assert(j == pre.len() && i == pre.len());
                }
            }
        }
    }
}

/// The sum of the values of an association sequence of balances.
pub open spec fn assoc_sum<K>(s: Seq<(K, u64)>) -> int
    decreases s.len(),
{
    if s.len() == 0 {
        0
    } else {
        assoc_sum(s.drop_last()) + s.last().1
    }
}

pub proof fn lemma_sum_nonneg<K>(s: Seq<(K, u64)>)
    ensures
        assoc_sum(s) >= 0,
    decreases s.len(),
{
    if s.len() > 0 {
        lemma_sum_nonneg(s.drop_last());
    }
}

pub proof fn lemma_sum_push<K>(s: Seq<(K, u64)>, e: (K, u64))
    ensures
        assoc_sum(s.push(e)) == assoc_sum(s) + e.1,
{
    assert(s.push(e).drop_last() =~= s);
}

pub proof fn lemma_sum_update<K>(s: Seq<(K, u64)>, i: int, e: (K, u64))
    requires
        0 <= i < s.len(),
    ensures
        assoc_sum(s.update(i, e)) == assoc_sum(s) - s[i].1 + e.1,
    decreases s.len(),
{
    if i == s.len() - 1 {
        assert(s.update(i, e).drop_last() =~= s.drop_last());
    } else {
        assert(s.update(i, e).drop_last() =~= s.drop_last().update(i, e));
        lemma_sum_update(s.drop_last(), i, e);
    }
}

pub proof fn lemma_sum_remove<K>(s: Seq<(K, u64)>, i: int)
    requires
        0 <= i < s.len(),
    ensures
        assoc_sum(s.remove(i)) == assoc_sum(s) - s[i].1,
    decreases s.len(),
{
    if i == s.len() - 1 {
        assert(s.remove(i) =~= s.drop_last());
    } else {
        assert(s.remove(i).drop_last() =~= s.drop_last().remove(i));
        assert(s.remove(i).last() == s.last());
        lemma_sum_remove(s.drop_last(), i);
    }
}

/// Appending a fresh key keeps the keys distinct and the old entries intact.
pub proof fn lemma_assoc_push<K, V>(s: Seq<(K, V)>, e: (K, V))
    requires
        assoc_unique(s),
        !assoc_has_key(s, e.0),
    ensures
        assoc_unique(s.push(e)),
        assoc_has_key(s.push(e), e.0),
        assoc_get(s.push(e), e.0) == Some(e.1),
        forall|k: K| k != e.0 ==> assoc_has_key(s.push(e), k) == assoc_has_key(s, k),
        forall|k: K| k != e.0 ==> assoc_get(s.push(e), k) == assoc_get(s, k),
{
    let t = s.push(e);
    assert(t[s.len() as int] == e);
    assert(forall|i: int| 0 <= i < s.len() ==> t[i] == s[i]);
    lemma_assoc_idx_at(t, e.0, s.len() as int);
    assert forall|k: K| k != e.0 implies assoc_has_key(t, k) == assoc_has_key(s, k)
        && assoc_get(t, k) == assoc_get(s, k) by {
        if assoc_has_key(s, k) {
            let i = choose|i: int| 0 <= i < s.len() && s[i].0 == k;
            assert(t[i].0 == k);
            lemma_assoc_idx_at(t, k, i);
            lemma_assoc_idx_at(s, k, i);
        } else {
            if assoc_has_key(t, k) {
                let i = choose|i: int| 0 <= i < t.len() && t[i].0 == k;
                assert(i == s.len());
            }
        }
    }
}

/// Removing one entry keeps the keys distinct, drops exactly that key and
/// leaves every other binding intact.
pub proof fn lemma_assoc_remove<K, V>(s: Seq<(K, V)>, i: int)
    requires
        assoc_unique(s),
        0 <= i < s.len(),
    ensures
        assoc_unique(s.remove(i)),
        !assoc_has_key(s.remove(i), s[i].0),
        forall|k: K| k != s[i].0 ==> assoc_has_key(s.remove(i), k) == assoc_has_key(s, k),
        forall|k: K| k != s[i].0 ==> assoc_get(s.remove(i), k) == assoc_get(s, k),
{
    let t = s.remove(i);
    assert(forall|j: int| 0 <= j < i ==> t[j] == s[j]);
    assert(forall|j: int| i <= j < t.len() ==> t[j] == s[j + 1]);
    assert forall|j: int| 0 <= j < t.len() implies t[j].0 != s[i].0 by {
        if j < i {
            assert(s[j].0 != s[i].0);
        } else {
            assert(s[j + 1].0 != s[i].0);
        }
    }
    assert forall|k: K| k != s[i].0 implies assoc_has_key(t, k) == assoc_has_key(s, k)
        && assoc_get(t, k) == assoc_get(s, k) by {
        if assoc_has_key(s, k) {
            let j = choose|j: int| 0 <= j < s.len() && s[j].0 == k;
            lemma_assoc_idx_at(s, k, j);
            if j < i {
                assert(t[j].0 == k);
                lemma_assoc_idx_at(t, k, j);
            } else {
                assert(j != i);
                assert(t[j - 1] == s[j]);
                lemma_assoc_idx_at(t, k, j - 1);
            }
        } else {
            if assoc_has_key(t, k) {
                let j = choose|j: int| 0 <= j < t.len() && t[j].0 == k;
                if j < i {
                    assert(s[j].0 == k);
                } else {
                    assert(s[j + 1].0 == k);
                }
            }
        }
    }
}

/// Every single balance is bounded by the sum.
pub proof fn lemma_sum_elem<K>(s: Seq<(K, u64)>, i: int)
    requires
        0 <= i < s.len(),
    ensures
        s[i].1 <= assoc_sum(s),
    decreases s.len(),
{
    if i == s.len() - 1 {
        lemma_sum_nonneg(s.drop_last());
    } else {
        lemma_sum_elem(s.drop_last(), i);
    }
}

/// Two distinct balances are jointly bounded by the sum.
pub proof fn lemma_sum_two_elems<K>(s: Seq<(K, u64)>, i: int, j: int)
    requires
        0 <= i < s.len(),
        0 <= j < s.len(),
        i != j,
    ensures
        s[i].1 + s[j].1 <= assoc_sum(s),
{
    let lo = if i < j { i } else { j };
    let hi = if i < j { j } else { i };
    lemma_sum_remove(s, hi);
    lemma_sum_elem(s.remove(hi), lo);
    assert(s.remove(hi)[lo] == s[lo]);
}

} // verus!
