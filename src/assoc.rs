//! Association lists: sequences of key/value pairs whose keys are distinct.
//! Every keyed collection of the library is one of these, so that iteration
//! order is insertion order.
use vstd::prelude::*;

verus! {

/// Some pair of `s` has key `k`.
pub open spec fn has_key<K, V>(s: Seq<(K, V)>, k: K) -> bool {
    exists|i: int| 0 <= i < s.len() && s[i].0 == k
}

/// No two pairs of `s` share a key.
pub open spec fn keys_unique<K, V>(s: Seq<(K, V)>) -> bool {
    forall|i: int, j: int| 0 <= i < s.len() && 0 <= j < s.len() && s[i].0 == s[j].0 ==> i == j
}

/// The position of key `k` in `s` (meaningful when `has_key(s, k)`).
pub open spec fn index_of<K, V>(s: Seq<(K, V)>, k: K) -> int {
    choose|i: int| 0 <= i < s.len() && s[i].0 == k
}

/// The value stored under `k`, if any.
pub open spec fn assoc_lookup<K, V>(s: Seq<(K, V)>, k: K) -> Option<V> {
    if has_key(s, k) {
        Some(s[index_of(s, k)].1)
    } else {
        None
    }
}

/// `s` with the value under `k` set to `v`: replaced in place when `k` is
/// present, appended otherwise.
pub open spec fn assoc_put<K, V>(s: Seq<(K, V)>, k: K, v: V) -> Seq<(K, V)> {
    if has_key(s, k) {
        s.update(index_of(s, k), (k, v))
    } else {
        s.push((k, v))
    }
}

/// `s` without the pair keyed `k`; the other pairs keep their order.
pub open spec fn assoc_remove<K, V>(s: Seq<(K, V)>, k: K) -> Seq<(K, V)> {
    if has_key(s, k) {
        s.remove(index_of(s, k))
    } else {
        s
    }
}

pub proof fn lemma_lookup_at<K, V>(s: Seq<(K, V)>, i: int)
    requires
        keys_unique(s),
        0 <= i < s.len(),
    ensures
        has_key(s, s[i].0),
        index_of(s, s[i].0) == i,
        assoc_lookup(s, s[i].0) == Some(s[i].1),
{
    let k = s[i].0;
    assert(0 <= i < s.len() && s[i].0 == k);
    let j = index_of(s, k);
    assert(0 <= j < s.len() && s[j].0 == k);
}

/// Two sequences with the same keys at every position are alike in key
/// uniqueness, in which keys they hold and in where they hold them.
pub proof fn lemma_same_keys<K, V, W>(a: Seq<(K, V)>, b: Seq<(K, W)>)
    requires
        a.len() == b.len(),
        forall|i: int| 0 <= i < a.len() ==> a[i].0 == b[i].0,
    ensures
        keys_unique(a) ==> keys_unique(b),
        forall|k: K| has_key(a, k) <==> has_key(b, k),
        keys_unique(a) ==> forall|k: K| has_key(a, k) ==> index_of(a, k) == index_of(b, k),
{
    assert forall|k: K| has_key(a, k) <==> has_key(b, k) by {
        if has_key(a, k) {
            let i = choose|i: int| 0 <= i < a.len() && a[i].0 == k;
            assert(b[i].0 == k);
        }
        if has_key(b, k) {
            let i = choose|i: int| 0 <= i < b.len() && b[i].0 == k;
            assert(a[i].0 == k);
        }
    }
    if keys_unique(a) {
        assert forall|k: K| has_key(a, k) implies index_of(a, k) == index_of(b, k) by {
            let i = index_of(a, k);
            let j = index_of(b, k);
            assert(a[j].0 == k);
        }
    }
}

pub proof fn lemma_put<K, V>(s: Seq<(K, V)>, k: K, v: V)
    requires
        keys_unique(s),
    ensures
        keys_unique(assoc_put(s, k, v)),
        forall|x: K| assoc_lookup(assoc_put(s, k, v), x) == if x == k {
            Some(v)
        } else {
            assoc_lookup(s, x)
        },
{
    let t = assoc_put(s, k, v);
    if has_key(s, k) {
        let i = index_of(s, k);
        lemma_same_keys(s, t);
    } else {
        assert(keys_unique(t)) by {
            assert forall|i: int, j: int|
                0 <= i < t.len() && 0 <= j < t.len() && t[i].0 == t[j].0 implies i == j by {
                if i < s.len() && j == s.len() {
                    assert(s[i].0 == k);
                }
                if j < s.len() && i == s.len() {
                    assert(s[j].0 == k);
                }
            }
        }
    }
    assert forall|x: K| assoc_lookup(t, x) == if x == k {
        Some(v)
    } else {
        assoc_lookup(s, x)
    } by {
        if has_key(s, k) {
            let i = index_of(s, k);
            lemma_lookup_at(t, i);
            if x != k && has_key(s, x) {
                let j = index_of(s, x);
                lemma_lookup_at(s, j);
                lemma_lookup_at(t, j);
            }
            if x != k && has_key(t, x) {
                let j = index_of(t, x);
                assert(s[j].0 == x);
            }
        } else {
            lemma_lookup_at(t, s.len() as int);
            if x != k && has_key(s, x) {
                let j = index_of(s, x);
                lemma_lookup_at(s, j);
                lemma_lookup_at(t, j);
            }
            if x != k && has_key(t, x) {
                let j = index_of(t, x);
                assert(j < s.len());
                assert(s[j].0 == x);
            }
        }
    }
}

pub proof fn lemma_remove<K, V>(s: Seq<(K, V)>, k: K)
    requires
        keys_unique(s),
    ensures
        keys_unique(assoc_remove(s, k)),
        forall|x: K| assoc_lookup(assoc_remove(s, k), x) == if x == k {
            None
        } else {
            assoc_lookup(s, x)
        },
{
    let t = assoc_remove(s, k);
    if has_key(s, k) {
        let r = index_of(s, k);
        assert(0 <= r < s.len() && s[r].0 == k);
        assert forall|i: int| 0 <= i < t.len() implies t[i] == (if i < r {
            s[i]
        } else {
            s[i + 1]
        }) by {}
        assert(keys_unique(t)) by {
            assert forall|i: int, j: int|
                0 <= i < t.len() && 0 <= j < t.len() && t[i].0 == t[j].0 implies i == j by {
                let si = if i < r { i } else { i + 1 };
                let sj = if j < r { j } else { j + 1 };
                assert(s[si].0 == s[sj].0);
            }
        }
        assert forall|x: K| assoc_lookup(t, x) == if x == k {
            None
        } else {
            assoc_lookup(s, x)
        } by {
            if has_key(t, x) {
                let j = index_of(t, x);
                let sj = if j < r { j } else { j + 1 };
                assert(s[sj].0 == x);
                lemma_lookup_at(s, sj);
                lemma_lookup_at(t, j);
                if x == k {
                    assert(sj == r);
                }
            }
            if x != k && has_key(s, x) {
                let sj = index_of(s, x);
                lemma_lookup_at(s, sj);
                assert(sj != r);
                let j = if sj < r { sj } else { sj - 1 };
                assert(t[j].0 == x);
                lemma_lookup_at(t, j);
            }
        }
    }
}

} // verus!
