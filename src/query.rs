//! Queries: the entities that hold components of every requested kind, with
//! those components in request order.
use vstd::prelude::*;
use crate::assoc::{has_key, index_of};
use crate::components::{Component, Kind};
use crate::entity::Entity;
use crate::store::{Buckets, ComponentStore, bucket_or_empty, store_get};

verus! {

/// `e` has a component of each kind of `kinds`.
pub open spec fn has_all(m: Buckets, kinds: Seq<Kind>, e: Entity) -> bool {
    forall|j: int| 0 <= j < kinds.len() ==> (#[trigger] store_get(m, kinds[j], e)) is Some
}

/// The components of `e` of each kind of `kinds`, in that order.
pub open spec fn row_of(m: Buckets, kinds: Seq<Kind>, e: Entity) -> Seq<Component> {
    kinds.map_values(|k: Kind| store_get(m, k, e)->Some_0)
}

/// The rows found among the first `n` entries of `base`.
pub open spec fn query_rows(base: Seq<(Entity, Component)>, m: Buckets, kinds: Seq<Kind>, n: nat) -> Seq<
    (Entity, Seq<Component>),
>
    decreases n,
{
    if n == 0 || n > base.len() {
        Seq::empty()
    } else {
        let prev = query_rows(base, m, kinds, (n - 1) as nat);
        let e = base[n - 1].0;
        if has_all(m, kinds, e) {
            prev.push((e, row_of(m, kinds, e)))
        } else {
            prev
        }
    }
}

/// The answer to a query: one row per entity holding every requested kind,
/// in the insertion order of the first kind's bucket.
pub open spec fn query_spec(m: Buckets, kinds: Seq<Kind>) -> Seq<(Entity, Seq<Component>)> {
    if kinds.len() == 0 {
        Seq::empty()
    } else {
        let base = bucket_or_empty(m, kinds[0]);
        query_rows(base, m, kinds, base.len())
    }
}

/// Some row of `q` is that of `e`.
pub open spec fn in_rows(q: Seq<(Entity, Seq<Component>)>, e: Entity) -> bool {
    exists|i: int| 0 <= i < q.len() && q[i].0 == e
}

proof fn lemma_rows_members(base: Seq<(Entity, Component)>, m: Buckets, kinds: Seq<Kind>, n: nat, e: Entity)
    requires
        n <= base.len(),
    ensures
        in_rows(query_rows(base, m, kinds, n), e) <==> (has_all(m, kinds, e) && exists|i: int|
            0 <= i < n && base[i].0 == e),
    decreases n,
{
    if n > 0 {
        lemma_rows_members(base, m, kinds, (n - 1) as nat, e);
        let prev = query_rows(base, m, kinds, (n - 1) as nat);
        let q = query_rows(base, m, kinds, n);
        if in_rows(q, e) {
            let i = choose|i: int| 0 <= i < q.len() && q[i].0 == e;
            if i < prev.len() {
                assert(in_rows(prev, e));
            }
        }
        if has_all(m, kinds, e) && exists|i: int| 0 <= i < n && base[i].0 == e {
            let i = choose|i: int| 0 <= i < n && base[i].0 == e;
            if i < n - 1 {
                assert(in_rows(prev, e));
                let k = choose|k: int| 0 <= k < prev.len() && prev[k].0 == e;
                assert(q[k].0 == e);
            } else {
                assert(q[q.len() - 1].0 == e);
            }
        }
        if exists|i: int| 0 <= i < n - 1 && base[i].0 == e {
            let i = choose|i: int| 0 <= i < n - 1 && base[i].0 == e;
            assert(0 <= i < n && base[i].0 == e);
        }
    }
}

/// A query over a non-empty list of kinds returns an entity exactly when the
/// entity holds a component of each listed kind.
pub proof fn lemma_query_members(m: Buckets, kinds: Seq<Kind>, e: Entity)
    requires
        kinds.len() > 0,
    ensures
        in_rows(query_spec(m, kinds), e) <==> has_all(m, kinds, e),
{
    let base = bucket_or_empty(m, kinds[0]);
    lemma_rows_members(base, m, kinds, base.len(), e);
    if has_all(m, kinds, e) {
        assert(store_get(m, kinds[0], e) is Some);
        assert(has_key(base, e));
        let i = index_of(base, e);
        assert(0 <= i < base.len() && base[i].0 == e);
    }
}

/// Querying two kinds yields exactly the entities holding both, whichever of
/// the two is listed first.
pub proof fn lemma_query_pair(m: Buckets, k1: Kind, k2: Kind, e: Entity)
    ensures
        in_rows(query_spec(m, seq![k1, k2]), e) <==> (store_get(m, k1, e) is Some && store_get(m, k2, e) is Some),
        in_rows(query_spec(m, seq![k1, k2]), e) <==> in_rows(query_spec(m, seq![k2, k1]), e),
{
    let a = seq![k1, k2];
    let b = seq![k2, k1];
    lemma_query_members(m, a, e);
    lemma_query_members(m, b, e);
    assert(has_all(m, a, e) <==> (store_get(m, k1, e) is Some && store_get(m, k2, e) is Some)) by {
        if store_get(m, k1, e) is Some && store_get(m, k2, e) is Some {
            assert forall|j: int| 0 <= j < a.len() implies (#[trigger] store_get(m, a[j], e)) is Some by {}
        }
        if has_all(m, a, e) {
            assert(store_get(m, a[0], e) is Some);
            assert(store_get(m, a[1], e) is Some);
        }
    }
    assert(has_all(m, b, e) <==> (store_get(m, k1, e) is Some && store_get(m, k2, e) is Some)) by {
        if store_get(m, k1, e) is Some && store_get(m, k2, e) is Some {
            assert forall|j: int| 0 <= j < b.len() implies (#[trigger] store_get(m, b[j], e)) is Some by {}
        }
        if has_all(m, b, e) {
            assert(store_get(m, b[0], e) is Some);
            assert(store_get(m, b[1], e) is Some);
        }
    }
}

/// `r` lists `q`'s rows, each component by reference.
pub open spec fn rows_match(r: Seq<(Entity, Vec<&Component>)>, q: Seq<(Entity, Seq<Component>)>) -> bool {
    &&& r.len() == q.len()
    &&& forall|i: int|
        0 <= i < r.len() ==> {
            &&& (#[trigger] r[i]).0 == q[i].0
            &&& r[i].1@.len() == q[i].1.len()
            &&& forall|j: int| 0 <= j < q[i].1.len() ==> *r[i].1@[j] == q[i].1[j]
        }
}

impl ComponentStore {
    /// For every entity holding a component of each kind of `kinds`, the
    /// entity and those components in request order. Entities come in the
    /// insertion order of the first kind's bucket; an empty `kinds` gives
    /// nothing.
    pub fn query(&self, kinds: &[Kind]) -> (r: Vec<(Entity, Vec<&Component>)>)
        requires
            self.wf(),
        ensures
            rows_match(r@, query_spec(self@, kinds@)),
    {
        let mut results: Vec<(Entity, Vec<&Component>)> = Vec::new();
        if kinds.len() == 0 {
            return results;
        }
        let base = match self.bucket(kinds[0]) {
            Some(b) => b,
            None => {
                return results;
            },
        };
        let ghost m = self@;
        let ghost ks = kinds@;
        let mut i: usize = 0;
        while i < base.len()
            invariant
                self.wf(),
                m == self@,
                ks == kinds@,
                ks.len() > 0,
                base@ == bucket_or_empty(m, ks[0]),
                0 <= i <= base@.len(),
                rows_match(results@, query_rows(base@, m, ks, i as nat)),
            decreases base@.len() - i,
        {
            let e = base[i].0;
            let mut row: Vec<&Component> = Vec::new();
            let mut j: usize = 0;
            let mut complete = true;
            while j < kinds.len()
                invariant
                    self.wf(),
                    m == self@,
                    ks == kinds@,
                    0 <= j <= ks.len(),
                    complete ==> row@.len() == j,
                    complete ==> forall|t: int| 0 <= t < j ==> store_get(m, ks[t], e) == Some(*row@[t]),
                    !complete ==> !has_all(m, ks, e),
                decreases ks.len() - j,
            {
                match self.get(e, kinds[j]) {
                    Some(c) => {
                        if complete {
                            row.push(c);
                        }
                    },
                    None => {
                        complete = false;
                    },
                }
                j = j + 1;
            }
            let ghost prev = results@;
            if complete {
                proof {
                    assert forall|t: int| 0 <= t < ks.len() implies (#[trigger] store_get(m, ks[t], e)) is Some by {
                        assert(store_get(m, ks[t], e) == Some(*row@[t]));
                    }
                }
                results.push((e, row));
            }
            proof {
                let q = query_rows(base@, m, ks, (i + 1) as nat);
                assert(q == if has_all(m, ks, e) {
                    query_rows(base@, m, ks, i as nat).push((e, row_of(m, ks, e)))
                } else {
                    query_rows(base@, m, ks, i as nat)
                });
                if complete {
                    assert(results@[prev.len() as int] == (e, row));
                    assert forall|ii: int| 0 <= ii < results@.len() implies {
                        &&& (#[trigger] results@[ii]).0 == q[ii].0
                        &&& results@[ii].1@.len() == q[ii].1.len()
                        &&& forall|jj: int| 0 <= jj < q[ii].1.len() ==> *results@[ii].1@[jj] == q[ii].1[jj]
                    } by {
                        if ii == prev.len() {
                            assert forall|jj: int| 0 <= jj < q[ii].1.len() implies *results@[ii].1@[jj] == q[ii].1[jj] by {
                                assert(store_get(m, ks[jj], e) == Some(*row@[jj]));
                            }
                        } else {
                            assert(results@[ii] == prev[ii]);
                        }
                    }
                }
            }
            i = i + 1;
        }
        results
    }

    /// Every (entity, component) pair of the bucket of `kind`, in insertion
    /// order; nothing where the bucket does not exist.
    pub fn query_single(&self, kind: Kind) -> (r: Vec<(Entity, &Component)>)
        requires
            self.wf(),
        ensures
            r@.len() == bucket_or_empty(self@, kind).len(),
            forall|i: int| 0 <= i < r@.len() ==> (#[trigger] r@[i]).0 == bucket_or_empty(self@, kind)[i].0
                && *r@[i].1 == bucket_or_empty(self@, kind)[i].1,
    {
        let mut results: Vec<(Entity, &Component)> = Vec::new();
        match self.bucket(kind) {
            Some(base) => {
                let mut i: usize = 0;
                while i < base.len()
                    invariant
                        base@ == bucket_or_empty(self@, kind),
                        0 <= i <= base@.len(),
                        results@.len() == i,
                        forall|t: int| 0 <= t < i ==> (#[trigger] results@[t]).0 == base@[t].0 && *results@[t].1 == base@[t].1,
                    decreases base@.len() - i,
                {
                    let entry = &base[i];
                    results.push((entry.0, &entry.1));
                    i = i + 1;
                }
            },
            None => {},
        }
        results
    }
}

} // verus!
