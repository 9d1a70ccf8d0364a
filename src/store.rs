//! The component store: one bucket per kind, each bucket an association
//! list from entity to component, kept in insertion order.
use vstd::prelude::*;
use crate::assoc::{assoc_lookup, lemma_same_keys, assoc_put, assoc_remove, has_key, index_of, keys_unique, lemma_lookup_at, lemma_put, lemma_remove};
use crate::components::{Component, ComponentView, IComponent, Kind};
use crate::entity::Entity;

verus! {

/// What the store holds under each kind whose bucket exists.
pub type Buckets = Map<Kind, Seq<(Entity, Component)>>;

/// Every bucket holds each entity at most once.
pub open spec fn buckets_wf(m: Buckets) -> bool {
    forall|k: Kind| #[trigger] m.contains_key(k) ==> keys_unique(m[k])
}

/// The component of kind `k` attached to `e`; absent when either the bucket or
/// the entity's entry is.
pub open spec fn store_get<V>(m: Map<Kind, Seq<(Entity, V)>>, k: Kind, e: Entity) -> Option<V> {
    if m.contains_key(k) {
        assoc_lookup(m[k], e)
    } else {
        None
    }
}

/// The bucket of `k`, or the empty one where no bucket exists.
pub open spec fn bucket_or_empty<V>(m: Map<Kind, Seq<(Entity, V)>>, k: Kind) -> Seq<(Entity, V)> {
    if m.contains_key(k) {
        m[k]
    } else {
        Seq::empty()
    }
}

/// What the store holds, each component taken by its value.
pub type StoreView = Map<Kind, Seq<(Entity, ComponentView)>>;

/// The entries of a bucket, each component taken by its value.
pub open spec fn entries_view(s: Seq<(Entity, Component)>) -> Seq<(Entity, ComponentView)> {
    s.map_values(|p: (Entity, Component)| (p.0, p.1@))
}

/// The contents of a store, each component taken by its value.
pub open spec fn store_view(m: Buckets) -> StoreView {
    Map::new(|k: Kind| m.contains_key(k), |k: Kind| entries_view(m[k]))
}

/// Looking up an entity commutes with taking components by value.
pub proof fn lemma_lookup_view(s: Seq<(Entity, Component)>, e: Entity)
    requires
        keys_unique(s),
    ensures
        keys_unique(entries_view(s)),
        assoc_lookup(entries_view(s), e) == match assoc_lookup(s, e) {
            Some(c) => Some(c@),
            None => None::<ComponentView>,
        },
{
    let t = entries_view(s);
    lemma_same_keys(s, t);
    if has_key(s, e) {
        lemma_lookup_at(s, index_of(s, e));
        lemma_lookup_at(t, index_of(s, e));
    }
}

/// Looking a component up commutes with taking the store by value.
pub proof fn lemma_get_view(m: Buckets, k: Kind, e: Entity)
    requires
        buckets_wf(m),
    ensures
        store_get(store_view(m), k, e) == match store_get(m, k, e) {
            Some(c) => Some(c@),
            None => None::<ComponentView>,
        },
{
    if m.contains_key(k) {
        lemma_lookup_view(m[k], e);
    }
}

/// `m` with the entry of `e` removed from every bucket.
pub open spec fn without_entity(m: Buckets, e: Entity) -> Buckets {
    Map::new(|k: Kind| m.contains_key(k), |k: Kind| assoc_remove(m[k], e))
}

/// The buckets of a list of (kind, entries) pairs.
pub closed spec fn view_of(s: Seq<(Kind, Seq<(Entity, Component)>)>) -> Buckets {
    Map::new(
        |k: Kind| has_key(s, k),
        |k: Kind|
            match assoc_lookup(s, k) {
                Some(b) => b,
                None => Seq::empty(),
            },
    )
}

/// Kinds are distinct; each bucket holds each entity at most once, and only
/// components of its own kind.
pub closed spec fn model_wf(s: Seq<(Kind, Seq<(Entity, Component)>)>) -> bool {
    &&& keys_unique(s)
    &&& forall|i: int| 0 <= i < s.len() ==> keys_unique(#[trigger] s[i].1) && all_of_kind(s[i].1, s[i].0)
}

/// Every component of `s` is of kind `k`.
pub open spec fn all_of_kind(s: Seq<(Entity, Component)>, k: Kind) -> bool {
    forall|j: int| 0 <= j < s.len() ==> (#[trigger] s[j]).1.spec_kind() == k
}

/// Every bucket holds only components of its own kind.
pub open spec fn kinds_match(m: Buckets) -> bool {
    forall|k: Kind| #[trigger] m.contains_key(k) ==> all_of_kind(m[k], k)
}

proof fn lemma_kind_put(s: Seq<(Entity, Component)>, k: Kind, e: Entity, c: Component)
    requires
        all_of_kind(s, k),
        c.spec_kind() == k,
    ensures
        all_of_kind(assoc_put(s, e, c), k),
{
    let t = assoc_put(s, e, c);
    assert forall|j: int| 0 <= j < t.len() implies (#[trigger] t[j]).1.spec_kind() == k by {
        if j < s.len() && !(has_key(s, e) && j == index_of(s, e)) {
            assert(t[j] == s[j]);
        }
    }
}

proof fn lemma_kind_remove(s: Seq<(Entity, Component)>, k: Kind, e: Entity)
    requires
        all_of_kind(s, k),
    ensures
        all_of_kind(assoc_remove(s, e), k),
{
    let t = assoc_remove(s, e);
    if has_key(s, e) {
        let r = index_of(s, e);
        assert forall|j: int| 0 <= j < t.len() implies (#[trigger] t[j]).1.spec_kind() == k by {
            if j < r {
                assert(t[j] == s[j]);
            } else {
                assert(t[j] == s[j + 1]);
            }
        }
    }
}

proof fn lemma_view_put(s: Seq<(Kind, Seq<(Entity, Component)>)>, k: Kind, b: Seq<(Entity, Component)>)
    requires
        model_wf(s),
        keys_unique(b),
        all_of_kind(b, k),
    ensures
        model_wf(assoc_put(s, k, b)),
        view_of(assoc_put(s, k, b)) == view_of(s).insert(k, b),
{
    let t = assoc_put(s, k, b);
    lemma_put(s, k, b);
    assert forall|i: int| 0 <= i < t.len() implies keys_unique(#[trigger] t[i].1) && all_of_kind(t[i].1, t[i].0) by {
        if has_key(s, k) {
            if i != index_of(s, k) {
                assert(t[i] == s[i]);
            }
        } else {
            if i < s.len() {
                assert(t[i] == s[i]);
            }
        }
    }
    assert forall|x: Kind| has_key(t, x) <==> (x == k || has_key(s, x)) by {
        assert(has_key(t, x) <==> assoc_lookup(t, x) is Some);
        assert(has_key(s, x) <==> assoc_lookup(s, x) is Some);
    }
    assert(view_of(t) =~= view_of(s).insert(k, b));
}

proof fn lemma_view_remove(s: Seq<(Kind, Seq<(Entity, Component)>)>, k: Kind)
    requires
        model_wf(s),
    ensures
        model_wf(assoc_remove(s, k)),
        view_of(assoc_remove(s, k)) == view_of(s).remove(k),
{
    let t = assoc_remove(s, k);
    lemma_remove(s, k);
    if has_key(s, k) {
        let r = index_of(s, k);
        assert forall|i: int| 0 <= i < t.len() implies keys_unique(#[trigger] t[i].1) && all_of_kind(t[i].1, t[i].0) by {
            if i < r {
                assert(t[i] == s[i]);
            } else {
                assert(t[i] == s[i + 1]);
            }
        }
    }
    assert forall|x: Kind| has_key(t, x) <==> (x != k && has_key(s, x)) by {
        assert(has_key(t, x) <==> assoc_lookup(t, x) is Some);
        assert(has_key(s, x) <==> assoc_lookup(s, x) is Some);
    }
    assert(view_of(t) =~= view_of(s).remove(k));
}

pub struct ComponentStore {
    buckets: Vec<(Kind, Vec<(Entity, Component)>)>,
}

/// Position of the entry of `e` in `v`, if any.
fn find_entity(v: &Vec<(Entity, Component)>, e: Entity) -> (r: Option<usize>)
    requires
        keys_unique(v@),
    ensures
        match r {
            Some(i) => i < v@.len() && v@[i as int].0 == e && index_of(v@, e) == i,
            None => !has_key(v@, e),
        },
{
    let mut i: usize = 0;
    while i < v.len()
        invariant
            0 <= i <= v@.len(),
            keys_unique(v@),
            forall|j: int| 0 <= j < i ==> v@[j].0 != e,
        decreases v@.len() - i,
    {
        if v[i].0 == e {
            proof {
                lemma_lookup_at(v@, i as int);
            }
            return Some(i);
        }
        i = i + 1;
    }
    None
}

/// Sets the component of `e` in `v`, replacing an earlier one in place.
fn entries_put(v: &mut Vec<(Entity, Component)>, e: Entity, c: Component)
    requires
        keys_unique(old(v)@),
    ensures
        final(v)@ == assoc_put(old(v)@, e, c),
        keys_unique(final(v)@),
{
    proof {
        lemma_put(v@, e, c);
    }
    match find_entity(v, e) {
        Some(i) => {
            v.set(i, (e, c));
        },
        None => {
            v.push((e, c));
        },
    }
}

/// Removes the entry of `e` from `v`, if there is one.
fn entries_remove(v: &mut Vec<(Entity, Component)>, e: Entity)
    requires
        keys_unique(old(v)@),
    ensures
        final(v)@ == assoc_remove(old(v)@, e),
        keys_unique(final(v)@),
{
    proof {
        lemma_remove(v@, e);
    }
    match find_entity(v, e) {
        Some(i) => {
            v.remove(i);
        },
        None => {},
    }
}

impl ComponentStore {
    /// The buckets as (kind, entries) pairs, in the order they were made.
    pub closed spec fn model(&self) -> Seq<(Kind, Seq<(Entity, Component)>)> {
        self.buckets@.map_values(|b: (Kind, Vec<(Entity, Component)>)| (b.0, b.1@))
    }

    pub closed spec fn wf(&self) -> bool {
        model_wf(self.model())
    }

    proof fn lemma_view(&self)
        requires
            self.wf(),
        ensures
            buckets_wf(self@),
            kinds_match(self@),
            forall|i: int| 0 <= i < self.buckets@.len() ==> self@.contains_key(#[trigger] self.buckets@[i].0)
                && self@[self.buckets@[i].0] == self.buckets@[i].1@,
            forall|k: Kind| self@.contains_key(k) <==> has_key(self.model(), k),
    {
        assert forall|i: int| 0 <= i < self.buckets@.len() implies self@.contains_key(
            #[trigger] self.buckets@[i].0,
        ) && self@[self.buckets@[i].0] == self.buckets@[i].1@ by {
            lemma_lookup_at(self.model(), i);
        }
        assert forall|k: Kind| #[trigger] self@.contains_key(k) implies keys_unique(self@[k]) && all_of_kind(self@[k], k) by {
            lemma_lookup_at(self.model(), index_of(self.model(), k));
        }
    }

    /// Stores `component` under its kind and `entity`, replacing any earlier
    /// component of that kind on that entity; the bucket is made on first use.
    pub fn insert(&mut self, entity: Entity, component: Component)
        requires
            old(self).wf(),
        ensures
            final(self).wf(),
            final(self)@ == old(self)@.insert(
                component.spec_kind(),
                assoc_put(bucket_or_empty(old(self)@, component.spec_kind()), entity, component),
            ),
    {
        let kind = component.kind();
        proof {
            self.lemma_view();
        }
        let ghost m0 = self.model();
        let ghost b0 = bucket_or_empty(self@, kind);
        let ghost c0 = component;
        match self.find_bucket(kind) {
            Some(i) => {
                proof {
                    lemma_lookup_at(m0, i as int);
                }
                entries_put(&mut self.buckets[i].1, entity, component);
                assert(self.model() =~= assoc_put(m0, kind, assoc_put(b0, entity, c0)));
            },
            None => {
                let mut v: Vec<(Entity, Component)> = Vec::new();
                v.push((entity, component));
                self.buckets.push((kind, v));
                assert(self.model() =~= assoc_put(m0, kind, assoc_put(b0, entity, c0)));
            },
        }
        proof {
            lemma_put(b0, entity, c0);
            lemma_view_put(m0, kind, assoc_put(b0, entity, c0));
        }
    }

    /// Every bucket of a well-formed store holds each entity at most once.
    pub proof fn lemma_buckets_wf(&self)
        requires
            self.wf(),
        ensures
            buckets_wf(self@),
    {
        self.lemma_view();
    }

    /// Position of the bucket of `kind`, if it exists.
    fn find_bucket(&self, kind: Kind) -> (r: Option<usize>)
        requires
            self.wf(),
        ensures
            match r {
                Some(i) => i < self.buckets@.len() && self.buckets@[i as int].0 == kind
                    && self@.contains_key(kind) && self@[kind] == self.buckets@[i as int].1@,
                None => !self@.contains_key(kind),
            },
    {
        proof {
            self.lemma_view();
        }
        let mut i: usize = 0;
        while i < self.buckets.len()
            invariant
                0 <= i <= self.buckets@.len(),
                self.wf(),
                forall|j: int| 0 <= j < i ==> self.buckets@[j].0 != kind,
            decreases self.buckets@.len() - i,
        {
            if self.buckets[i].0 == kind {
                proof {
                    self.lemma_view();
                }
                return Some(i);
            }
            i = i + 1;
        }
        assert(!has_key(self.model(), kind)) by {
            if has_key(self.model(), kind) {
                let j = choose|j: int| 0 <= j < self.model().len() && self.model()[j].0 == kind;
                assert(self.buckets@[j].0 == kind);
            }
        }
        None
    }

    pub fn new() -> (r: ComponentStore)
        ensures
            r.wf(),
            r@ == Buckets::empty(),
    {
        let r = ComponentStore { buckets: Vec::new() };
        assert(r@ =~= Buckets::empty());
        r
    }
}

impl ComponentStore {
    /// The component of `kind` attached to `entity`, if any.
    pub fn get(&self, entity: Entity, kind: Kind) -> (r: Option<&Component>)
        requires
            self.wf(),
        ensures
            match r {
                Some(c) => store_get(self@, kind, entity) == Some(*c),
                None => store_get(self@, kind, entity) is None,
            },
    {
        proof {
            self.lemma_view();
        }
        match self.find_bucket(kind) {
            Some(i) => {
                let v = &self.buckets[i].1;
                match find_entity(v, entity) {
                    Some(j) => {
                        proof {
                            lemma_lookup_at(v@, j as int);
                        }
                        Some(&v[j].1)
                    },
                    None => None,
                }
            },
            None => None,
        }
    }

    /// Mutable access to the `T` attached to `entity`, if any; what is
    /// written through it becomes that entity's component of `T`'s kind.
    pub fn get_mut<T: IComponent>(&mut self, entity: Entity) -> (r: Option<&mut T>)
        requires
            old(self).wf(),
        ensures
            final(self).wf(),
            match r {
                Some(v) => store_get(old(self)@, T::kind_of(), entity) == Some(v.as_component()) && final(self)@
                    == old(self)@.insert(
                    T::kind_of(),
                    assoc_put(old(self)@[T::kind_of()], entity, final(v).as_component()),
                ),
                None => store_get(old(self)@, T::kind_of(), entity) is None && final(self)@ == old(self)@,
            },
    {
        proof {
            self.lemma_view();
        }
        let kind = T::kind();
        let ghost m0 = self.model();
        match self.find_bucket(kind) {
            Some(i) => {
                let ghost b0 = self.buckets@[i as int].1@;
                match find_entity(&self.buckets[i].1, entity) {
                    Some(j) => {
                        proof {
                            lemma_lookup_at(m0, i as int);
                            lemma_lookup_at(b0, j as int);
                            assert(b0[j as int].1.spec_kind() == kind);
                        }
                        let c = &mut self.buckets[i].1[j].1;
                        match T::downcast_mut(c) {
                            Some(v) => {
                                proof {
                                    T::lemma_kind(&*final(v));
                                    let b1 = assoc_put(b0, entity, final(v).as_component());
                                    lemma_put(b0, entity, final(v).as_component());
                                    lemma_kind_put(b0, kind, entity, final(v).as_component());
                                    lemma_view_put(m0, kind, b1);
                                    assert(after_borrow(self).model() =~= assoc_put(m0, kind, b1));
                                }
                                Some(v)
                            },
                            None => {
                                assert(false);
                                None
                            },
                        }
                    },
                    None => None,
                }
            },
            None => None,
        }
    }
}

/// The component attached to `e` in the bucket `v`, if any.
pub fn entries_get(v: &Vec<(Entity, Component)>, e: Entity) -> (r: Option<&Component>)
    requires
        keys_unique(v@),
    ensures
        match r {
            Some(c) => assoc_lookup(v@, e) == Some(*c),
            None => assoc_lookup(v@, e) is None,
        },
{
    match find_entity(v, e) {
        Some(j) => {
            proof {
                lemma_lookup_at(v@, j as int);
            }
            Some(&v[j].1)
        },
        None => None,
    }
}

impl ComponentStore {
    /// Deletes the entry of `entity` in the bucket of `kind`; a no-op where
    /// there is none.
    pub fn remove(&mut self, entity: Entity, kind: Kind)
        requires
            old(self).wf(),
        ensures
            final(self).wf(),
            final(self)@ == if old(self)@.contains_key(kind) {
                old(self)@.insert(kind, assoc_remove(old(self)@[kind], entity))
            } else {
                old(self)@
            },
    {
        proof {
            self.lemma_view();
        }
        let ghost m0 = self.model();
        match self.find_bucket(kind) {
            Some(i) => {
                let ghost b0 = self.buckets@[i as int].1@;
                proof {
                    lemma_lookup_at(m0, i as int);
                    lemma_remove(b0, entity);
                    lemma_view_put(m0, kind, assoc_remove(b0, entity));
                }
                entries_remove(&mut self.buckets[i].1, entity);
                assert(self.model() =~= assoc_put(m0, kind, assoc_remove(b0, entity)));
            },
            None => {},
        }
    }

    /// Deletes the entries of `entity` from every bucket.
    pub fn remove_entity(&mut self, entity: Entity)
        requires
            old(self).wf(),
        ensures
            final(self).wf(),
            final(self)@ == without_entity(old(self)@, entity),
    {
        let ghost m0 = self.model();
        let mut i: usize = 0;
        while i < self.buckets.len()
            invariant
                0 <= i <= self.buckets@.len(),
                model_wf(m0),
                self.model().len() == m0.len(),
                forall|j: int| 0 <= j < i ==> #[trigger] self.model()[j] == (m0[j].0, assoc_remove(m0[j].1, entity)),
                forall|j: int| i <= j < m0.len() ==> #[trigger] self.model()[j] == m0[j],
            decreases self.buckets@.len() - i,
        {
            proof {
                assert(self.model()[i as int] == m0[i as int]);
                assert(keys_unique(m0[i as int].1));
            }
            let ghost mb = self.model();
            entries_remove(&mut self.buckets[i].1, entity);
            proof {
                lemma_remove(m0[i as int].1, entity);
                assert(self.model() =~= mb.update(i as int, (m0[i as int].0, assoc_remove(m0[i as int].1, entity))));
            }
            i = i + 1;
        }
        proof {
            let m1 = self.model();
            lemma_same_keys(m0, m1);
            assert forall|j: int| 0 <= j < m1.len() implies keys_unique(#[trigger] m1[j].1) by {
                lemma_remove(m0[j].1, entity);
            }
            assert forall|k: Kind| #[trigger] view_of(m0).contains_key(k) implies view_of(m1)[k]
                == assoc_remove(view_of(m0)[k], entity) by {
                lemma_lookup_at(m0, index_of(m0, k));
                lemma_lookup_at(m1, index_of(m0, k));
            }
            assert(view_of(m1) =~= without_entity(view_of(m0), entity));
        }
    }

    /// Whether the bucket of `kind` exists.
    pub fn has_bucket(&self, kind: Kind) -> (r: bool)
        requires
            self.wf(),
        ensures
            r == self@.contains_key(kind),
    {
        self.find_bucket(kind).is_some()
    }

    /// Read access to the bucket of `kind`, if it exists.
    pub fn bucket(&self, kind: Kind) -> (r: Option<&Vec<(Entity, Component)>>)
        requires
            self.wf(),
        ensures
            buckets_wf(self@),
            match r {
                Some(v) => self@.contains_key(kind) && v@ == self@[kind],
                None => !self@.contains_key(kind),
            },
    {
        proof {
            self.lemma_view();
        }
        match self.find_bucket(kind) {
            Some(i) => Some(&self.buckets[i].1),
            None => None,
        }
    }

    /// Takes the bucket of `kind` out of the store (an empty one where it did
    /// not exist). A system that takes a bucket puts it back with
    /// `put_bucket` before it returns.
    pub fn take_bucket(&mut self, kind: Kind) -> (r: Vec<(Entity, Component)>)
        requires
            old(self).wf(),
        ensures
            final(self).wf(),
            final(self)@ == old(self)@.remove(kind),
            r@ == bucket_or_empty(old(self)@, kind),
            keys_unique(r@),
            all_of_kind(r@, kind),
    {
        proof {
            self.lemma_view();
        }
        let ghost m0 = self.model();
        proof {
            lemma_view_remove(m0, kind);
        }
        match self.find_bucket(kind) {
            Some(i) => {
                proof {
                    lemma_lookup_at(m0, i as int);
                }
                let (_, v) = self.buckets.remove(i);
                assert(self.model() =~= assoc_remove(m0, kind));
                v
            },
            None => {
                assert(self.model() =~= assoc_remove(m0, kind));
                Vec::new()
            },
        }
    }

    /// Puts a bucket back into the store, under a kind that has none.
    pub fn put_bucket(&mut self, kind: Kind, entries: Vec<(Entity, Component)>)
        requires
            old(self).wf(),
            !old(self)@.contains_key(kind),
            keys_unique(entries@),
            all_of_kind(entries@, kind),
        ensures
            final(self).wf(),
            final(self)@ == old(self)@.insert(kind, entries@),
    {
        let ghost m0 = self.model();
        proof {
            self.lemma_view();
            lemma_view_put(m0, kind, entries@);
        }
        self.buckets.push((kind, entries));
        assert(self.model() =~= assoc_put(m0, kind, entries@));
    }
}

impl View for ComponentStore {
    type V = Buckets;

    closed spec fn view(&self) -> Buckets {
        view_of(self.model())
    }
}

} // verus!
