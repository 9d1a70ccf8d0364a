//! The world: entity allocation, the component store and the ordered,
//! named registry of systems, with the per-tick update.
use vstd::prelude::*;
use crate::assoc::{assoc_put, assoc_remove, has_key, index_of, keys_unique, lemma_lookup_at, lemma_put, lemma_remove};
use crate::components::{Component, IComponent, Kind};
use crate::entity::Entity;
use crate::query::{query_spec, rows_match};
use crate::render::Cell;
use crate::store::{
    Buckets, ComponentStore, StoreView, bucket_or_empty, buckets_wf, store_get, store_view, without_entity,
};
use crate::systems::{
    DrawSystem, HandleEventsSystem, ISystem, MovementSystem, PlayerSystem, draw_system_spec, handle_events_spec,
    movement_spec, player_spec,
};

verus! {

/// A registered system.
#[derive(Debug, Clone, Copy, PartialEq, Eq, Structural)]
pub enum System {
    Movement(MovementSystem),
    HandleEvents(HandleEventsSystem),
    Draw(DrawSystem),
    Player(PlayerSystem),
}

/// One system's tick: the store after it and the cells it drew.
pub open spec fn system_step(s: System, w: StoreView, input: Option<char>) -> (StoreView, Seq<Cell>) {
    match s {
        System::Movement(_) => (movement_spec(w), Seq::empty()),
        System::HandleEvents(_) => (handle_events_spec(w, input), Seq::empty()),
        System::Draw(_) => (w, draw_system_spec(w)),
        System::Player(_) => (player_spec(w), Seq::empty()),
    }
}

/// The first `n` systems run in order: each sees the store the one before
/// it left; the cells drawn are concatenated.
pub open spec fn run_systems(systems: Seq<System>, w: StoreView, input: Option<char>, n: nat) -> (
    StoreView,
    Seq<Cell>,
)
    decreases n,
{
    if n == 0 || n > systems.len() {
        (w, Seq::empty())
    } else {
        let before = run_systems(systems, w, input, (n - 1) as nat);
        let step = system_step(systems[n - 1], before.0, input);
        (step.0, before.1 + step.1)
    }
}

/// One tick: every system, in registration order.
pub open spec fn tick_spec(systems: Seq<System>, w: StoreView, input: Option<char>) -> (StoreView, Seq<Cell>) {
    run_systems(systems, w, input, systems.len())
}

impl System {
    /// Runs this system once.
    pub fn run(&self, store: &mut ComponentStore, input: Option<char>, out: &mut Vec<Cell>)
        requires
            old(store).wf(),
        ensures
            final(store).wf(),
            store_view(final(store)@) == system_step(*self, store_view(old(store)@), input).0,
            final(out)@ == old(out)@ + system_step(*self, store_view(old(store)@), input).1,
    {
        match self {
            System::Movement(s) => {
                s.run(store);
                assert(out@ =~= old(out)@ + Seq::<Cell>::empty());
            },
            System::HandleEvents(s) => {
                s.run(store, input);
                assert(out@ =~= old(out)@ + Seq::<Cell>::empty());
            },
            System::Draw(s) => {
                s.run(store, out);
            },
            System::Player(s) => {
                s.run(store);
                assert(out@ =~= old(out)@ + Seq::<Cell>::empty());
            },
        }
    }
}

impl ISystem for System {
    fn update(&mut self, store: &mut ComponentStore, input: Option<char>, out: &mut Vec<Cell>)
        ensures
            store_view(final(store)@) == system_step(*old(self), store_view(old(store)@), input).0,
            final(out)@ == old(out)@ + system_step(*old(self), store_view(old(store)@), input).1,
    {
        self.run(store, input, out);
    }
}

/// The registry after registering `s` under `name`: appended when the name
/// is new; otherwise unchanged, the first registration winning.
pub open spec fn with_system(list: Seq<(Seq<char>, System)>, name: Seq<char>, s: System) -> Seq<(Seq<char>, System)> {
    if has_key(list, name) {
        list
    } else {
        list.push((name, s))
    }
}

/// The registry without the system named `name`, the others keeping their
/// order; unchanged when there is none.
pub open spec fn without_system(list: Seq<(Seq<char>, System)>, name: Seq<char>) -> Seq<(Seq<char>, System)> {
    assoc_remove(list, name)
}

/// One change to the components of a world.
pub enum ComponentOp {
    Add(Entity, Component),
    Remove(Entity, Kind),
}

/// The store after one change.
pub open spec fn apply_op(m: Buckets, op: ComponentOp) -> Buckets {
    match op {
        ComponentOp::Add(e, c) => m.insert(c.spec_kind(), assoc_put(bucket_or_empty(m, c.spec_kind()), e, c)),
        ComponentOp::Remove(e, k) => if m.contains_key(k) {
            m.insert(k, assoc_remove(m[k], e))
        } else {
            m
        },
    }
}

/// The store after a sequence of changes, applied in order.
pub open spec fn apply_ops(m: Buckets, ops: Seq<ComponentOp>) -> Buckets
    decreases ops.len(),
{
    if ops.len() == 0 {
        m
    } else {
        apply_op(apply_ops(m, ops.drop_last()), ops.last())
    }
}

/// What the last change of `ops` to the pair (`k`, `e`) left there: `Some`
/// of the component added, `Some(None)` for a removal, `None` when `ops`
/// never touches the pair.
pub open spec fn last_effect(ops: Seq<ComponentOp>, k: Kind, e: Entity) -> Option<Option<Component>>
    decreases ops.len(),
{
    if ops.len() == 0 {
        None
    } else {
        match ops.last() {
            ComponentOp::Add(e2, c) => if e2 == e && c.spec_kind() == k {
                Some(Some(c))
            } else {
                last_effect(ops.drop_last(), k, e)
            },
            ComponentOp::Remove(e2, k2) => if e2 == e && k2 == k {
                Some(None)
            } else {
                last_effect(ops.drop_last(), k, e)
            },
        }
    }
}

pub struct World {
    next_entity_id: u32,
    systems: Vec<(String, System)>,
    components: ComponentStore,
    entities: Vec<Entity>,
}

/// What one call of `update` yields for the caller to show and pace.
pub struct Frame {
    /// The cells drawn this tick, in drawing order.
    pub cells: Vec<Cell>,
    /// The length of one tick, in milliseconds.
    pub frame_millis: u64,
}

impl World {
    /// The components, by kind and entity.
    pub closed spec fn store(&self) -> Buckets {
        self.components@
    }

    /// The live entities.
    pub closed spec fn live(&self) -> Set<Entity> {
        self.entities@.to_set()
    }

    /// The id the next created entity gets.
    pub closed spec fn next_id(&self) -> u32 {
        self.next_entity_id
    }

    /// The registry: names and systems in registration order.
    pub closed spec fn registry(&self) -> Seq<(Seq<char>, System)> {
        self.systems@.map_values(|p: (String, System)| (p.0@, p.1))
    }

    /// The registered systems in registration order.
    pub open spec fn system_list(&self) -> Seq<System> {
        self.registry().map_values(|p: (Seq<char>, System)| p.1)
    }

    pub closed spec fn wf(&self) -> bool {
        &&& self.components.wf()
        &&& keys_unique(self.registry())
        &&& self.entities@.no_duplicates()
        &&& forall|i: int| 0 <= i < self.entities@.len() ==> (#[trigger] self.entities@[i]).id < self.next_entity_id
    }

    /// Every bucket of a well-formed world holds each entity at most once.
    pub proof fn lemma_wf(&self)
        requires
            self.wf(),
        ensures
            buckets_wf(self.store()),
    {
        self.components.lemma_buckets_wf();
    }

    pub fn new() -> (r: World)
        ensures
            r.wf(),
            r.store() == Buckets::empty(),
            r.live() == Set::<Entity>::empty(),
            r.next_id() == 0,
            r.registry() == Seq::<(Seq<char>, System)>::empty(),
    {
        let r = World {
            next_entity_id: 0,
            systems: Vec::new(),
            components: ComponentStore::new(),
            entities: Vec::new(),
        };
        assert(r.live() =~= Set::<Entity>::empty());
        assert(r.registry() =~= Seq::<(Seq<char>, System)>::empty());
        r
    }

    /// A new live entity, with the next id.
    pub fn create_entity(&mut self) -> (r: Entity)
        requires
            old(self).wf(),
            old(self).next_id() < u32::MAX,
        ensures
            final(self).wf(),
            r.id == old(self).next_id(),
            !old(self).live().contains(r),
            final(self).live() == old(self).live().insert(r),
            final(self).next_id() == old(self).next_id() + 1,
            final(self).store() == old(self).store(),
            final(self).registry() == old(self).registry(),
    {
        let entity = Entity::new(self.next_entity_id);
        let ghost e0 = self.entities@;
        proof {
            if e0.contains(entity) {
                let i = choose|i: int| 0 <= i < e0.len() && e0[i] == entity;
                assert(e0[i].id < self.next_entity_id);
            }
        }
        self.next_entity_id = self.next_entity_id + 1;
        self.entities.push(entity);
        proof {
            assert(self.entities@.to_set() =~= e0.to_set().insert(entity)) by {
                assert forall|x: Entity| self.entities@.contains(x) <==> (e0.contains(x) || x == entity) by {
                    if self.entities@.contains(x) {
                        let i = choose|i: int| 0 <= i < self.entities@.len() && self.entities@[i] == x;
                        if i < e0.len() {
                            assert(e0[i] == x);
                        }
                    }
                    if e0.contains(x) {
                        let i = choose|i: int| 0 <= i < e0.len() && e0[i] == x;
                        assert(self.entities@[i] == x);
                    }
                    if x == entity {
                        assert(self.entities@[e0.len() as int] == x);
                    }
                }
            }
        }
        entity
    }
}

/// Position of the system named `name` in `systems`, if there is one.
fn find_system(systems: &Vec<(String, System)>, name: &String) -> (r: Option<usize>)
    ensures
        match r {
            Some(i) => i < systems@.len() && systems@[i as int].0@ == name@,
            None => forall|i: int| 0 <= i < systems@.len() ==> (#[trigger] systems@[i]).0@ != name@,
        },
{
    let mut i: usize = 0;
    while i < systems.len()
        invariant
            0 <= i <= systems@.len(),
            forall|j: int| 0 <= j < i ==> (#[trigger] systems@[j]).0@ != name@,
        decreases systems@.len() - i,
    {
        if systems[i].0 == *name {
            return Some(i);
        }
        i = i + 1;
    }
    None
}

/// Position of `entity` in `entities`, if it is there.
fn find_live(entities: &Vec<Entity>, entity: Entity) -> (r: Option<usize>)
    ensures
        match r {
            Some(i) => i < entities@.len() && entities@[i as int] == entity,
            None => !entities@.contains(entity),
        },
{
    let mut i: usize = 0;
    while i < entities.len()
        invariant
            0 <= i <= entities@.len(),
            forall|j: int| 0 <= j < i ==> entities@[j] != entity,
        decreases entities@.len() - i,
    {
        if entities[i] == entity {
            return Some(i);
        }
        i = i + 1;
    }
    None
}

impl World {
    /// Attaches `component` to `entity`, replacing an earlier component of
    /// the same kind.
    pub fn add_component<T: IComponent>(&mut self, entity: Entity, component: T)
        requires
            old(self).wf(),
        ensures
            final(self).wf(),
            final(self).store() == apply_op(old(self).store(), ComponentOp::Add(entity, component.as_component())),
            final(self).live() == old(self).live(),
            final(self).next_id() == old(self).next_id(),
            final(self).registry() == old(self).registry(),
    {
        let c = component.into_component();
        self.components.insert(entity, c);
    }

    /// Registers `system` under `name`; a name already in use keeps the
    /// system registered first.
    pub fn add_system(&mut self, name: &str, system: System)
        requires
            old(self).wf(),
        ensures
            final(self).wf(),
            final(self).registry() == with_system(old(self).registry(), name@, system),
            final(self).store() == old(self).store(),
            final(self).live() == old(self).live(),
            final(self).next_id() == old(self).next_id(),
    {
        let ghost r0 = self.registry();
        let owned = name.to_owned();
        match find_system(&self.systems, &owned) {
            Some(i) => {
                assert(r0[i as int].0 == name@);
            },
            None => {
                assert(!has_key(r0, name@)) by {
                    if has_key(r0, name@) {
                        let i = choose|i: int| 0 <= i < r0.len() && r0[i].0 == name@;
                        assert(self.systems@[i].0@ != name@);
                    }
                }
                proof {
                    lemma_put(r0, name@, system);
                }
                self.systems.push((owned, system));
                assert(self.registry() =~= r0.push((name@, system)));
            },
        }
    }

    /// The component of `kind` attached to `entity`, if any.
    pub fn get_component(&self, entity: Entity, kind: Kind) -> (r: Option<&Component>)
        requires
            self.wf(),
        ensures
            match r {
                Some(c) => store_get(self.store(), kind, entity) == Some(*c),
                None => store_get(self.store(), kind, entity) is None,
            },
    {
        self.components.get(entity, kind)
    }

    /// Mutable access to the `T` attached to `entity`, if any; what is
    /// written through it becomes that entity's component of `T`'s kind.
    pub fn get_component_mut<T: IComponent>(&mut self, entity: Entity) -> (r: Option<&mut T>)
        requires
            old(self).wf(),
        ensures
            final(self).wf(),
            final(self).live() == old(self).live(),
            final(self).next_id() == old(self).next_id(),
            final(self).registry() == old(self).registry(),
            match r {
                Some(v) => store_get(old(self).store(), T::kind_of(), entity) == Some(v.as_component())
                    && final(self).store() == old(self).store().insert(
                    T::kind_of(),
                    assoc_put(old(self).store()[T::kind_of()], entity, final(v).as_component()),
                ),
                None => store_get(old(self).store(), T::kind_of(), entity) is None && final(self).store() == old(
                    self,
                ).store(),
            },
    {
        self.components.get_mut::<T>(entity)
    }

    /// For every entity holding a component of each kind of `kinds`, the
    /// entity and those components in request order, in the insertion order
    /// of the first kind's bucket.
    pub fn query_components(&self, kinds: &[Kind]) -> (r: Vec<(Entity, Vec<&Component>)>)
        requires
            self.wf(),
        ensures
            rows_match(r@, query_spec(self.store(), kinds@)),
    {
        self.components.query(kinds)
    }

    /// Every (entity, component) pair of one kind, in insertion order.
    pub fn query_component(&self, kind: Kind) -> (r: Vec<(Entity, &Component)>)
        requires
            self.wf(),
        ensures
            r@.len() == bucket_or_empty(self.store(), kind).len(),
            forall|i: int| 0 <= i < r@.len() ==> (#[trigger] r@[i]).0 == bucket_or_empty(self.store(), kind)[i].0
                && *r@[i].1 == bucket_or_empty(self.store(), kind)[i].1,
    {
        self.components.query_single(kind)
    }

    /// Detaches the component of `kind` from `entity`; a no-op where there
    /// is none.
    pub fn remove_component(&mut self, entity: Entity, kind: Kind)
        requires
            old(self).wf(),
        ensures
            final(self).wf(),
            final(self).store() == apply_op(old(self).store(), ComponentOp::Remove(entity, kind)),
            final(self).live() == old(self).live(),
            final(self).next_id() == old(self).next_id(),
            final(self).registry() == old(self).registry(),
    {
        self.components.remove(entity, kind);
    }

    /// Unregisters the system named `name`; a no-op where there is none.
    pub fn remove_system(&mut self, name: String)
        requires
            old(self).wf(),
        ensures
            final(self).wf(),
            final(self).registry() == without_system(old(self).registry(), name@),
            final(self).store() == old(self).store(),
            final(self).live() == old(self).live(),
            final(self).next_id() == old(self).next_id(),
    {
        let ghost r0 = self.registry();
        proof {
            lemma_remove(r0, name@);
        }
        match find_system(&self.systems, &name) {
            Some(i) => {
                proof {
                    lemma_lookup_at(r0, i as int);
                }
                self.systems.remove(i);
                assert(self.registry() =~= r0.remove(i as int));
            },
            None => {
                assert(!has_key(r0, name@)) by {
                    if has_key(r0, name@) {
                        let i = choose|i: int| 0 <= i < r0.len() && r0[i].0 == name@;
                        assert(self.systems@[i].0@ != name@);
                    }
                }
            },
        }
    }

    /// Deletes `entity`: it leaves the live set and every bucket.
    pub fn delete_entity(&mut self, entity: Entity)
        requires
            old(self).wf(),
        ensures
            final(self).wf(),
            final(self).live() == old(self).live().remove(entity),
            final(self).store() == without_entity(old(self).store(), entity),
            final(self).next_id() == old(self).next_id(),
            final(self).registry() == old(self).registry(),
    {
        let ghost e0 = self.entities@;
        let found = find_live(&self.entities, entity);
        if let Some(i) = found {
            self.entities.remove(i);
            proof {
                let e1 = self.entities@;
                assert forall|a: int, b: int| 0 <= a < b < e1.len() implies e1[a] != e1[b] by {
                    let sa = if a < i { a } else { a + 1 };
                    let sb = if b < i { b } else { b + 1 };
                    assert(e0[sa] == e1[a] && e0[sb] == e1[b]);
                }
                assert forall|x: Entity| e1.contains(x) <==> (e0.contains(x) && x != entity) by {
                    if e1.contains(x) {
                        let a = choose|a: int| 0 <= a < e1.len() && e1[a] == x;
                        let sa = if a < i { a } else { a + 1 };
                        assert(e0[sa] == x);
                        assert(sa != i);
                    }
                    if e0.contains(x) && x != entity {
                        let a = choose|a: int| 0 <= a < e0.len() && e0[a] == x;
                        assert(a != i);
                        let ta = if a < i { a } else { a - 1 };
                        assert(e1[ta] == x);
                    }
                }
                assert(e1.to_set() =~= e0.to_set().remove(entity));
            }
        } else {
            assert(e0.to_set() =~= e0.to_set().remove(entity));
        }
        self.components.remove_entity(entity);
    }

    /// Runs one tick: every registered system once, in registration order,
    /// with the key read this tick (if any). Returns what was drawn and the
    /// length of a tick at `ticks_per_second`.
    pub fn update(&mut self, ticks_per_second: u64, input: Option<char>) -> (r: Frame)
        requires
            old(self).wf(),
            ticks_per_second > 0,
        ensures
            final(self).wf(),
            store_view(final(self).store()) == tick_spec(old(self).system_list(), store_view(old(self).store()), input).0,
            r.cells@ == tick_spec(old(self).system_list(), store_view(old(self).store()), input).1,
            r.frame_millis == 1000u64 / ticks_per_second,
            final(self).live() == old(self).live(),
            final(self).next_id() == old(self).next_id(),
            final(self).registry() == old(self).registry(),
    {
        let ghost sys = self.system_list();
        let ghost w0 = store_view(self.components@);
        let ghost e0 = self.entities@;
        let ghost n0 = self.next_entity_id;
        let ghost s0 = self.systems@;
        let mut cells: Vec<Cell> = Vec::new();
        let mut i: usize = 0;
        while i < self.systems.len()
            invariant
                0 <= i <= self.systems@.len(),
                self.wf(),
                sys == self.system_list(),
                sys.len() == self.systems@.len(),
                self.entities@ == e0,
                self.next_entity_id == n0,
                self.systems@ == s0,
                store_view(self.components@) == run_systems(sys, w0, input, i as nat).0,
                cells@ == run_systems(sys, w0, input, i as nat).1,
            decreases self.systems@.len() - i,
        {
            let s = self.systems[i].1;
            assert(s == sys[i as int]);
            s.run(&mut self.components, input, &mut cells);
            i = i + 1;
        }
        Frame { cells, frame_millis: 1000 / ticks_per_second }
    }
}

proof fn lemma_apply_op(m: Buckets, op: ComponentOp, k: Kind, e: Entity)
    requires
        buckets_wf(m),
    ensures
        buckets_wf(apply_op(m, op)),
        store_get(apply_op(m, op), k, e) == match op {
            ComponentOp::Add(e2, c) => if e2 == e && c.spec_kind() == k {
                Some(c)
            } else {
                store_get(m, k, e)
            },
            ComponentOp::Remove(e2, k2) => if e2 == e && k2 == k {
                None
            } else {
                store_get(m, k, e)
            },
        },
{
    let m1 = apply_op(m, op);
    match op {
        ComponentOp::Add(e2, c) => {
            let kc = c.spec_kind();
            lemma_put(bucket_or_empty(m, kc), e2, c);
            assert forall|k3: Kind| #[trigger] m1.contains_key(k3) implies keys_unique(m1[k3]) by {
                if k3 != kc {
                    assert(m.contains_key(k3));
                }
            }
        },
        ComponentOp::Remove(e2, k2) => {
            if m.contains_key(k2) {
                lemma_remove(m[k2], e2);
            }
            assert forall|k3: Kind| #[trigger] m1.contains_key(k3) implies keys_unique(m1[k3]) by {
                if k3 != k2 {
                    assert(m.contains_key(k3));
                }
            }
        },
    }
}

/// After any sequence of component additions and removals, the component of
/// a kind on an entity is what the last operation on that pair left there:
/// the component added, or nothing after a removal; a pair that no operation
/// touched keeps what it had.
pub proof fn lemma_last_operation_wins(m: Buckets, ops: Seq<ComponentOp>, k: Kind, e: Entity)
    requires
        buckets_wf(m),
    ensures
        buckets_wf(apply_ops(m, ops)),
        store_get(apply_ops(m, ops), k, e) == match last_effect(ops, k, e) {
            Some(r) => r,
            None => store_get(m, k, e),
        },
    decreases ops.len(),
{
    if ops.len() > 0 {
        lemma_last_operation_wins(m, ops.drop_last(), k, e);
        lemma_apply_op(apply_ops(m, ops.drop_last()), ops.last(), k, e);
    }
}

/// Registering a system under a name already in use changes nothing, so the
/// first registration wins; removing a system that is not registered, or a
/// component that is not attached, changes nothing either.
pub proof fn lemma_idempotent_changes(
    list: Seq<(Seq<char>, System)>,
    name: Seq<char>,
    first: System,
    second: System,
    m: Buckets,
    k: Kind,
    e: Entity,
)
    requires
        buckets_wf(m),
    ensures
        with_system(with_system(list, name, first), name, second) == with_system(list, name, first),
        !has_key(list, name) ==> without_system(list, name) == list,
        store_get(m, k, e) is None ==> apply_op(m, ComponentOp::Remove(e, k)) == m,
{
    let l1 = with_system(list, name, first);
    if !has_key(list, name) {
        assert(l1[list.len() as int].0 == name);
    }
    if store_get(m, k, e) is None && m.contains_key(k) {
        assert(!has_key(m[k], e)) by {
            if has_key(m[k], e) {
                lemma_lookup_at(m[k], index_of(m[k], e));
            }
        }
        assert(apply_op(m, ComponentOp::Remove(e, k)) =~= m);
    }
}

/// A tick is determined by the store's contents and the registry's order:
/// two worlds that agree on both end the tick with the same components and
/// the same cells drawn.
pub proof fn lemma_tick_deterministic(a: World, b: World, input: Option<char>)
    requires
        a.wf(),
        b.wf(),
        store_view(a.store()) == store_view(b.store()),
        a.system_list() == b.system_list(),
    ensures
        tick_spec(a.system_list(), store_view(a.store()), input) == tick_spec(
            b.system_list(),
            store_view(b.store()),
            input,
        ),
{
}

/// Deleting an entity leaves no component of any kind on it, and the
/// components of every other entity as they were.
pub proof fn lemma_delete_complete(m: Buckets, e: Entity, k: Kind, other: Entity)
    requires
        buckets_wf(m),
    ensures
        store_get(without_entity(m, e), k, e) is None,
        other != e ==> store_get(without_entity(m, e), k, other) == store_get(m, k, other),
{
    if m.contains_key(k) {
        lemma_remove(m[k], e);
    }
}

} // verus!
