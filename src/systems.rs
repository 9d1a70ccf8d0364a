//! The systems: units of per-tick logic, each a transform of the store.
use vstd::prelude::*;
use crate::assoc::{assoc_lookup, assoc_put, keys_unique, lemma_same_keys};
use crate::components::{Component, ComponentView, Kind, Position, key_pressed, released};
use crate::entity::Entity;
use crate::render::{Cell, draw, draw_spec};
use crate::store::{
    ComponentStore, StoreView, bucket_or_empty, buckets_wf, entries_get, entries_view, lemma_get_view,
    lemma_lookup_view, store_get, store_view,
};

verus! {

/// `v` clamped to the range of `i32`.
pub open spec fn clamp_i32(v: int) -> i32 {
    if v > i32::MAX {
        i32::MAX
    } else if v < i32::MIN {
        i32::MIN
    } else {
        v as i32
    }
}

fn add_clamped(a: i32, b: i32) -> (r: i32)
    ensures
        r == clamp_i32(a + b),
{
    let s = a as i64 + b as i64;
    if s > i32::MAX as i64 {
        i32::MAX
    } else if s < i32::MIN as i64 {
        i32::MIN
    } else {
        s as i32
    }
}

fn sub_clamped(a: i32, b: i32) -> (r: i32)
    ensures
        r == clamp_i32(a - b),
{
    let s = a as i64 - b as i64;
    if s > i32::MAX as i64 {
        i32::MAX
    } else if s < i32::MIN as i64 {
        i32::MIN
    } else {
        s as i32
    }
}

/// A position moved by one tick of a velocity; anything else, or a position
/// without a velocity, is left as it is.
pub open spec fn moved(c: ComponentView, v: Option<ComponentView>) -> ComponentView {
    match c {
        ComponentView::Position(p) => match v {
            Some(ComponentView::Velocity(v)) => ComponentView::Position(
                Position { x: clamp_i32(p.x + v.vx), y: clamp_i32(p.y + v.vy) },
            ),
            _ => c,
        },
        _ => c,
    }
}

/// The store after one tick of movement: every position whose entity has a
/// velocity moves by it; the position and velocity buckets exist afterwards.
pub open spec fn movement_spec(w: StoreView) -> StoreView {
    let vs = bucket_or_empty(w, Kind::Velocity);
    let ps = bucket_or_empty(w, Kind::Position);
    w.insert(
        Kind::Position,
        ps.map_values(|p: (Entity, ComponentView)| (p.0, moved(p.1, assoc_lookup(vs, p.0)))),
    ).insert(Kind::Velocity, vs)
}

/// The key marks that steer the player: those of the first key state.
pub open spec fn active_marks(w: StoreView) -> Seq<(char, bool)> {
    let ks = bucket_or_empty(w, Kind::KeyState);
    if ks.len() > 0 {
        match ks[0].1 {
            ComponentView::KeyState(m) => m,
            _ => Seq::empty(),
        }
    } else {
        Seq::empty()
    }
}

/// A position steered by the pressed keys: `w` up and `s` down by the
/// velocity's `vy`, `a` left and `d` right by its `vx`.
pub open spec fn steered(c: ComponentView, v: Option<ComponentView>, marks: Seq<(char, bool)>) -> ComponentView {
    match c {
        ComponentView::Position(p) => match v {
            Some(ComponentView::Velocity(v)) => {
                let y1 = if key_pressed(marks, 'w') { clamp_i32(p.y - v.vy) } else { p.y };
                let y2 = if key_pressed(marks, 's') { clamp_i32(y1 + v.vy) } else { y1 };
                let x1 = if key_pressed(marks, 'a') { clamp_i32(p.x - v.vx) } else { p.x };
                let x2 = if key_pressed(marks, 'd') { clamp_i32(x1 + v.vx) } else { x1 };
                ComponentView::Position(Position { x: x2, y: y2 })
            },
            _ => c,
        },
        _ => c,
    }
}

/// The store after one tick of player control.
pub open spec fn player_spec(w: StoreView) -> StoreView {
    let vs = bucket_or_empty(w, Kind::Velocity);
    let ps = bucket_or_empty(w, Kind::Position);
    let marks = active_marks(w);
    w.insert(
        Kind::Position,
        ps.map_values(|p: (Entity, ComponentView)| (p.0, steered(p.1, assoc_lookup(vs, p.0), marks))),
    ).insert(Kind::Velocity, vs)
}

/// Key marks after a tick: all cleared, then the key read this tick, if any,
/// marked pressed.
pub open spec fn handled(marks: Seq<(char, bool)>, input: Option<char>) -> Seq<(char, bool)> {
    match input {
        Some(c) => assoc_put(released(marks), c, true),
        None => released(marks),
    }
}

/// The store after one tick of input handling: the first key state's marks
/// are replaced as `handled` says; without a key state nothing changes.
pub open spec fn handle_events_spec(w: StoreView, input: Option<char>) -> StoreView {
    if w.contains_key(Kind::KeyState) && w[Kind::KeyState].len() > 0 {
        let ks = w[Kind::KeyState];
        match ks[0].1 {
            ComponentView::KeyState(m) => w.insert(
                Kind::KeyState,
                ks.update(0, (ks[0].0, ComponentView::KeyState(handled(m, input)))),
            ),
            _ => w,
        }
    } else {
        w
    }
}

/// The cells of one entity: its body drawn at its position in its game
/// state's work area, when it has all three.
pub open spec fn entity_cells(p: ComponentView, b: Option<ComponentView>, g: Option<ComponentView>) -> Seq<Cell> {
    match p {
        ComponentView::Position(pos) => match b {
            Some(ComponentView::Body(rows)) => match g {
                Some(ComponentView::GameState(gs)) => draw_spec(rows, pos, gs.window_size),
                _ => Seq::empty(),
            },
            _ => Seq::empty(),
        },
        _ => Seq::empty(),
    }
}

/// The cells of the entities of the first `n` entries of `ps`.
pub open spec fn draw_entries(ps: Seq<(Entity, ComponentView)>, w: StoreView, n: nat) -> Seq<Cell>
    decreases n,
{
    if n == 0 || n > ps.len() {
        Seq::empty()
    } else {
        draw_entries(ps, w, (n - 1) as nat) + entity_cells(
            ps[n - 1].1,
            store_get(w, Kind::Body, ps[n - 1].0),
            store_get(w, Kind::GameState, ps[n - 1].0),
        )
    }
}

/// What one tick of drawing shows, in the order of the position bucket.
pub open spec fn draw_system_spec(w: StoreView) -> Seq<Cell> {
    let ps = bucket_or_empty(w, Kind::Position);
    draw_entries(ps, w, ps.len())
}

/// A unit of per-tick logic over the component store. A system leaves the
/// store well formed; what it draws is appended to `out`.
pub trait ISystem {
    fn update(&mut self, store: &mut ComponentStore, input: Option<char>, out: &mut Vec<Cell>)
        requires
            old(store).wf(),
        ensures
            final(store).wf(),
    ;
}

/// Moves every entity with a position and a velocity by its velocity.
#[derive(Debug, Clone, Copy, PartialEq, Eq, Structural)]
pub struct MovementSystem;

impl MovementSystem {
    pub fn new() -> (r: MovementSystem) {
        MovementSystem
    }

    pub fn run(&self, store: &mut ComponentStore)
        requires
            old(store).wf(),
        ensures
            final(store).wf(),
            store_view(final(store)@) == movement_spec(store_view(old(store)@)),
    {
        let ghost w0 = store_view(store@);
        let ghost m0 = store@;
        let mut positions = store.take_bucket(Kind::Position);
        let velocities = store.take_bucket(Kind::Velocity);
        let ghost p0 = positions@;
        let ghost vsv = entries_view(velocities@);
        let mut i: usize = 0;
        while i < positions.len()
            invariant
                0 <= i <= positions@.len(),
                positions@.len() == p0.len(),
                keys_unique(velocities@),
                vsv == entries_view(velocities@),
                forall|j: int| 0 <= j < i ==> (#[trigger] positions@[j]).0 == p0[j].0 && positions@[j].1@ == moved(
                    p0[j].1@,
                    assoc_lookup(vsv, p0[j].0),
                ),
                forall|j: int| i <= j < p0.len() ==> #[trigger] positions@[j] == p0[j],
            decreases positions@.len() - i,
        {
            let e = positions[i].0;
            proof {
                lemma_lookup_view(velocities@, e);
            }
            let next: Option<Position> = match &positions[i].1 {
                Component::Position(p) => match entries_get(&velocities, e) {
                    Some(Component::Velocity(v)) => Some(
                        Position { x: add_clamped(p.x, v.vx), y: add_clamped(p.y, v.vy) },
                    ),
                    _ => None,
                },
                _ => None,
            };
            match next {
                Some(np) => {
                    positions.set(i, (e, Component::Position(np)));
                },
                None => {},
            }
            i = i + 1;
        }
        proof {
            lemma_same_keys(p0, positions@);
        }
        let ghost pf = positions@;
        store.put_bucket(Kind::Velocity, velocities);
        store.put_bucket(Kind::Position, positions);
        proof {
            let vs = bucket_or_empty(w0, Kind::Velocity);
            let ps = bucket_or_empty(w0, Kind::Position);
            assert(vs == vsv);
            assert(ps == entries_view(p0));
            assert(entries_view(pf) =~= ps.map_values(
                |p: (Entity, ComponentView)| (p.0, moved(p.1, assoc_lookup(vs, p.0))),
            ));
            assert(store_view(store@) =~= movement_spec(w0));
        }
    }
}

impl ISystem for MovementSystem {
    fn update(&mut self, store: &mut ComponentStore, input: Option<char>, out: &mut Vec<Cell>)
        ensures
            store_view(final(store)@) == movement_spec(store_view(old(store)@)),
            final(out)@ == old(out)@,
    {
        self.run(store);
    }
}

/// Whether the keys `w`, `s`, `a` and `d` are marked pressed in the first
/// key state of the store.
fn steering_keys(store: &ComponentStore) -> (r: (bool, bool, bool, bool))
    requires
        store.wf(),
    ensures
        r == (
            key_pressed(active_marks(store_view(store@)), 'w'),
            key_pressed(active_marks(store_view(store@)), 's'),
            key_pressed(active_marks(store_view(store@)), 'a'),
            key_pressed(active_marks(store_view(store@)), 'd'),
        ),
{
    let ghost w = store_view(store@);
    match store.bucket(Kind::KeyState) {
        Some(b) => {
            if b.len() > 0 {
                assert(bucket_or_empty(w, Kind::KeyState)[0] == (b@[0].0, b@[0].1@));
                match &b[0].1 {
                    Component::KeyState(ks) => {
                        return (
                            ks.is_key_pressed('w'),
                            ks.is_key_pressed('s'),
                            ks.is_key_pressed('a'),
                            ks.is_key_pressed('d'),
                        );
                    },
                    _ => {},
                }
            }
        },
        None => {},
    }
    (false, false, false, false)
}

/// Steers every entity with a position and a velocity by the pressed keys.
#[derive(Debug, Clone, Copy, PartialEq, Eq, Structural)]
pub struct PlayerSystem;

impl PlayerSystem {
    pub fn new() -> (r: PlayerSystem) {
        PlayerSystem
    }

    pub fn run(&self, store: &mut ComponentStore)
        requires
            old(store).wf(),
        ensures
            final(store).wf(),
            store_view(final(store)@) == player_spec(store_view(old(store)@)),
    {
        let ghost w0 = store_view(store@);
        let ghost marks = active_marks(w0);
        let (up, down, left, right) = steering_keys(store);
        let mut positions = store.take_bucket(Kind::Position);
        let velocities = store.take_bucket(Kind::Velocity);
        let ghost p0 = positions@;
        let ghost vsv = entries_view(velocities@);
        let mut i: usize = 0;
        while i < positions.len()
            invariant
                0 <= i <= positions@.len(),
                positions@.len() == p0.len(),
                keys_unique(velocities@),
                vsv == entries_view(velocities@),
                up == key_pressed(marks, 'w'),
                down == key_pressed(marks, 's'),
                left == key_pressed(marks, 'a'),
                right == key_pressed(marks, 'd'),
                forall|j: int| 0 <= j < i ==> (#[trigger] positions@[j]).0 == p0[j].0 && positions@[j].1@ == steered(
                    p0[j].1@,
                    assoc_lookup(vsv, p0[j].0),
                    marks,
                ),
                forall|j: int| i <= j < p0.len() ==> #[trigger] positions@[j] == p0[j],
            decreases positions@.len() - i,
        {
            let e = positions[i].0;
            proof {
                lemma_lookup_view(velocities@, e);
            }
            let next: Option<Position> = match &positions[i].1 {
                Component::Position(p) => match entries_get(&velocities, e) {
                    Some(Component::Velocity(v)) => {
                        let mut x = p.x;
                        let mut y = p.y;
                        if up {
                            y = sub_clamped(y, v.vy);
                        }
                        if down {
                            y = add_clamped(y, v.vy);
                        }
                        if left {
                            x = sub_clamped(x, v.vx);
                        }
                        if right {
                            x = add_clamped(x, v.vx);
                        }
                        Some(Position { x, y })
                    },
                    _ => None,
                },
                _ => None,
            };
            match next {
                Some(np) => {
                    positions.set(i, (e, Component::Position(np)));
                },
                None => {},
            }
            i = i + 1;
        }
        proof {
            lemma_same_keys(p0, positions@);
        }
        let ghost pf = positions@;
        store.put_bucket(Kind::Velocity, velocities);
        store.put_bucket(Kind::Position, positions);
        proof {
            let vs = bucket_or_empty(w0, Kind::Velocity);
            let ps = bucket_or_empty(w0, Kind::Position);
            assert(vs == vsv);
            assert(ps == entries_view(p0));
            assert(entries_view(pf) =~= ps.map_values(
                |p: (Entity, ComponentView)| (p.0, steered(p.1, assoc_lookup(vs, p.0), marks)),
            ));
            assert(store_view(store@) =~= player_spec(w0));
        }
    }
}

impl ISystem for PlayerSystem {
    fn update(&mut self, store: &mut ComponentStore, input: Option<char>, out: &mut Vec<Cell>)
        ensures
            store_view(final(store)@) == player_spec(store_view(old(store)@)),
            final(out)@ == old(out)@,
    {
        self.run(store);
    }
}

/// Applies the key read this tick to the first key state: every mark is
/// cleared, then that key, if any, is marked pressed.
#[derive(Debug, Clone, Copy, PartialEq, Eq, Structural)]
pub struct HandleEventsSystem;

impl HandleEventsSystem {
    pub fn new() -> (r: HandleEventsSystem) {
        HandleEventsSystem
    }

    pub fn run(&self, store: &mut ComponentStore, input: Option<char>)
        requires
            old(store).wf(),
        ensures
            final(store).wf(),
            store_view(final(store)@) == handle_events_spec(store_view(old(store)@), input),
    {
        let ghost w0 = store_view(store@);
        if !store.has_bucket(Kind::KeyState) {
            return;
        }
        let mut b = store.take_bucket(Kind::KeyState);
        let ghost b0 = b@;
        if b.len() > 0 {
            let (e, c) = b.remove(0);
            let c2 = match c {
                Component::KeyState(ks) => {
                    let mut ks = ks;
                    ks.release_all();
                    match input {
                        Some(ch) => {
                            ks.update_key_state(ch, true);
                        },
                        None => {},
                    }
                    Component::KeyState(ks)
                },
                other => other,
            };
            b.insert(0, (e, c2));
            proof {
                lemma_same_keys(b0, b@);
            }
        }
        let ghost bf = b@;
        store.put_bucket(Kind::KeyState, b);
        proof {
            if b0.len() > 0 {
                match b0[0].1 {
                    Component::KeyState(_) => {
                        assert(entries_view(bf) =~= w0[Kind::KeyState].update(
                            0,
                            (b0[0].0, ComponentView::KeyState(handled(w0[Kind::KeyState][0].1->KeyState_0, input))),
                        ));
                    },
                    _ => {
                        assert(bf =~= b0);
                    },
                }
            } else {
                assert(bf =~= b0);
            }
            assert(store_view(store@) =~= handle_events_spec(w0, input));
        }
    }
}

impl ISystem for HandleEventsSystem {
    fn update(&mut self, store: &mut ComponentStore, input: Option<char>, out: &mut Vec<Cell>)
        ensures
            store_view(final(store)@) == handle_events_spec(store_view(old(store)@), input),
            final(out)@ == old(out)@,
    {
        self.run(store, input);
    }
}

/// Draws every entity that has a position, a body and a game state.
#[derive(Debug, Clone, Copy, PartialEq, Eq, Structural)]
pub struct DrawSystem;

impl DrawSystem {
    pub fn new() -> (r: DrawSystem) {
        DrawSystem
    }

    /// Appends to `out` the cells of each entity with a position, a body and
    /// a game state, in the order of the position bucket; the store is only
    /// read.
    pub fn run(&self, store: &ComponentStore, out: &mut Vec<Cell>)
        requires
            store.wf(),
        ensures
            final(out)@ == old(out)@ + draw_system_spec(store_view(store@)),
    {
        let ghost w = store_view(store@);
        let ghost o0 = out@;
        match store.bucket(Kind::Position) {
            Some(ps) => {
                let ghost psv = bucket_or_empty(w, Kind::Position);
                assert(psv == entries_view(ps@));
                let mut i: usize = 0;
                while i < ps.len()
                    invariant
                        store.wf(),
                        buckets_wf(store@),
                        w == store_view(store@),
                        psv == entries_view(ps@),
                        0 <= i <= ps@.len(),
                        out@ == o0 + draw_entries(psv, w, i as nat),
                    decreases ps@.len() - i,
                {
                    let e = ps[i].0;
                    proof {
                        lemma_get_view(store@, Kind::Body, e);
                        lemma_get_view(store@, Kind::GameState, e);
                    }
                    let mut cells: Vec<Cell> = Vec::new();
                    match &ps[i].1 {
                        Component::Position(p) => match store.get(e, Kind::Body) {
                            Some(Component::Body(body)) => match store.get(e, Kind::GameState) {
                                Some(Component::GameState(gs)) => {
                                    cells = draw(body, p, &gs.window_size);
                                },
                                _ => {},
                            },
                            _ => {},
                        },
                        _ => {},
                    }
                    assert(cells@ == entity_cells(
                        psv[i as int].1,
                        store_get(w, Kind::Body, e),
                        store_get(w, Kind::GameState, e),
                    ));
                    let ghost before = out@;
                    out.append(&mut cells);
                    assert(draw_entries(psv, w, (i + 1) as nat) == draw_entries(psv, w, i as nat) + entity_cells(
                        psv[i as int].1,
                        store_get(w, Kind::Body, e),
                        store_get(w, Kind::GameState, e),
                    ));
                    assert(out@ =~= o0 + draw_entries(psv, w, (i + 1) as nat));
                    i = i + 1;
                }
            },
            None => {
                assert(out@ =~= o0 + draw_system_spec(w));
            },
        }
    }
}

impl ISystem for DrawSystem {
    fn update(&mut self, store: &mut ComponentStore, input: Option<char>, out: &mut Vec<Cell>)
        ensures
            final(store)@ == old(store)@,
            final(out)@ == old(out)@ + draw_system_spec(store_view(old(store)@)),
    {
        self.run(store, out);
    }
}

} // verus!
