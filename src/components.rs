//! The component kinds: plain data attached to entities.
use vstd::prelude::*;
use crate::assoc::{assoc_lookup, assoc_put, has_key, index_of, keys_unique, lemma_lookup_at, lemma_put, lemma_same_keys};

verus! {

/// A position on the screen grid, in cells.
#[derive(Debug, Clone, Copy, PartialEq, Eq, Structural)]
pub struct Position {
    pub x: i32,
    pub y: i32,
}

impl Position {
    pub fn new(x: i32, y: i32) -> (r: Position)
        ensures
            r.x == x,
            r.y == y,
    {
        Position { x, y }
    }
}

/// A displacement per tick, in cells.
#[derive(Debug, Clone, Copy, PartialEq, Eq, Structural)]
pub struct Velocity {
    pub vx: i32,
    pub vy: i32,
}

impl Velocity {
    pub fn new(vx: i32, vy: i32) -> (r: Velocity)
        ensures
            r.vx == vx,
            r.vy == vy,
    {
        Velocity { vx, vy }
    }
}

/// The glyphs an entity is drawn with, as rows of characters.
#[derive(Debug)]
pub struct Body {
    pub mat: Vec<Vec<char>>,
}

/// The glyph grid of a body, as nested sequences.
pub open spec fn body_rows(b: Body) -> Seq<Seq<char>> {
    b.mat@.map_values(|row: Vec<char>| row@)
}

impl Body {
    pub fn new(mat: Vec<Vec<char>>) -> (r: Body)
        ensures
            r.mat == mat,
    {
        Body { mat }
    }

    /// Width (length of the first row, 0 when there are no rows) and height
    /// (number of rows), as `i32`.
    pub fn size(&self) -> (r: (i32, i32))
        ensures
            r.1 == self.mat@.len() as i32,
            r.0 == (if self.mat@.len() == 0 {
                0
            } else {
                self.mat@[0]@.len() as i32
            }),
    {
        let body_height = self.mat.len() as i32;
        let body_width = if self.mat.len() == 0 {
            0
        } else {
            self.mat[0].len() as i32
        };
        (body_width, body_height)
    }
}

/// Which keys are marked pressed: one mark per key, in the order the keys
/// were first seen.
#[derive(Debug)]
pub struct KeyState {
    keys: Vec<(char, bool)>,
}

impl View for KeyState {
    type V = Seq<(char, bool)>;

    closed spec fn view(&self) -> Seq<(char, bool)> {
        self.keys@
    }
}

/// `key` is marked pressed in `marks`.
pub open spec fn key_pressed(marks: Seq<(char, bool)>, key: char) -> bool {
    assoc_lookup(marks, key) == Some(true)
}

/// `marks` with every mark cleared.
pub open spec fn released(marks: Seq<(char, bool)>) -> Seq<(char, bool)> {
    marks.map_values(|p: (char, bool)| (p.0, false))
}

/// Position of `key` in `keys`, if it is there.
fn find_key(keys: &Vec<(char, bool)>, key: char) -> (r: Option<usize>)
    requires
        keys_unique(keys@),
    ensures
        match r {
            Some(i) => i < keys@.len() && keys@[i as int].0 == key && index_of(keys@, key) == i,
            None => !has_key(keys@, key),
        },
{
    let mut i: usize = 0;
    while i < keys.len()
        invariant
            0 <= i <= keys@.len(),
            keys_unique(keys@),
            forall|j: int| 0 <= j < i ==> keys@[j].0 != key,
        decreases keys@.len() - i,
    {
        if keys[i].0 == key {
            proof {
                lemma_lookup_at(keys@, i as int);
            }
            return Some(i);
        }
        i = i + 1;
    }
    None
}

impl KeyState {
    /// No key appears twice.
    #[verifier::type_invariant]
    closed spec fn wf(&self) -> bool {
        keys_unique(self.keys@)
    }

    pub fn new() -> (r: KeyState)
        ensures
            r@.len() == 0,
    {
        KeyState { keys: Vec::new() }
    }

    /// Marks `key` as pressed or not; a key seen for the first time is
    /// appended.
    pub fn update_key_state(&mut self, key: char, pressed: bool)
        ensures
            final(self)@ == assoc_put(old(self)@, key, pressed),
            forall|k: char| #[trigger] assoc_lookup(final(self)@, k) == if k == key {
                Some(pressed)
            } else {
                assoc_lookup(old(self)@, k)
            },
    {
        proof {
            use_type_invariant(&*self);
        }
        let mut keys = Vec::new();
        std::mem::swap(&mut keys, &mut self.keys);
        let ghost k0 = keys@;
        proof {
            lemma_put(k0, key, pressed);
        }
        match find_key(&keys, key) {
            Some(i) => {
                keys.set(i, (key, pressed));
            },
            None => {
                keys.push((key, pressed));
            },
        }
        *self = KeyState { keys };
    }

    /// Whether `key` is marked pressed; an unseen key is not.
    pub fn is_key_pressed(&self, key: char) -> (r: bool)
        ensures
            r == key_pressed(self@, key),
    {
        proof {
            use_type_invariant(self);
        }
        match find_key(&self.keys, key) {
            Some(i) => {
                proof {
                    lemma_lookup_at(self.keys@, i as int);
                }
                self.keys[i].1
            },
            None => false,
        }
    }

    /// Clears every mark: each known key stays known and reads not pressed.
    pub fn release_all(&mut self)
        ensures
            final(self)@ == released(old(self)@),
            forall|k: char| !key_pressed(#[trigger] released(old(self)@), k),
    {
        proof {
            use_type_invariant(&*self);
        }
        let mut keys = Vec::new();
        std::mem::swap(&mut keys, &mut self.keys);
        let ghost k0 = keys@;
        let ghost target = released(k0);
        let mut i: usize = 0;
        while i < keys.len()
            invariant
                0 <= i <= keys@.len(),
                keys@.len() == k0.len(),
                target == released(k0),
                forall|j: int| 0 <= j < i ==> keys@[j] == target[j],
                forall|j: int| i <= j < keys@.len() ==> keys@[j] == k0[j],
            decreases keys@.len() - i,
        {
            let k = keys[i].0;
            keys.set(i, (k, false));
            i = i + 1;
        }
        assert(keys@ =~= target);
        proof {
            lemma_same_keys(k0, keys@);
            assert forall|k: char| !key_pressed(#[trigger] released(k0), k) by {
                if has_key(target, k) {
                    lemma_lookup_at(target, index_of(target, k));
                }
            }
        }
        *self = KeyState { keys };
    }
}

/// Whole-game flags and the size of the work area.
#[derive(Debug, Clone, Copy)]
pub struct GameState {
    pub running: bool,
    pub paused: bool,
    /// Ticks per second the game is paced at.
    pub delta_time: u32,
    /// Ticks elapsed.
    pub time: u64,
    pub window_size: (u16, u16),
}

impl GameState {
    pub fn new() -> (r: GameState)
        ensures
            r.running,
            !r.paused,
            r.delta_time == 60,
            r.time == 0,
            r.window_size == (32u16, 9u16),
    {
        GameState { running: true, paused: false, delta_time: 60, time: 0, window_size: (32, 9) }
    }
}

/// The kinds of component; the store keeps one bucket per kind.
#[derive(Debug, Clone, Copy, PartialEq, Eq, Hash, Structural)]
pub enum Kind {
    Position,
    Velocity,
    Body,
    KeyState,
    GameState,
}

/// A component of any kind.
#[derive(Debug)]
pub enum Component {
    Position(Position),
    Velocity(Velocity),
    Body(Body),
    KeyState(KeyState),
    GameState(GameState),
}

/// The value of a component, with its sequences taken by their contents.
pub enum ComponentView {
    Position(Position),
    Velocity(Velocity),
    Body(Seq<Seq<char>>),
    KeyState(Seq<(char, bool)>),
    GameState(GameState),
}

impl View for Component {
    type V = ComponentView;

    open spec fn view(&self) -> ComponentView {
        match self {
            Component::Position(p) => ComponentView::Position(*p),
            Component::Velocity(v) => ComponentView::Velocity(*v),
            Component::Body(b) => ComponentView::Body(body_rows(*b)),
            Component::KeyState(k) => ComponentView::KeyState(k@),
            Component::GameState(g) => ComponentView::GameState(*g),
        }
    }
}

impl Component {
    pub open spec fn spec_kind(&self) -> Kind {
        match self {
            Component::Position(_) => Kind::Position,
            Component::Velocity(_) => Kind::Velocity,
            Component::Body(_) => Kind::Body,
            Component::KeyState(_) => Kind::KeyState,
            Component::GameState(_) => Kind::GameState,
        }
    }

    pub fn kind(&self) -> (r: Kind)
        ensures
            r == self.spec_kind(),
    {
        match self {
            Component::Position(_) => Kind::Position,
            Component::Velocity(_) => Kind::Velocity,
            Component::Body(_) => Kind::Body,
            Component::KeyState(_) => Kind::KeyState,
            Component::GameState(_) => Kind::GameState,
        }
    }
}

/// A value that can be attached to an entity as a component: each such type
/// is one kind.
pub trait IComponent: Sized {
    /// The kind of this type's components.
    spec fn kind_of() -> Kind;

    /// The component this value becomes.
    spec fn as_component(&self) -> Component;

    /// The component a value becomes is of this type's kind.
    proof fn lemma_kind(v: &Self)
        ensures
            v.as_component().spec_kind() == Self::kind_of(),
    ;

    fn kind() -> (r: Kind)
        ensures
            r == Self::kind_of(),
    ;

    fn into_component(self) -> (r: Component)
        ensures
            r == self.as_component(),
    ;

    /// Mutable access to the value inside a component of this type's kind;
    /// what is written through it becomes the component.
    fn downcast_mut(c: &mut Component) -> (r: Option<&mut Self>)
        ensures
            match r {
                Some(v) => *old(c) == v.as_component() && *final(c) == final(v).as_component(),
                None => old(c).spec_kind() != Self::kind_of() && *final(c) == *old(c),
            },
    ;
}

impl IComponent for Position {
    open spec fn kind_of() -> Kind {
        Kind::Position
    }

    open spec fn as_component(&self) -> Component {
        Component::Position(*self)
    }

    proof fn lemma_kind(v: &Self) {
    }

    fn kind() -> (r: Kind) {
        Kind::Position
    }

    fn into_component(self) -> (r: Component) {
        Component::Position(self)
    }

    fn downcast_mut(c: &mut Component) -> (r: Option<&mut Self>) {
        match c {
            Component::Position(v) => Some(v),
            _ => None,
        }
    }
}

impl IComponent for Velocity {
    open spec fn kind_of() -> Kind {
        Kind::Velocity
    }

    open spec fn as_component(&self) -> Component {
        Component::Velocity(*self)
    }

    proof fn lemma_kind(v: &Self) {
    }

    fn kind() -> (r: Kind) {
        Kind::Velocity
    }

    fn into_component(self) -> (r: Component) {
        Component::Velocity(self)
    }

    fn downcast_mut(c: &mut Component) -> (r: Option<&mut Self>) {
        match c {
            Component::Velocity(v) => Some(v),
            _ => None,
        }
    }
}

impl IComponent for Body {
    open spec fn kind_of() -> Kind {
        Kind::Body
    }

    open spec fn as_component(&self) -> Component {
        Component::Body(*self)
    }

    proof fn lemma_kind(v: &Self) {
    }

    fn kind() -> (r: Kind) {
        Kind::Body
    }

    fn into_component(self) -> (r: Component) {
        Component::Body(self)
    }

    fn downcast_mut(c: &mut Component) -> (r: Option<&mut Self>) {
        match c {
            Component::Body(v) => Some(v),
            _ => None,
        }
    }
}

impl IComponent for KeyState {
    open spec fn kind_of() -> Kind {
        Kind::KeyState
    }

    open spec fn as_component(&self) -> Component {
        Component::KeyState(*self)
    }

    proof fn lemma_kind(v: &Self) {
    }

    fn kind() -> (r: Kind) {
        Kind::KeyState
    }

    fn into_component(self) -> (r: Component) {
        Component::KeyState(self)
    }

    fn downcast_mut(c: &mut Component) -> (r: Option<&mut Self>) {
        match c {
            Component::KeyState(v) => Some(v),
            _ => None,
        }
    }
}

impl IComponent for GameState {
    open spec fn kind_of() -> Kind {
        Kind::GameState
    }

    open spec fn as_component(&self) -> Component {
        Component::GameState(*self)
    }

    proof fn lemma_kind(v: &Self) {
    }

    fn kind() -> (r: Kind) {
        Kind::GameState
    }

    fn into_component(self) -> (r: Component) {
        Component::GameState(self)
    }

    fn downcast_mut(c: &mut Component) -> (r: Option<&mut Self>) {
        match c {
            Component::GameState(v) => Some(v),
            _ => None,
        }
    }
}

} // verus!
