use termunator::{
    draw, fit_window, Body, Cell, Component, DrawSystem, Entity, GameState, HandleEventsSystem, KeyState,
    Kind, MovementSystem, PlayerSystem, Position, System, Velocity, World,
};

fn position_of(world: &World, e: Entity) -> Option<(i32, i32)> {
    match world.get_component(e, Kind::Position) {
        Some(Component::Position(p)) => Some((p.x, p.y)),
        _ => None,
    }
}

fn pressed(world: &World, e: Entity, key: char) -> bool {
    match world.get_component(e, Kind::KeyState) {
        Some(Component::KeyState(ks)) => ks.is_key_pressed(key),
        _ => panic!("no key state"),
    }
}

#[test]
fn entity_ids_are_assigned_in_order() {
    let mut world = World::new();
    let a = world.create_entity();
    let b = world.create_entity();
    assert_eq!(a, Entity::new(0));
    assert_eq!(b.id, 1);
    assert_ne!(a, b);
}

#[test]
fn get_reflects_last_add_or_remove() {
    let mut world = World::new();
    let e = world.create_entity();
    assert!(position_of(&world, e).is_none());
    world.add_component(e, Position::new(1, 2));
    assert_eq!(position_of(&world, e), Some((1, 2)));
    world.add_component(e, Position::new(3, 4));
    assert_eq!(position_of(&world, e), Some((3, 4)));
    world.remove_component(e, Kind::Position);
    assert!(position_of(&world, e).is_none());
    world.add_component(e, Position::new(5, 6));
    assert_eq!(position_of(&world, e), Some((5, 6)));
}

#[test]
fn removing_absent_component_is_noop() {
    let mut world = World::new();
    let e = world.create_entity();
    let f = world.create_entity();
    world.remove_component(e, Kind::Velocity);
    world.add_component(f, Velocity::new(1, 1));
    world.remove_component(e, Kind::Velocity);
    assert!(world.get_component(e, Kind::Velocity).is_none());
    assert!(matches!(world.get_component(f, Kind::Velocity), Some(Component::Velocity(v)) if v.vx == 1 && v.vy == 1));
}

#[test]
fn first_registration_wins() {
    let mut world = World::new();
    let e = world.create_entity();
    world.add_component(e, Position::new(0, 0));
    world.add_component(e, Velocity::new(2, 3));
    world.add_system("logic", System::Movement(MovementSystem::new()));
    world.add_system("logic", System::Player(PlayerSystem::new()));
    world.update(60, None);
    // the player system would not move without a pressed key
    assert_eq!(position_of(&world, e), Some((2, 3)));
}

#[test]
fn removing_systems() {
    let mut world = World::new();
    let e = world.create_entity();
    world.add_component(e, Position::new(0, 0));
    world.add_component(e, Velocity::new(1, 1));
    world.add_system("movement", System::Movement(MovementSystem::new()));
    world.remove_system(String::from("absent"));
    world.update(60, None);
    assert_eq!(position_of(&world, e), Some((1, 1)));
    world.remove_system(String::from("movement"));
    world.update(60, None);
    assert_eq!(position_of(&world, e), Some((1, 1)));
}

#[test]
fn query_returns_exactly_the_intersection() {
    let mut world = World::new();
    let a = world.create_entity();
    let b = world.create_entity();
    let c = world.create_entity();
    world.add_component(a, Position::new(1, 1));
    world.add_component(b, Position::new(2, 2));
    world.add_component(b, Velocity::new(3, 3));
    world.add_component(c, Velocity::new(4, 4));
    world.add_component(a, Velocity::new(5, 5));
    let pv = world.query_components(&[Kind::Position, Kind::Velocity]);
    let ids: Vec<u32> = pv.iter().map(|r| r.0.id).collect();
    assert_eq!(ids, vec![a.id, b.id]);
    assert_eq!(pv[0].1.len(), 2);
    assert!(matches!(pv[0].1[0], Component::Position(p) if p.x == 1));
    assert!(matches!(pv[0].1[1], Component::Velocity(v) if v.vx == 5));
    let vp = world.query_components(&[Kind::Velocity, Kind::Position]);
    let mut ids2: Vec<u32> = vp.iter().map(|r| r.0.id).collect();
    assert_eq!(ids2, vec![b.id, a.id]);
    ids2.sort();
    assert_eq!(ids2, vec![a.id, b.id]);
    assert!(matches!(vp[0].1[0], Component::Velocity(v) if v.vx == 3));
}

#[test]
fn query_edge_cases() {
    let mut world = World::new();
    let a = world.create_entity();
    world.add_component(a, Position::new(1, 1));
    assert!(world.query_components(&[]).is_empty());
    assert!(world.query_components(&[Kind::Body]).is_empty());
    assert!(world.query_components(&[Kind::Position, Kind::Body]).is_empty());
    assert_eq!(world.query_components(&[Kind::Position]).len(), 1);
}

#[test]
fn query_single_kind_in_insertion_order() {
    let mut world = World::new();
    let a = world.create_entity();
    let b = world.create_entity();
    world.add_component(b, Position::new(7, 7));
    world.add_component(a, Position::new(8, 8));
    let rows = world.query_component(Kind::Position);
    assert_eq!(rows.len(), 2);
    assert_eq!(rows[0].0, b);
    assert_eq!(rows[1].0, a);
    assert!(world.query_component(Kind::GameState).is_empty());
}

#[test]
fn delete_entity_removes_every_component() {
    let mut world = World::new();
    let e = world.create_entity();
    let f = world.create_entity();
    world.add_component(e, Position::new(1, 1));
    world.add_component(e, Velocity::new(1, 1));
    world.add_component(e, KeyState::new());
    world.add_component(f, Position::new(9, 9));
    world.delete_entity(e);
    assert!(world.get_component(e, Kind::Position).is_none());
    assert!(world.get_component(e, Kind::Velocity).is_none());
    assert!(world.get_component(e, Kind::KeyState).is_none());
    assert_eq!(position_of(&world, f), Some((9, 9)));
}

#[test]
fn movement_adds_velocity_to_position() {
    let mut world = World::new();
    let e = world.create_entity();
    world.add_component(e, Position::new(0, 5));
    world.add_component(e, Velocity::new(1, 1));
    world.add_system("movement", System::Movement(MovementSystem::new()));
    let frame = world.update(60, None);
    assert_eq!(position_of(&world, e), Some((1, 6)));
    assert!(frame.cells.is_empty());
    assert_eq!(frame.frame_millis, 16);
}

#[test]
fn movement_saturates_at_the_integer_range() {
    let mut world = World::new();
    let e = world.create_entity();
    world.add_component(e, Position::new(i32::MAX, i32::MIN));
    world.add_component(e, Velocity::new(1, -1));
    world.add_system("movement", System::Movement(MovementSystem::new()));
    world.update(30, None);
    assert_eq!(position_of(&world, e), Some((i32::MAX, i32::MIN)));
}

#[test]
fn missing_velocity_leaves_entity_unchanged() {
    let mut world = World::new();
    let still = world.create_entity();
    let moving = world.create_entity();
    world.add_component(still, Position::new(3, 3));
    world.add_component(moving, Position::new(0, 0));
    world.add_component(moving, Velocity::new(2, -1));
    world.add_system("movement", System::Movement(MovementSystem::new()));
    world.update(60, None);
    assert_eq!(position_of(&world, still), Some((3, 3)));
    assert_eq!(position_of(&world, moving), Some((2, -1)));
}

#[test]
fn key_press_lasts_one_tick() {
    let mut world = World::new();
    let e = world.create_entity();
    let mut keys = KeyState::new();
    keys.update_key_state('w', true);
    world.add_component(e, keys);
    world.add_system("handle_events", System::HandleEvents(HandleEventsSystem::new()));
    assert!(pressed(&world, e, 'w'));
    world.update(60, None);
    assert!(!pressed(&world, e, 'w'));
    world.update(60, Some('q'));
    assert!(pressed(&world, e, 'q'));
    assert!(!pressed(&world, e, 'w'));
    world.update(60, None);
    assert!(!pressed(&world, e, 'q'));
}

#[test]
fn player_steers_with_pressed_keys() {
    let mut world = World::new();
    let e = world.create_entity();
    world.add_component(e, KeyState::new());
    world.add_component(e, Position::new(10, 10));
    world.add_component(e, Velocity::new(2, 3));
    world.add_system("handle_events", System::HandleEvents(HandleEventsSystem::new()));
    world.add_system("player", System::Player(PlayerSystem::new()));
    world.update(60, Some('d'));
    assert_eq!(position_of(&world, e), Some((12, 10)));
    world.update(60, Some('w'));
    assert_eq!(position_of(&world, e), Some((12, 7)));
    world.update(60, None);
    assert_eq!(position_of(&world, e), Some((12, 7)));
}

#[test]
fn two_runs_give_identical_results() {
    let run = || {
        let mut world = World::new();
        let a = world.create_entity();
        let b = world.create_entity();
        world.add_component(a, Position::new(1, 2));
        world.add_component(a, Velocity::new(3, 4));
        world.add_component(b, Position::new(-5, 0));
        world.add_component(b, Velocity::new(1, 0));
        world.add_component(a, KeyState::new());
        world.add_system("handle_events", System::HandleEvents(HandleEventsSystem::new()));
        world.add_system("player", System::Player(PlayerSystem::new()));
        world.add_system("movement", System::Movement(MovementSystem::new()));
        world.update(60, Some('s'));
        (position_of(&world, a), position_of(&world, b))
    };
    let first = run();
    let second = run();
    assert_eq!(first, second);
    assert_eq!(first, (Some((4, 10)), Some((-4, 0))));
}

#[test]
fn draw_system_draws_bodies_in_the_work_area() {
    let mut world = World::new();
    let e = world.create_entity();
    world.add_component(e, Position::new(30, 8));
    world.add_component(e, Body::new(vec![vec!['a', 'b', 'c'], vec!['d', 'e', 'f']]));
    let mut state = GameState::new();
    state.window_size = (32, 9);
    world.add_component(e, state);
    let bare = world.create_entity();
    world.add_component(bare, Position::new(0, 0));
    world.add_system("draw", System::Draw(DrawSystem::new()));
    let frame = world.update(60, None);
    assert_eq!(
        frame.cells,
        vec![Cell { x: 30, y: 8, ch: 'a' }, Cell { x: 31, y: 8, ch: 'b' }]
    );
}

#[test]
fn draw_clips_outside_cells() {
    let body = Body::new(vec![vec!['O'; 3]; 2]);
    let inside = draw(&body, &Position::new(14, 5), &(32, 9));
    assert_eq!(inside.len(), 6);
    assert_eq!(inside[0], Cell { x: 14, y: 5, ch: 'O' });
    assert_eq!(inside[5], Cell { x: 16, y: 6, ch: 'O' });
    let clipped = draw(&body, &Position::new(-2, -1), &(32, 9));
    assert_eq!(clipped, vec![Cell { x: 0, y: 0, ch: 'O' }]);
    assert!(draw(&body, &Position::new(40, 0), &(32, 9)).is_empty());
}

#[test]
fn body_size_is_width_then_height() {
    let body = Body::new(vec![vec![' ', '^', '^', ' '], vec!['/', '0', '0', '\\'], vec!['|', '=', '=', '|']]);
    assert_eq!(body.size(), (4, 3));
    assert_eq!(Body::new(vec![]).size(), (0, 0));
}

#[test]
fn key_state_marks() {
    let mut keys = KeyState::new();
    assert!(!keys.is_key_pressed('a'));
    keys.update_key_state('a', true);
    keys.update_key_state('b', false);
    assert!(keys.is_key_pressed('a'));
    assert!(!keys.is_key_pressed('b'));
    keys.update_key_state('a', false);
    assert!(!keys.is_key_pressed('a'));
    keys.update_key_state('b', true);
    keys.release_all();
    assert!(!keys.is_key_pressed('b'));
}

#[test]
fn game_state_defaults() {
    let g = GameState::new();
    assert!(g.running);
    assert!(!g.paused);
    assert_eq!(g.delta_time, 60);
    assert_eq!(g.time, 0);
    assert_eq!(g.window_size, (32, 9));
}

#[test]
fn window_fits_without_scaling() {
    assert_eq!(fit_window(32, 9, 80, 24), (32, 9));
    assert_eq!(fit_window(80, 24, 80, 24), (80, 24));
}

#[test]
fn window_scales_by_the_smaller_ratio() {
    // min(80/100, 24/9) = 0.8: 100 * 0.8 = 80, 9 * 0.8 = 7.2
    assert_eq!(fit_window(100, 9, 80, 24), (80, 7));
    // min(80/40, 24/48) = 0.5
    assert_eq!(fit_window(40, 48, 80, 24), (20, 24));
    assert_eq!(fit_window(0, 30, 80, 24), (0, 24));
}

#[test]
fn mutable_access_replaces_the_component() {
    let mut world = World::new();
    let e = world.create_entity();
    world.add_component(e, Position::new(1, 1));
    if let Some(p) = world.get_component_mut::<Position>(e) {
        p.x = 4;
        p.y = 5;
    }
    assert_eq!(position_of(&world, e), Some((4, 5)));
    assert!(world.get_component_mut::<Velocity>(e).is_none());
    if let Some(keys) = world.get_component_mut::<KeyState>(e) {
        keys.update_key_state('x', true);
    }
    assert!(world.get_component(e, Kind::KeyState).is_none());
}
