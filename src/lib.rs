//! A small entity-component-system runtime for terminal games.
//!
//! Entities are plain identifiers, components are data of a fixed set of
//! kinds held in a store keyed by kind and then by entity, and systems are
//! state transforms over that store, run once per tick in registration order.

pub mod assoc;
pub mod entity;
pub mod components;
pub mod store;
pub mod query;
pub mod render;
pub mod systems;
pub mod world;

pub use components::{Body, Component, GameState, IComponent, KeyState, Kind, Position, Velocity};
pub use entity::Entity;
pub use render::{Cell, draw, fit_window};
pub use store::ComponentStore;
pub use systems::{DrawSystem, HandleEventsSystem, ISystem, MovementSystem, PlayerSystem};
pub use world::{Frame, System, World};
