//! A generational entity-component-system (ECS) runtime.
//!
//! Entities are cheap generational handles, components are plain values
//! attached to entities under numeric type tags, and systems maintain
//! interest sets: the exact subset of live entities owning every component
//! type the system requires.  An event bus lets systems react to domain
//! events without holding references to each other.

pub mod ecs;
pub mod event_bus;
pub mod renderer;
pub mod components_systems;
