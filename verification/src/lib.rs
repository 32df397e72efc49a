//! Coordination core of a small real-time simulation engine.
//!
//! The crate binds an entity/component registry, a resource cache and a
//! double-buffered event bus together, and proves the invariants the rest of
//! the engine leans on: entity ids are never shared by two live entities,
//! component arrays stay aligned, events deferred by a system are redelivered
//! every cycle until each interested system releases them, and a resource is
//! loaded exactly once however many requests race for it.
//!
//! Geometry is carried as fixed-point integers (see [`math`]); the windowing,
//! OpenGL and rigid-body collaborators live outside the crate and exchange
//! plain values with it.

pub mod components;
pub mod draw;
pub mod editor;
pub mod events;
pub mod logs;
pub mod math;
pub mod parser;
pub mod physics_system;
pub mod render_system;
pub mod ui;
pub mod utils;
pub mod world;
