//! Simulation-support core of a 3D space game, verified with Verus.
//!
//! Two subsystems carry the logic:
//!  - collider synthesis: locating collision-hull nodes in a loaded scene
//!    graph, extracting their mesh geometry into world space, validating it,
//!    caching one compound shape per scene asset, and attaching copies of
//!    that shape to freshly spawned scene instances;
//!  - weapon fire scheduling: turning a per-entity fire-intent latch plus a
//!    variable frame step into the exact sequence of owed spawn events.
//!
//! All quantities are integers: positions and transforms are fixed-point
//! coordinates, time is in integer time units (microseconds fit well).
//! The game engine around this core (rendering, ECS scheduling, asset
//! loading, rigid-body integration) works in floating point and stays
//! outside; it exchanges plain integer values with this library.

pub mod cache;
pub mod geometry;
pub mod math;
pub mod names;
pub mod scene;
pub mod shape;
pub mod synthesis;
pub mod weapon;
