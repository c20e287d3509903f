//! Per-step simulation core of a tower-defense game.
//!
//! Units walk a fixed path of waypoints, towers fire at the nearest unit in
//! range, and units that died or reached the end of the path are removed from
//! the entity store.

pub mod actions;
pub mod combat;
pub mod components;
pub mod config;
pub mod geometry;
pub mod motion;
pub mod random;
pub mod simulation;
pub mod spawns;
pub mod store;
pub mod systems;
pub mod targeting;
