//! A decentralized flocking ("boids") simulation core.
//!
//! Agents sense nearby peers through a per-agent neighbor table, steer by
//! cohesion, separation, alignment and optional goal-seeking, and keep their
//! tables fresh through a gossip protocol with loop suppression. All geometry
//! is fixed-point: one spatial unit is `UNIT` ticks of an `i64` coordinate,
//! so every computation here is exact integer arithmetic.

pub mod agent;
pub mod entity;
pub mod message;
pub mod render;
pub mod swarm;
pub mod transform;
pub mod vec3;
