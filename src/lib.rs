//! Simulation core of a grid-based dungeon crawler: level generation,
//! field of view with fog of war, and movement with collisions.

pub mod geometry;
pub mod map;
pub mod dungeon;
pub mod entity;
pub mod fov;
pub mod game;
pub mod random;
