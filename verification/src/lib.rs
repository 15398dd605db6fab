//! Collision detection and tracking for a tick-driven 2D game.
//!
//! Each entity may carry an axis-aligned rectangular collision volume with a
//! category, a mask of categories it is willing to collide with, and an
//! expiry timer. Once per simulation tick the lifecycle manager advances the
//! timers and prunes expired one-shot volumes, and the overlap resolver tests
//! every unordered pair of surviving volumes and maintains each volume's
//! "currently colliding" and "just stopped colliding" identity sets.

pub mod idset;
pub mod laws;
pub mod lifecycle;
pub mod mask;
pub mod resolver;
pub mod shape;
pub mod timer;
