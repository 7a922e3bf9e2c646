//! Simulation core of a wrapped-plane asteroid shooter: a single ship turns,
//! thrusts and fires on a toroidal 2D screen while drifting rocks spawn in
//! escalating waves.  The core covers per-tick physics integration, circle
//! collision detection and resolution, projectile lifetime and weapon
//! cooldown management, and the wave/level progression state machine.
//!
//! All quantities are integers: positions and radii in micro-pixels,
//! velocities in micro-pixels per millisecond, angles in micro-radians and
//! times in milliseconds.  Rendering, audio and input live outside the core;
//! the host loop feeds per-tick input and elapsed time in, and reads entity
//! positions, score and events back out.

pub mod collision;
pub mod geom;
pub mod rng;
pub mod physics;
pub mod state;
pub mod tick;
pub mod wave;
pub mod weapon;
