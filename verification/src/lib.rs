//! A kinematic collide-and-slide character movement library.
//!
//! The library resolves a body's desired motion against static terrain:
//! it repeatedly casts the body's collider along the remaining velocity,
//! stops at the first obstruction, redirects the remainder tangent to the
//! contact surface, and repeats until the motion is spent or an iteration
//! budget is hit.  A separate downward probe classifies the body as grounded
//! or airborne by the slope of the surface beneath it.
//!
//! All geometry is carried in fixed-point micro-units: an `i64` coordinate
//! holds one millionth of a world unit.  Every operation, including the
//! rounding that the fixed grid forces, is specified exactly, so contracts
//! pin down results to the bit.

pub mod collider;
pub mod controller;
pub mod fixed;
pub mod ground;
pub mod solver;
pub mod vec3;
pub mod world;
