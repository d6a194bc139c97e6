//! A verified firework particle simulation.
//!
//! The crate models a classic terminal fireworks effect: rockets launch
//! from the bottom edge of a surface, rise while gravity slows them, and
//! detonate into a burst of fading colored particles.  The physics
//! integrator, the firework lifecycle, the spawn policy and the color
//! model are all verified; randomness comes from the `pixel_loop` engine
//! environment through narrow trusted wrappers, and drawing is expressed
//! as a verified list of rectangle operations that a thin driver replays
//! onto a real canvas.

pub mod color;
pub mod firework;

pub mod frame;
pub mod fx;
pub mod particle;
pub mod rng;
pub mod state;

