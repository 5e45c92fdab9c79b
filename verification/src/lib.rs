//! A real-time 2D particle physics kernel: circular particles advance under
//! gravity and an optional fan force, bounce off rectangular walls, and resolve
//! pairwise collisions with mass-weighted impulses, pruned by a Z-order
//! locality key. All physical quantities are fixed-point integers (milli-units),
//! so every step is deterministic and every formula is proved exact.
#![verifier::loop_isolation(false)]

pub mod fixed;
pub mod zorder;
pub mod rng;
pub mod particle;
pub mod sim;
pub mod laws;
pub mod mesh;
