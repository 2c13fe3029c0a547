//! Verified flocking ("boid") steering.
//!
//! Each agent keeps two neighbor sets, maintained by enter/exit events from
//! the host's spatial detection, and once per physics tick combines four
//! steering rules (separation, alignment, cohesion, boundary containment)
//! into a speed-clamped velocity. Positions, velocities and speeds are
//! integer world units; the host engine owns rendering, detection and
//! collision response and talks to this crate through plain values.

pub mod math;
pub mod vec2;
pub mod boid;
