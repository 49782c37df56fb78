//! Simulation core of a minimalist orbital arcade game: a single player
//! body circles a central gravity well, deflecting drifting obstacles for
//! score until it touches the central hazard. The crate holds the force
//! model, the velocity post-processing, the obstacle spawners, the
//! collision consequences and the three-state lifecycle; rendering, input
//! devices and the collision broad phase are outside collaborators.

pub mod math;
pub mod motion;
pub mod rng;
pub mod session;
pub mod spawn;
