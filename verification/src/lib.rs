//! An interactive gravitational N-body simulation core: point/sphere masses
//! attract each other under Newtonian gravity, merge on collision conserving
//! momentum and mass, and respond to an external attractor point.
//!
//! All physics runs on exact integer arithmetic (an `i64` fixed-point world),
//! so every step of the engine is deterministic and fully specified: pairwise
//! force accumulation, collision grouping, merge resolution and forward-Euler
//! integration each carry a contract that pins the result down exactly.

pub mod components;
pub mod math;
pub mod planet;
pub mod ui;
