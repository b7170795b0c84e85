//! A tick-driven swarm simulation: agents explore a procedurally
//! generated grid, harvest typed resources under role rules, and hand
//! their discoveries to a home station that deduplicates them.

pub mod map;
pub mod rng;
pub mod robot;
pub mod sim;
pub mod station;
