//! A grid-world simulation of autonomous robots that explore terrain under
//! fog-of-war and carry two kinds of resources back to a home base.

pub mod world;
pub mod movement;
pub mod exploration;
pub mod collection;
pub mod simulation;
pub mod terrain;
pub mod render;
