//! A fixed-point 2D particle simulation core: moving circular nodes bounce
//! off the walls of a rectangular world, and a visibility graph of lines is
//! derived from the node positions, each line's strength decaying linearly
//! with distance.

pub mod config;
pub mod geometry;
pub mod line;
pub mod node;
pub mod rng;
pub mod world;
