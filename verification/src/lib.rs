//! Langton's ant on a bounded square grid: the stepping rule, lockstep
//! simulation of several ants, and rasterisation of their grids into a
//! packed-RGB framebuffer at an integer zoom.

pub mod direction;
pub mod random;
pub mod ant;
pub mod simulation;
pub mod render;
pub mod driver;
