//! A laser puzzle on a grid of pads: beams enter from the boundary, bend
//! around raised pads, and must end on targets of their own colour.

pub mod board;
pub mod laws;
pub mod level;
pub mod puzzle;
pub mod render;
pub mod tracer;
