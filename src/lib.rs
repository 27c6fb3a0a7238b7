//! The float-free core of a Whitted-style sphere ray tracer: the sub-pixel
//! sample patterns, the decisions that drive one bounce of the recursive
//! tracer, and the assembly of independently computed pixels into a grid.

pub mod grid;
pub mod sampling;
pub mod tracer;

pub use grid::assemble_grid;
pub use sampling::{SamplePattern, OFFSET_SCALE};
pub use tracer::{bounce_depth, in_shadow, light_contributes, nearest_hit, MAX_DEPTH};
