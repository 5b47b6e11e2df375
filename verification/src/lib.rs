//! Combinatorial core of a 2D square-packing simulation: which squares,
//! handles, vertices and edges exist, in which order they are visited, how a
//! square's boundary is traversed, and where contact impulses are routed.
//! The geometry itself (floating-point coordinates) lives in the application.

pub mod sim;
pub mod square;
