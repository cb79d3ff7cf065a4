//! Boundary extraction from scalar density grids and a constrained particle
//! chain, both over fixed-point integers.
//!
//! * [`point`] holds the fixed-size numeric tuple used for grid coordinates
//!   and world positions.
//! * [`marching_squares`] holds the grid, the density field and the
//!   marching-squares extractor.
//! * [`chain`] holds the chain solver: Verlet integration, distance
//!   relaxation and the bounding clamp.
//! * [`arith`] holds the rounding divisions and the integer square root that
//!   the other modules share.
//!
//! A floating-point caller picks a unit, such as 1/1024 of a pixel, hands
//! every length over as a whole number of units, and divides what it gets
//! back.
pub mod arith;
pub mod chain;
pub mod marching_squares;
pub mod point;
