//! An animated Koch-curve-like fractal, held exactly.
//!
//! The core is a geometric recurrence: each regeneration pass turns every
//! triangle of the current generation into two smaller children, until the
//! shape degenerates below a size threshold and resets to the initial
//! triangle.  All coordinates are numbers `(a + b*sqrt(3)) / 6^k`, kept as
//! integer coefficients, so the recurrence and its degeneracy test are exact.
//! Rendering is left to a host shell; this crate computes the shapes and the
//! screen-coordinate conversion rule.

pub mod algebra;
pub mod bignum;
pub mod engine;
pub mod screen;
pub mod triangle;
