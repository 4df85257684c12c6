//! A wireframe renderer for character terminals, in fixed-point arithmetic.
//!
//! Solids are sets of vertices and edges. Each frame they are rotated,
//! moved along an orbit, projected through a pinhole camera and drawn as
//! shaded lines into a character grid, with a depth grid deciding which
//! line shows where two of them cross. Only the cells that changed since
//! the previous frame are handed on to the display.
//!
//! Quantities that would be real numbers are `i32` counts of millionths
//! (see [`fixed`]); unit vectors count billionths (see [`vector`]). Sines
//! and cosines come from the caller.

pub mod fixed;
pub mod vector;
pub mod grid;
pub mod shade;
pub mod raster;
pub mod config;
pub mod project;
pub mod present;
pub mod scene;
pub mod frame;
