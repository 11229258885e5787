//! A verified ray-casting renderer for scenes of spheres under
//! ambient, point and directional lighting.
//!
//! All scalar quantities (coordinates, radii, intensities, ray
//! parameters) are fixed-point numbers: an `i64` holding the value
//! times [`fixed::SCALE`]. Every arithmetic step is specified exactly
//! over mathematical integers, so the whole pipeline, from canvas
//! coordinates to the final RGBA grid, has a deterministic contract.

pub mod color;
pub mod fixed;
pub mod light;
pub mod render;
pub mod vector;
