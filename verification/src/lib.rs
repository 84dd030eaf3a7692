//! Discrete approximation of a three-dimensional Cantor-dust fractal.
//!
//! The library enumerates the integer lattice cube `[0, 3^n)^3`, keeps the
//! points whose base-3 digit expansion never shows the "middle third" digit
//! on two axes at the same recursion level, and expands each kept point into
//! its eight unit-cube corner vertices, deduplicating shared corners.
//!
//! All coordinate arithmetic is exact integer arithmetic: the membership test
//! is a base-3 digit classification, and vertex coordinates are held in
//! half-unit steps (twice the geometric value), so the `±0.5` corner offsets
//! are odd integers.

mod point;
mod membership;
mod lattice;
mod vertex;
mod pipeline;

pub use point::Point3;
pub use point::Vertex;
pub use point::MAX_COORD;
pub use membership::is_condition_met;
pub use membership::are_at_least_two_positive;
pub use membership::keep_point;
pub use lattice::generate_lattice_conc;
pub use lattice::lattice_slice;
pub use vertex::generate_vertices;
pub use pipeline::generate_fractal;
