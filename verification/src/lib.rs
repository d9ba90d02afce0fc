//! Procedural island terrain in fixed-point arithmetic.
//!
//! Layered gradient noise is sampled over a grid, normalised to the unit
//! interval, optionally shaped into an island by a radial falloff, and turned
//! into pixels. Every real quantity is an `i64` that counts millionths (see
//! [`fixed::ONE`]), so each function has an exact meaning in integers, which
//! its contract states and Verus proves.
//!
//! From the leaves up:
//! - [`fixed`]: fixed-point numbers, smoothstep and interpolation;
//! - [`angle`], [`gradient`]: the direction of a binary angle, and the
//!   gradient vector of that direction;
//! - [`grid`], [`random`]: the tables of `ndarray` and the generator of
//!   `rand`, behind contracts that are taken on trust;
//! - [`layer`], [`perlin_noise`]: one toroidal layer of gradients, and a
//!   weighted stack of layers;
//! - [`continuity`]: why the noise has no seams;
//! - [`falloff`], [`terrain`]: the Gaussian falloff, the elevation grid and
//!   its generation;
//! - [`colour`], [`raster`]: elevation bands and their colours, and the
//!   writers of pixel buffers.

pub mod angle;
pub mod colour;
pub mod continuity;
pub mod falloff;
pub mod fixed;
pub mod gradient;
pub mod grid;
pub mod layer;
pub mod perlin_noise;
pub mod random;
pub mod raster;
pub mod terrain;
