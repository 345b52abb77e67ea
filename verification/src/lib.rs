//! Reads the damage numeral out of a captured screen region: colour
//! thresholding, morphological clean-up, region-of-interest extraction and
//! parsing of the recognised text, under a fail-soft policy.

pub mod bitmap;
pub mod capture;
pub mod color;
pub mod error;
pub mod morph;
pub mod pipeline;
pub mod raster;
pub mod recognize;
pub mod roi;
pub mod shape;

pub use crate::pipeline::read_damage;
