//! International Standard Atmosphere (ISA) model up to 50 km.
//!
//! The model computes temperature, pressure and density for a given
//! geopotential altitude from a fixed table of five atmospheric layers,
//! walking the table from the ground up and chaining each layer's output
//! into the next. All quantities are held as scaled integers so that every
//! step of the computation is exact and provable:
//!
//! - temperature in units of 1/10_000 K,
//! - pressure in micropascals (1/1_000_000 Pa),
//! - density in units of 1/1_000_000_000 kg/m^3,
//! - dimensionless ratios (the barometric factors) at scale 10^12.

pub mod layers;
pub mod series;
pub mod model;
pub mod laws;
