//! A single-band parametric equaliser on fixed-point samples.
//!
//! `band` derives the coefficients of a second-order section from a shape,
//! a frequency, a gain and a quality factor; `equaliser` runs the section
//! over a multi-channel stream and keeps its history from block to block.
//! All numbers are fixed-point values with 32 fractional bits (`fixed`).
pub mod band;
pub mod equaliser;
pub mod fixed;
pub mod trig;

pub use band::{BandParams, FilterCoeffs, FilterTypes};
pub use equaliser::{ChannelHistory, Equaliser, EqualiserParams};
