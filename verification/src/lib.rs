//! Core of a learned-index compiler: the data model for training inputs,
//! model parameter records with their binary encoding, and the Pareto-based
//! autotuner that selects size/accuracy-efficient model configurations.
//!
//! Floating-point quantities (fitted coefficients, log2 error statistics) are
//! carried through this crate as their IEEE-754 binary64 bit patterns, so that
//! every rule about them can be stated and checked over plain integers.  The
//! float-facing shims live outside the verified core.

pub mod artifact;
pub mod data;
pub mod model;
pub mod train;
pub mod optimizer;
pub mod floatbits;
pub mod params;
