//! Control-plane library for driving an amp-sim plugin inside a DAW: wire types,
//! the parameter pipeline, instance discovery, metadata probing and session rules.
//!
//! Normalized parameter values are fixed-point integers in millionths
//! (`0..=SCALE` stands for `0.0..=1.0`); physical values parsed from text use
//! the same scale.

pub mod text;
pub mod protocol;
pub mod number;
pub mod inversion;
pub mod cleaner;
pub mod remap;
pub mod diff;
pub mod value_resolver;
pub mod probe;
pub mod resolver;
pub mod session;
pub mod client;
pub mod consistency;
