//! A stochastic motor-race simulator whose engine is verified with Verus.
//!
//! Scores, probabilities and times are fixed-point integers: a performance
//! score is in parts per million, coefficients and factors are in
//! thousandths, and times are in nanoseconds. The random draws that the
//! engine consumes are explicit arguments, so a run is a function of its
//! inputs and its draws; the few functions that draw for themselves state
//! what holds whatever the draw.

pub mod text;
pub mod models;
pub mod performance;
pub mod results;
pub mod grid;
pub mod lap;
pub mod incidents;
pub mod race;
pub mod prediction;
pub mod aggregate;
pub mod catalog;
pub mod data;
pub mod historical;
pub mod records;

