//! A gated linear network: a layered online-learning predictor whose neurons
//! are logistic mixers with weights selected by half-space gates.
//!
//! All probabilities, weights and gradients are fixed-point numbers
//! ([`utils::math::Fx`], signed, in units of 2^-24), so that every arithmetic
//! step has an exact, machine-checked contract.

pub mod model;
pub mod optimize;
pub mod utils;

