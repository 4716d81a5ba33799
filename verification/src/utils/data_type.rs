//! Shorthand index types used across the network.

use vstd::prelude::*;

verus! {

/// Index of a gate context: the half-space signature read as a binary number.
pub type ContextIndex = usize;

/// Position of a neuron inside its layer.
pub type NeuronId = usize;

/// Position of a layer inside the network.
pub type LayerId = usize;

} // verus!
