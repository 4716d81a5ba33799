pub mod config;
pub mod context_func;
pub mod gate;
pub mod gln_model;
pub mod layer;
pub mod neuron;
