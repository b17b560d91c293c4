//! Core Animation.
pub mod ca_gradient_layer;
