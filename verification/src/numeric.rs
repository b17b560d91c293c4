//! Numbers in text, and floating-point numbers as bit patterns.
pub mod big;
pub mod counting;
pub mod digits;
pub mod float;
pub mod float_laws;
