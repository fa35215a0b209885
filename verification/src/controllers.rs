//! What the controllers of the control plane pass to each other.

pub mod actions;
