//! The administrative requests that clients send to the control plane.

pub mod create;
pub mod status;
pub mod request;
pub mod outcome;
pub mod message;
