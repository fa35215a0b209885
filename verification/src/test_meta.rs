//! What a test of a running cluster declares about itself, and the names
//! under which its generated functions are registered.

pub mod names;
pub mod requirements;
pub mod options;
