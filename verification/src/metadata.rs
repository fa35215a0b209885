//! What the control plane keeps about the cluster: the things a user can ask
//! it to create.

pub mod topic;
pub mod spu;
pub mod spg;
pub mod connector;
