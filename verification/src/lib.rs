//! Wire codec and segmented log storage for a partitioned streaming platform.
//!
//! * `codec`: how values become bytes under a negotiated version, and back.
//! * `storage`: batches of records, the segments that hold them, the writer
//!   of the active segment and the streams that read segments.
//! * `metadata` and `schema`: what can be created in a cluster, and the
//!   request that asks for it.
//! * `cluster`, `controllers`, `test_meta`: what the tools around a cluster
//!   hand to each other.
//!
//! Everything here works on values in memory. Files, sockets and processes
//! are the caller's part: the library says which bytes belong on disk and
//! what a reader makes of the bytes it is shown.

pub mod codec;
pub mod storage;
pub mod cluster;
pub mod metadata;
pub mod schema;
pub mod controllers;
pub mod test_meta;
