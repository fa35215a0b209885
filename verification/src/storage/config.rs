//! What a log is opened with.

use vstd::prelude::*;
use vstd::string::StringExecFns;
use crate::storage::batch::Size;

verus! {

/// The directory under which logs are kept unless another is named.
pub const DEFAULT_BASE_DIR: &'static str = "/tmp/fluvio";

/// The size, in bytes, at which a segment is sealed unless another is named.
pub const DEFAULT_SEGMENT_MAX_BYTES: Size = 1_073_741_824;

/// The configuration of a log. It is read when the log is opened and is not
/// changed while the log is open.
#[derive(Debug, Clone)]
pub struct ConfigOption {
    /// The directory that holds the segment files of the log.
    pub base_dir: String,
    /// A segment that would grow beyond this many bytes is sealed, and the
    /// next batch opens a new one.
    pub segment_max_bytes: Size,
}

impl Default for ConfigOption {
    fn default() -> (r: Self)
        ensures
            r.base_dir@ == DEFAULT_BASE_DIR@,
            r.segment_max_bytes == DEFAULT_SEGMENT_MAX_BYTES,
    {
        ConfigOption {
            base_dir: String::from_str(DEFAULT_BASE_DIR),
            segment_max_bytes: DEFAULT_SEGMENT_MAX_BYTES,
        }
    }
}

impl ConfigOption {
    /// A configuration with the given directory and segment size.
    pub fn new(base_dir: String, segment_max_bytes: Size) -> (r: Self)
        ensures
            r.base_dir == base_dir,
            r.segment_max_bytes == segment_max_bytes,
    {
        ConfigOption { base_dir, segment_max_bytes }
    }

    /// Whether a segment of `current` bytes must be sealed before a batch of
    /// `incoming` bytes is written: that is so when the segment already holds
    /// something and the batch would take it beyond the configured size.
    pub fn must_roll(&self, current: Size, incoming: Size) -> (b: bool)
        ensures
            b == (current > 0 && current + incoming > self.segment_max_bytes),
    {
        current > 0 && (incoming > self.segment_max_bytes || current > self.segment_max_bytes
            - incoming)
    }
}

} // verus!
