//! Header-only reading: batches whose records are stepped over, not decoded.

use vstd::prelude::*;
use crate::codec::error::DecodeError;
use crate::codec::reader::ByteReader;
use crate::codec::traits::{Decoder, Encoder, Version};
use crate::storage::batch::BatchRecords;
use crate::storage::record::RecordView;
use crate::storage::stream::{FileBatchPos, FileBatchStream};

verus! {

/// A stream that yields batch headers with their positions.
pub type BatchHeaderStream = FileBatchStream<FileEmptyRecords>;

/// One batch header with its position.
pub type BatchHeaderPos = FileBatchPos<FileEmptyRecords>;

/// The records of a batch that was read for its header alone: none.
#[derive(Debug, Clone, Copy, PartialEq, Eq, Structural)]
pub struct FileEmptyRecords {}

impl DeepView for FileEmptyRecords {
    type V = ();

    open spec fn deep_view(&self) -> () {
        ()
    }
}

impl Default for FileEmptyRecords {
    fn default() -> (r: Self) {
        FileEmptyRecords {  }
    }
}

impl BatchRecords for FileEmptyRecords {
    open spec fn wanted(remainder: nat) -> nat {
        0
    }

    proof fn lemma_wanted(remainder: nat) {
    }

    open spec fn seen(records: Seq<RecordView>) -> () {
        ()
    }

    proof fn lemma_reads_back(records: Seq<RecordView>, version: Version) {
    }

    fn remainder_bytes(&self, _remainder: usize) -> (n: usize) {
        0
    }
}

impl Encoder for FileEmptyRecords {
    open spec fn encoding(v: (), version: Version) -> Seq<u8> {
        Seq::empty()
    }

    open spec fn encodable(v: (), version: Version) -> bool {
        true
    }

    fn write_size(&self, _version: Version) -> (n: usize) {
        0
    }

    fn encode(&self, dest: &mut Vec<u8>, _version: Version) {
        assert(dest@ =~= old(dest)@ + Seq::<u8>::empty());
    }
}

impl Decoder for FileEmptyRecords {
    open spec fn decoding(src: Seq<u8>, version: Version) -> Result<((), nat), DecodeError> {
        Ok(((), 0nat))
    }

    open spec fn failure_at(src: Seq<u8>, version: Version) -> nat {
        0
    }

    fn decode(&mut self, src: &mut ByteReader<'_>, _version: Version) -> (r: Result<
        (),
        DecodeError,
    >) {
        proof {
            use_type_invariant(&*src);
            assert(src.rest() =~= src.rest().skip(0));
        }
        Ok(())
    }

    proof fn lemma_decoding_in_bounds(src: Seq<u8>, version: Version) {
    }

    proof fn lemma_round_trip(v: (), version: Version, tail: Seq<u8>) {
    }
}

} // verus!
