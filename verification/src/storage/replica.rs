//! A log: sealed segments and, after them, the one active segment.
//!
//! Batches go to the active segment. When the next batch would take the
//! active segment beyond the configured size, that segment is sealed, never
//! to be written again, and a new active segment begins at the first offset
//! that the log does not hold yet.

use vstd::prelude::*;
use crate::storage::batch::{Batch, BatchView, MemoryRecords, Offset, Size};
use crate::storage::config::ConfigOption;
use crate::storage::mut_records::{batch_to_bytes, MutFileRecords, StorageError};
use crate::storage::record::RecordView;
use crate::storage::segment::{
    all_well_formed,
    batch_bytes,
    end_offset,
    lemma_end_offset_after_base,
    ordered_from,
    well_formed,
};

verus! {

/// The books of a sealed segment.
#[derive(Debug, Clone, Copy, PartialEq, Eq, Structural)]
pub struct SegmentInfo {
    /// The offset at which the segment begins; it names the segment.
    pub base_offset: Offset,
    /// The first offset after what the segment holds.
    pub end_offset: Offset,
    /// The length of the segment in bytes.
    pub size: Size,
}

/// One segment of a log.
#[derive(Debug, Clone, Copy, PartialEq, Eq, Structural)]
pub enum SegmentId {
    /// The sealed segment with this index, counted from the oldest.
    Sealed(usize),
    /// The active segment.
    Active,
}

/// What the caller has to put on disk after a batch was taken.
#[derive(Debug)]
pub struct Appended {
    /// Whether the batch opened a new segment. If so, the file of the
    /// segment written so far is closed for good, and the bytes go to a new
    /// file, named by the new active segment.
    pub rolled: bool,
    /// The bytes to append to the file of the active segment.
    pub bytes: Vec<u8>,
}

/// What the log seals and what it opens, kept together so that both change
/// at once.
struct Segments {
    sealed: Vec<SegmentInfo>,
    active: MutFileRecords,
    earlier: Ghost<Seq<BatchView<Seq<RecordView>>>>,
}

/// A log of batches in offset order, held in segments.
pub struct FileReplica {
    base_offset: Offset,
    option: ConfigOption,
    segments: Segments,
}

/// Whether each of `sealed` ends where the next begins, the first beginning
/// at `first` and the last ending at `last`.
pub open spec fn contiguous(first: int, sealed: Seq<SegmentInfo>, last: int) -> bool {
    &&& forall|i: int|
        0 <= i < sealed.len() ==> (#[trigger] sealed[i]).base_offset <= sealed[i].end_offset
    &&& forall|i: int|
        0 <= i < sealed.len() - 1 ==> (#[trigger] sealed[i]).end_offset == sealed[i
            + 1].base_offset
    &&& if sealed.len() == 0 {
        first == last
    } else {
        sealed[0].base_offset == first && sealed.last().end_offset == last
    }
}

impl FileReplica {
    /// The offset at which the log begins.
    pub closed spec fn base_offset(&self) -> Offset {
        self.base_offset
    }

    /// The size beyond which a segment is not written.
    pub closed spec fn segment_max_bytes(&self) -> Size {
        self.option.segment_max_bytes
    }

    /// The books of the sealed segments, oldest first.
    pub closed spec fn sealed(&self) -> Seq<SegmentInfo> {
        self.segments.sealed@
    }

    /// The active segment.
    pub closed spec fn active(&self) -> MutFileRecords {
        self.segments.active
    }

    /// The batches in the sealed segments, in order.
    pub closed spec fn earlier(&self) -> Seq<BatchView<Seq<RecordView>>> {
        self.segments.earlier@
    }

    /// All batches of the log, in order.
    pub open spec fn batches(&self) -> Seq<BatchView<Seq<RecordView>>> {
        self.earlier() + self.active().written()
    }

    /// The sealed segments follow each other without gap from the start of
    /// the log to the start of the active segment, and the batches of the
    /// log are well formed and in offset order.
    #[verifier::type_invariant]
    pub open spec fn consistent(self) -> bool {
        &&& contiguous(
            self.base_offset() as int,
            self.sealed(),
            self.active().base_offset() as int,
        )
        &&& all_well_formed(self.earlier())
        &&& ordered_from(self.base_offset() as int, self.earlier())
        &&& self.earlier().len() > 0 ==> self.earlier().last().last_offset()
            < self.active().base_offset()
        &&& self.base_offset() <= self.active().base_offset()
    }

    /// A log that begins at `base_offset` and holds nothing.
    pub fn create(base_offset: Offset, option: ConfigOption) -> (r: Self)
        ensures
            r.base_offset() == base_offset,
            r.segment_max_bytes() == option.segment_max_bytes,
            r.sealed().len() == 0,
            r.batches().len() == 0,
            r.active().base_offset() == base_offset,
            r.active().size() == 0,
    {
        let active = MutFileRecords::create(base_offset, &option);
        proof {
            use_type_invariant(&active);
        }
        FileReplica {
            base_offset,
            option,
            segments: Segments { sealed: Vec::new(), active, earlier: Ghost(Seq::empty()) },
        }
    }

    /// The offset at which the log begins.
    pub fn get_base_offset(&self) -> (r: Offset)
        ensures
            r == self.base_offset(),
    {
        self.base_offset
    }

    /// Shows that the batches of the log, across all its segments, are well
    /// formed and in offset order: each ends before the next begins.
    pub fn in_order(&self)
        ensures
            all_well_formed(self.batches()),
            ordered_from(self.base_offset() as int, self.batches()),
    {
        proof {
            use_type_invariant(self);
            use_type_invariant(&self.segments.active);
            lemma_joined_log(
                self.base_offset as int,
                self.segments.earlier@,
                self.segments.active.base_offset() as int,
                self.segments.active.written(),
            );
        }
    }

    /// The first offset that the log does not hold yet.
    pub fn get_end_offset(&self) -> (r: Offset)
        ensures
            r == self.active().next_offset(),
    {
        self.segments.active.get_end_offset()
    }

    /// The number of sealed segments.
    pub fn sealed_len(&self) -> (n: usize)
        ensures
            n == self.sealed().len(),
    {
        self.segments.sealed.len()
    }

    /// The books of the sealed segment with index `i`.
    pub fn sealed_segment(&self, i: usize) -> (r: Option<SegmentInfo>)
        ensures
            r == if i < self.sealed().len() {
                Some(self.sealed()[i as int])
            } else {
                None
            },
    {
        if i < self.segments.sealed.len() {
            Some(self.segments.sealed[i])
        } else {
            None
        }
    }

    /// The writer of the active segment.
    pub fn active_segment(&self) -> (r: &MutFileRecords)
        ensures
            *r == self.active(),
    {
        &self.segments.active
    }

    /// The segment that holds the record at `offset`, if the log holds it.
    pub fn find_segment(&self, offset: Offset) -> (r: Option<SegmentId>)
        ensures
            match r {
                Some(SegmentId::Sealed(i)) => {
                    &&& i < self.sealed().len()
                    &&& self.sealed()[i as int].base_offset <= offset
                    &&& offset < self.sealed()[i as int].end_offset
                },
                Some(SegmentId::Active) => self.active().base_offset() <= offset
                    < self.active().next_offset(),
                None => offset < self.base_offset() || offset >= self.active().next_offset(),
            },
    {
        proof {
            use_type_invariant(self);
        }
        if offset < self.base_offset {
            return None;
        }
        let mut i: usize = 0;
        while i < self.segments.sealed.len()
            invariant
                i <= self.sealed().len(),
                self.consistent(),
                self.base_offset() <= offset,
                i < self.sealed().len() ==> self.sealed()[i as int].base_offset <= offset,
                i == self.sealed().len() ==> self.active().base_offset() <= offset,
            decreases self.sealed().len() - i,
        {
            let info = self.segments.sealed[i];
            if offset < info.end_offset {
                return Some(SegmentId::Sealed(i));
            }
            i = i + 1;
        }
        if offset < self.segments.active.get_end_offset() {
            Some(SegmentId::Active)
        } else {
            None
        }
    }

    /// Seals the active segment and opens the next one with `batch`, whose
    /// bytes are `bytes`.
    fn roll(&mut self, batch: &Batch<MemoryRecords>, bytes: &Vec<u8>)
        requires
            bytes@ == batch_bytes(batch.deep_view()),
            old(self).active().objection(batch.deep_view()) is None,
        ensures
            final(self).base_offset() == old(self).base_offset(),
            final(self).segment_max_bytes() == old(self).segment_max_bytes(),
            final(self).batches() == old(self).batches().push(batch.deep_view()),
            final(self).sealed() == old(self).sealed().push(
                SegmentInfo {
                    base_offset: old(self).active().base_offset(),
                    end_offset: old(self).active().next_offset(),
                    size: old(self).active().size(),
                },
            ),
            final(self).active().base_offset() == old(self).active().next_offset(),
            final(self).active().next_offset() == batch.deep_view().last_offset() + 1,
            final(self).active().size() == bytes@.len(),
    {
        proof {
            use_type_invariant(&*self);
            use_type_invariant(&self.segments.active);
        }
        let ghost before = self.segments.active;
        let ghost earlier = self.segments.earlier@;
        let ghost b = batch.deep_view();
        let info = SegmentInfo {
            base_offset: self.segments.active.get_base_offset(),
            end_offset: self.segments.active.get_end_offset(),
            size: self.segments.active.get_pos(),
        };
        let mut fresh = MutFileRecords::create(info.end_offset, &self.option);
        fresh.take(batch, bytes);
        let mut sealed = copy_of(&self.segments.sealed);
        sealed.push(info);
        proof {
            lemma_end_offset_after_base(before.base_offset() as int, before.written());
            lemma_joined_log(
                self.base_offset as int,
                earlier,
                before.base_offset() as int,
                before.written(),
            );
            lemma_contiguous_push(
                self.base_offset as int,
                self.segments.sealed@,
                before.base_offset() as int,
                info,
            );
            assert(fresh.written() =~= seq![b]);
            assert(earlier + before.written() + fresh.written() =~= (earlier
                + before.written()).push(b));
        }
        self.segments = Segments {
            sealed,
            active: fresh,
            earlier: Ghost(earlier + before.written()),
        };
    }

    /// Takes `batch` as the next batch of the log and says what to put on
    /// disk, or turns it down and changes nothing. The batch goes to the
    /// active segment, unless that segment holds something and would grow
    /// beyond the configured size: then it is sealed, and the batch opens
    /// the next segment.
    pub fn write_batch(&mut self, batch: &Batch<MemoryRecords>) -> (r: Result<
        Appended,
        StorageError,
    >)
        ensures
            final(self).base_offset() == old(self).base_offset(),
            final(self).segment_max_bytes() == old(self).segment_max_bytes(),
            match old(self).active().objection(batch.deep_view()) {
                Some(e) => {
                    &&& r matches Err(found)
                    &&& found == e
                    &&& final(self).sealed() == old(self).sealed()
                    &&& final(self).batches() == old(self).batches()
                    &&& final(self).active().base_offset() == old(self).active().base_offset()
                    &&& final(self).active().next_offset() == old(self).active().next_offset()
                    &&& final(self).active().size() == old(self).active().size()
                },
                None => {
                    &&& r matches Ok(appended)
                    &&& appended.bytes@ == batch_bytes(batch.deep_view())
                    &&& final(self).batches() == old(self).batches().push(batch.deep_view())
                    &&& final(self).active().next_offset() == batch.deep_view().last_offset() + 1
                    &&& appended.rolled == (old(self).active().size() > 0 && old(
                        self,
                    ).active().size() + appended.bytes@.len() > old(self).segment_max_bytes())
                    &&& if appended.rolled {
                        &&& final(self).sealed() == old(self).sealed().push(
                            SegmentInfo {
                                base_offset: old(self).active().base_offset(),
                                end_offset: old(self).active().next_offset(),
                                size: old(self).active().size(),
                            },
                        )
                        &&& final(self).active().base_offset() == old(self).active().next_offset()
                        &&& final(self).active().size() == appended.bytes@.len()
                    } else {
                        &&& final(self).sealed() == old(self).sealed()
                        &&& final(self).active().base_offset() == old(self).active().base_offset()
                        &&& final(self).active().size() == old(self).active().size()
                            + appended.bytes@.len()
                    }
                },
            },
    {
        proof {
            use_type_invariant(&*self);
            use_type_invariant(&self.segments.active);
        }
        let ghost before = self.segments.active;
        let ghost earlier = self.segments.earlier@;
        let ghost b = batch.deep_view();
        let bytes = batch_to_bytes(batch);
        match self.segments.active.check(batch, &bytes) {
            Err(e) => {
                return Err(e);
            },
            Ok(_) => {},
        }
        let rolled = self.option.must_roll(self.segments.active.get_pos(), bytes.len() as u64);
        if rolled {
            self.roll(batch, &bytes);
        } else {
            self.segments.active.take(batch, &bytes);
            assert(earlier + before.written().push(b) =~= (earlier + before.written()).push(b));
        }
        Ok(Appended { rolled, bytes })
    }
}

/// A copy of the books.
fn copy_of(infos: &Vec<SegmentInfo>) -> (r: Vec<SegmentInfo>)
    ensures
        r@ == infos@,
{
    let mut r: Vec<SegmentInfo> = Vec::new();
    let mut i: usize = 0;
    while i < infos.len()
        invariant
            i <= infos.len(),
            r@ == infos@.take(i as int),
        decreases infos.len() - i,
    {
        r.push(infos[i]);
        i = i + 1;
        assert(r@ =~= infos@.take(i as int));
    }
    assert(infos@.take(i as int) =~= infos@);
    r
}

/// Sealing the active segment keeps the sealed segments without gap.
proof fn lemma_contiguous_push(first: int, sealed: Seq<SegmentInfo>, last: int, info: SegmentInfo)
    requires
        contiguous(first, sealed, last),
        info.base_offset == last,
        info.base_offset <= info.end_offset,
    ensures
        contiguous(first, sealed.push(info), info.end_offset as int),
{
    let after = sealed.push(info);
    assert forall|i: int| 0 <= i < after.len() implies (#[trigger] after[i]).base_offset
        <= after[i].end_offset by {
        if i < sealed.len() {
            assert(after[i] == sealed[i]);
        }
    }
    assert forall|i: int| 0 <= i < after.len() - 1 implies (#[trigger] after[i]).end_offset
        == after[i + 1].base_offset by {
        if i < sealed.len() - 1 {
            assert(after[i] == sealed[i]);
            assert(after[i + 1] == sealed[i + 1]);
        } else {
            assert(after[i] == sealed.last());
        }
    }
    if sealed.len() > 0 {
        assert(after[0] == sealed[0]);
    }
}

/// The batches of the sealed segments and those of the active segment make
/// one log in offset order.
proof fn lemma_joined_log(
    base: int,
    earlier: Seq<BatchView<Seq<RecordView>>>,
    active_base: int,
    written: Seq<BatchView<Seq<RecordView>>>,
)
    requires
        all_well_formed(earlier),
        ordered_from(base, earlier),
        all_well_formed(written),
        ordered_from(active_base, written),
        base <= active_base,
        earlier.len() > 0 ==> earlier.last().last_offset() < active_base,
    ensures
        all_well_formed(earlier + written),
        ordered_from(base, earlier + written),
        (earlier + written).len() > 0 ==> (earlier + written).last().last_offset() < end_offset(
            active_base,
            written,
        ),
{
    let all = earlier + written;
    assert forall|i: int| 0 <= i < all.len() implies well_formed(#[trigger] all[i]) by {
        if i < earlier.len() {
            assert(all[i] == earlier[i]);
        } else {
            assert(all[i] == written[i - earlier.len()]);
        }
    }
    assert forall|i: int| 0 <= i < all.len() - 1 implies (#[trigger] all[i]).last_offset() < all[i
        + 1].base_offset by {
        if i + 1 < earlier.len() {
            assert(all[i] == earlier[i]);
            assert(all[i + 1] == earlier[i + 1]);
        } else if i < earlier.len() {
            assert(all[i] == earlier.last());
            assert(all[i + 1] == written[0]);
        } else {
            assert(all[i] == written[i - earlier.len()]);
            assert(all[i + 1] == written[i + 1 - earlier.len()]);
        }
    }
    if all.len() > 0 {
        if earlier.len() > 0 {
            assert(all[0] == earlier[0]);
        } else {
            assert(all[0] == written[0]);
        }
        if written.len() > 0 {
            assert(all.last() == written.last());
        } else {
            assert(all.last() == earlier.last());
        }
    }
}

} // verus!
