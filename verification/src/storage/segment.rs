//! What a segment holds once batches have been appended to it, and what a
//! stream reads back from it.

use vstd::prelude::*;
use crate::codec::sequence::{lemma_join2, lemma_skip_joined};
use crate::codec::traits::{Decoder, Encoder};
use crate::storage::batch::{
    batch_encoding,
    declared_len,
    file_header_encoding,
    lemma_batch_encoding_len,
    lemma_file_header_decoding_shape,
    lemma_file_header_round_trip,
    written_header,
    Batch,
    BatchRecords,
    BatchView,
    MemoryRecords,
    BATCH_FILE_HEADER_SIZE,
    BATCH_HEADER_SIZE,
};
use crate::storage::batch_header::FileEmptyRecords;
use crate::storage::record::{Record, RecordView};
use crate::storage::stream::{
    head_step,
    lemma_head_step_prefix,
    lemma_step_in_bounds,
    positions,
    scan,
    step,
    HeadStep,
    Step,
    FILE_VERSION,
};

verus! {

/// The number of bytes that the records of `b` take in a segment.
#[verifier::opaque]
pub open spec fn payload_len(b: BatchView<Seq<RecordView>>) -> nat {
    Vec::<Record>::encoding(b.records, FILE_VERSION).len()
}

/// Whether the records of `b` can be read back once written.
#[verifier::opaque]
pub open spec fn readable(b: BatchView<Seq<RecordView>>) -> bool {
    Vec::<Record>::encodable(b.records, FILE_VERSION)
}

/// A batch that may stand in a segment: its records can be read back, its
/// length fits the field that declares it, and its last record lies neither
/// before its first nor beyond the last offset there is.
pub open spec fn well_formed(b: BatchView<Seq<RecordView>>) -> bool {
    &&& readable(b)
    &&& BATCH_HEADER_SIZE + payload_len(b) <= i32::MAX
    &&& b.header.last_offset_delta >= 0
    &&& b.last_offset() <= i64::MAX
}

/// Every batch of `batches` is well formed.
pub open spec fn all_well_formed(batches: Seq<BatchView<Seq<RecordView>>>) -> bool {
    forall|i: int| 0 <= i < batches.len() ==> well_formed(#[trigger] batches[i])
}

/// The bytes that appending `b` adds to a segment.
pub open spec fn batch_bytes(b: BatchView<Seq<RecordView>>) -> Seq<u8> {
    batch_encoding::<MemoryRecords>(b, FILE_VERSION)
}

/// The bytes of a fresh segment after `batches` were appended in order.
pub open spec fn segment_bytes(batches: Seq<BatchView<Seq<RecordView>>>) -> Seq<u8>
    decreases batches.len(),
{
    if batches.len() == 0 {
        Seq::empty()
    } else {
        batch_bytes(batches[0]) + segment_bytes(batches.drop_first())
    }
}

/// The position of batch `i` in a segment that holds `batches`: the first
/// batch starts at 0, and each next one starts where the header and the
/// payload of the one before end.
pub open spec fn start_of(batches: Seq<BatchView<Seq<RecordView>>>, i: nat) -> nat
    decreases i,
{
    if i == 0 || i > batches.len() {
        0
    } else {
        start_of(batches, (i - 1) as nat) + BATCH_FILE_HEADER_SIZE as nat + payload_len(
            batches[i - 1],
        )
    }
}

/// How many of the first batches of `batches` lie wholly within the first
/// `k` bytes of their segment.
pub open spec fn whole_before(batches: Seq<BatchView<Seq<RecordView>>>, k: nat) -> nat
    decreases batches.len(),
{
    if batches.len() == 0 || batch_bytes(batches[0]).len() > k {
        0
    } else {
        1 + whole_before(batches.drop_first(), (k - batch_bytes(batches[0]).len()) as nat)
    }
}

/// The batch `b` as a stream with record representation `R` yields it:
/// with its true length as declared length, and with the records as `R`
/// holds them.
pub open spec fn as_read<R: BatchRecords>(b: BatchView<Seq<RecordView>>) -> BatchView<R::V> {
    BatchView {
        base_offset: b.base_offset,
        batch_len: declared_len(payload_len(b)),
        header: b.header,
        records: R::seen(b.records),
    }
}

/// The header of batch `b`, without its records.
pub open spec fn header_only<V>(b: BatchView<V>) -> BatchView<()> {
    BatchView { base_offset: b.base_offset, batch_len: b.batch_len, header: b.header, records: () }
}

/// Whether each batch of `items` ends before the next one begins.
pub open spec fn offsets_ascend<V>(items: Seq<BatchView<V>>) -> bool {
    forall|i: int|
        0 <= i < items.len() - 1 ==> (#[trigger] items[i]).last_offset() < items[i + 1].base_offset
}

/// The batches of `items`, without their positions.
pub open spec fn batches_of<V>(items: Seq<(nat, BatchView<V>)>) -> Seq<BatchView<V>> {
    Seq::new(items.len(), |i: int| items[i].1)
}

/// Whether two batches cover the same offsets.
pub open spec fn same_offsets<V, W>(a: BatchView<V>, b: BatchView<W>) -> bool {
    a.base_offset == b.base_offset && a.header.last_offset_delta == b.header.last_offset_delta
}

/// The first offset that no batch of a log covers, where the log begins at
/// `base` and holds `batches`.
pub open spec fn end_offset(base: int, batches: Seq<BatchView<Seq<RecordView>>>) -> int {
    if batches.len() == 0 {
        base
    } else {
        batches.last().last_offset() + 1
    }
}

/// Whether `batches` can stand, in this order, in a log that begins at
/// `base`: none begins before `base`, and each begins after the one before
/// it ends.
pub open spec fn ordered_from(base: int, batches: Seq<BatchView<Seq<RecordView>>>) -> bool {
    &&& offsets_ascend(batches)
    &&& batches.len() > 0 ==> base <= batches[0].base_offset
}

/// The length of a written batch is its header and its payload, and the
/// header declares that payload.
pub proof fn lemma_batch_bytes_len<R: BatchRecords>(b: BatchView<Seq<RecordView>>)
    requires
        well_formed(b),
    ensures
        batch_bytes(b).len() == BATCH_FILE_HEADER_SIZE + payload_len(b),
        as_read::<R>(b).declared_payload() == payload_len(b),
{
    reveal(payload_len);
    lemma_batch_encoding_len::<MemoryRecords>(b, FILE_VERSION);
}

/// A stream that stands at the start of a written batch yields that batch
/// and moves to its end, whatever precedes and follows it.
pub proof fn lemma_step_at_batch<R: BatchRecords>(
    pre: Seq<u8>,
    b: BatchView<Seq<RecordView>>,
    tail: Seq<u8>,
)
    requires
        well_formed(b),
    ensures
        step::<R>(pre + (batch_bytes(b) + tail), pre.len()) == (Step::Item {
            batch: as_read::<R>(b),
            next: pre.len() + batch_bytes(b).len(),
        }),
{
    reveal(batch_encoding);
    reveal(payload_len);
    reveal(readable);
    let payload = Vec::<Record>::encoding(b.records, FILE_VERSION);
    let head = written_header(b, payload.len());
    let fh = file_header_encoding(head, FILE_VERSION);
    let data = pre + (batch_bytes(b) + tail);
    lemma_skip_joined(pre, batch_bytes(b) + tail);
    lemma_join2(fh, payload, tail);
    lemma_file_header_round_trip(head, FILE_VERSION, payload + tail);
    R::lemma_reads_back(b.records, FILE_VERSION);
    R::lemma_wanted(payload.len());
    let start = (pre.len() + BATCH_FILE_HEADER_SIZE) as nat;
    let wanted = R::wanted(payload.len());
    assert(data.subrange(start as int, (start + wanted) as int) =~= payload.take(wanted as int));
}

/// A stream that stands at the start of a written batch of which the end is
/// missing finds no batch and no failure.
pub proof fn lemma_step_at_cut_batch<R: BatchRecords>(
    pre: Seq<u8>,
    b: BatchView<Seq<RecordView>>,
    m: nat,
)
    requires
        well_formed(b),
        m < batch_bytes(b).len(),
    ensures
        step::<R>(pre + batch_bytes(b).take(m as int), pre.len()) == Step::<R::V>::End,
{
    reveal(batch_encoding);
    reveal(payload_len);
    let payload = Vec::<Record>::encoding(b.records, FILE_VERSION);
    let head = written_header(b, payload.len());
    let fh = file_header_encoding(head, FILE_VERSION);
    let cut = batch_bytes(b).take(m as int);
    let data = pre + cut;
    lemma_skip_joined(pre, cut);
    lemma_file_header_decoding_shape(cut, FILE_VERSION);
    if m >= BATCH_FILE_HEADER_SIZE {
        let part = payload.take(m - BATCH_FILE_HEADER_SIZE);
        lemma_file_header_round_trip(head, FILE_VERSION, part);
        assert(cut =~= fh + part);
    }
}

/// Batch `i + 1` of a segment starts where batch `i` of the segment without
/// its first batch starts, moved on by the length of that first batch.
proof fn lemma_start_of_shift(batches: Seq<BatchView<Seq<RecordView>>>, i: nat)
    requires
        all_well_formed(batches),
        i < batches.len(),
    ensures
        start_of(batches, i + 1) == batch_bytes(batches[0]).len() + start_of(
            batches.drop_first(),
            i,
        ),
    decreases i,
{
    lemma_batch_bytes_len::<MemoryRecords>(batches[0]);
    if i > 0 {
        lemma_start_of_shift(batches, (i - 1) as nat);
        assert(batches.drop_first()[i - 1] == batches[i as int]);
    } else {
        reveal_with_fuel(start_of, 2);
    }
}

/// All batches of a segment lie wholly within it, and the last one ends
/// where the segment ends.
proof fn lemma_whole_segment(batches: Seq<BatchView<Seq<RecordView>>>)
    requires
        all_well_formed(batches),
    ensures
        whole_before(batches, segment_bytes(batches).len()) == batches.len(),
        start_of(batches, batches.len()) == segment_bytes(batches).len(),
    decreases batches.len(),
{
    if batches.len() > 0 {
        let others = batches.drop_first();
        assert forall|i: int| 0 <= i < others.len() implies well_formed(#[trigger] others[i]) by {
            assert(others[i] == batches[i + 1]);
        }
        lemma_whole_segment(others);
        lemma_start_of_shift(batches, (batches.len() - 1) as nat);
    }
}

/// What a stream reads from the first `k` bytes of a segment that holds
/// `batches`, whatever precedes the segment: the batches that lie wholly
/// within those bytes, each at its position, and then the end, without a
/// failure.
pub proof fn lemma_scan_segment<R: BatchRecords>(
    pre: Seq<u8>,
    batches: Seq<BatchView<Seq<RecordView>>>,
    k: nat,
)
    requires
        all_well_formed(batches),
        k <= segment_bytes(batches).len(),
    ensures
        ({
            let got = scan::<R>(pre + segment_bytes(batches).take(k as int), pre.len());
            let n = whole_before(batches, k);
            &&& n <= batches.len()
            &&& got.items.len() == n
            &&& forall|i: int|
                0 <= i < n ==> #[trigger] got.items[i] == (
                    pre.len() + start_of(batches, i as nat),
                    as_read::<R>(batches[i]),
                )
            &&& got.end == pre.len() + start_of(batches, n)
            &&& got.failure is None
        }),
    decreases batches.len(),
{
    let data = pre + segment_bytes(batches).take(k as int);
    if batches.len() == 0 {
        lemma_file_header_decoding_shape(data.skip(pre.len() as int), FILE_VERSION);
    } else {
        let first = batch_bytes(batches[0]);
        let others = batches.drop_first();
        let later = segment_bytes(others);
        lemma_batch_bytes_len::<MemoryRecords>(batches[0]);
        if first.len() > k {
            assert((first + later).take(k as int) =~= first.take(k as int));
            lemma_step_at_cut_batch::<R>(pre, batches[0], k);
        } else {
            let left = (k - first.len()) as nat;
            let tail = later.take(left as int);
            assert((first + later).take(k as int) =~= first + tail);
            lemma_step_at_batch::<R>(pre, batches[0], tail);
            assert(data =~= (pre + first) + tail);
            assert forall|i: int| 0 <= i < others.len() implies well_formed(
                #[trigger] others[i],
            ) by {
                assert(others[i] == batches[i + 1]);
            }
            lemma_scan_segment::<R>(pre + first, others, left);
            let got = scan::<R>(data, pre.len());
            let rest = scan::<R>(data, (pre + first).len());
            let n = whole_before(batches, k);
            assert(got.items == seq![(pre.len(), as_read::<R>(batches[0]))] + rest.items);
            assert forall|i: int| 0 <= i < n implies #[trigger] got.items[i] == (
                pre.len() + start_of(batches, i as nat),
                as_read::<R>(batches[i]),
            ) by {
                if i > 0 {
                    assert(got.items[i] == rest.items[i - 1]);
                    assert(others[i - 1] == batches[i]);
                    lemma_start_of_shift(batches, (i - 1) as nat);
                }
            }
            if n - 1 < others.len() {
                lemma_start_of_shift(batches, (n - 1) as nat);
            } else {
                lemma_start_of_shift(batches, (batches.len() - 1) as nat);
            }
        }
    }
}

/// Position continuity. A stream over a fresh segment to which `batches`
/// were appended yields every batch, the first at position 0 and each next
/// one where the header and the declared payload of the one before end, and
/// then ends where the segment ends, without a failure. This holds of a
/// stream that decodes the records and of one that steps over them.
pub proof fn lemma_written_segment_reads_back<R: BatchRecords>(
    batches: Seq<BatchView<Seq<RecordView>>>,
)
    requires
        all_well_formed(batches),
    ensures
        ({
            let got = scan::<R>(segment_bytes(batches), 0);
            &&& got.items.len() == batches.len()
            &&& forall|i: int|
                0 <= i < batches.len() ==> #[trigger] got.items[i] == (
                    start_of(batches, i as nat),
                    as_read::<R>(batches[i]),
                )
            &&& got.end == segment_bytes(batches).len()
            &&& got.failure is None
        }),
        start_of(batches, 0) == 0,
        forall|i: nat|
            i < batches.len() ==> #[trigger] start_of(batches, i + 1) == start_of(batches, i)
                + BATCH_FILE_HEADER_SIZE + as_read::<R>(batches[i as int]).declared_payload(),
{
    let all = segment_bytes(batches);
    lemma_whole_segment(batches);
    lemma_scan_segment::<R>(Seq::empty(), batches, all.len());
    assert(Seq::<u8>::empty() + all.take(all.len() as int) =~= all);
    assert forall|i: nat| i < batches.len() implies #[trigger] start_of(batches, i + 1)
        == start_of(batches, i) + BATCH_FILE_HEADER_SIZE + as_read::<R>(
        batches[i as int],
    ).declared_payload() by {
        lemma_batch_bytes_len::<R>(batches[i as int]);
    }
}

/// Tolerance of a cut tail. A stream over the first `k` bytes of a segment
/// to which `batches` were appended yields every batch that lies wholly
/// within those bytes, each as it is yielded from the whole segment, and
/// then ends at the start of the batch that was cut, without a failure.
pub proof fn lemma_cut_segment_reads_back<R: BatchRecords>(
    batches: Seq<BatchView<Seq<RecordView>>>,
    k: nat,
)
    requires
        all_well_formed(batches),
        k <= segment_bytes(batches).len(),
    ensures
        ({
            let whole = scan::<R>(segment_bytes(batches), 0);
            let cut = scan::<R>(segment_bytes(batches).take(k as int), 0);
            let n = whole_before(batches, k);
            &&& n <= batches.len()
            &&& cut.items == whole.items.take(n as int)
            &&& cut.end == start_of(batches, n)
            &&& cut.end <= k
            &&& cut.failure is None
        }),
{
    let all = segment_bytes(batches);
    lemma_written_segment_reads_back::<R>(batches);
    lemma_scan_segment::<R>(Seq::empty(), batches, k);
    assert(Seq::<u8>::empty() + all.take(k as int) =~= all.take(k as int));
    let whole = scan::<R>(all, 0);
    let cut = scan::<R>(all.take(k as int), 0);
    let n = whole_before(batches, k);
    assert(cut.items =~= whole.items.take(n as int));
    lemma_whole_before_fits(batches, k);
}

/// The batches that lie wholly within the first `k` bytes end within them.
proof fn lemma_whole_before_fits(batches: Seq<BatchView<Seq<RecordView>>>, k: nat)
    requires
        all_well_formed(batches),
    ensures
        whole_before(batches, k) <= batches.len(),
        start_of(batches, whole_before(batches, k)) <= k,
    decreases batches.len(),
{
    if batches.len() > 0 && batch_bytes(batches[0]).len() <= k {
        let others = batches.drop_first();
        let left = (k - batch_bytes(batches[0]).len()) as nat;
        assert forall|i: int| 0 <= i < others.len() implies well_formed(#[trigger] others[i]) by {
            assert(others[i] == batches[i + 1]);
        }
        lemma_whole_before_fits(others, left);
        let n = whole_before(others, left);
        if n < others.len() {
            lemma_start_of_shift(batches, n);
        } else {
            lemma_start_of_shift(batches, (batches.len() - 1) as nat);
        }
    }
}

/// Equivalence of the two ways of reading, over any bytes. A stream that
/// decodes the records visits the positions that a stream stepping over them
/// visits, in the same order and with the same headers, as far as it gets.
/// It gets as far as the other, and stops at the same place, unless records
/// that it cannot decode stop it.
pub proof fn lemma_same_positions(data: Seq<u8>, pos: nat)
    requires
        pos <= data.len(),
    ensures
        ({
            let full = scan::<MemoryRecords>(data, pos);
            let heads = scan::<FileEmptyRecords>(data, pos);
            &&& full.items.len() <= heads.items.len()
            &&& positions(full.items) == positions(heads.items).take(full.items.len() as int)
            &&& forall|i: int|
                0 <= i < full.items.len() ==> header_only((#[trigger] full.items[i]).1)
                    == heads.items[i].1
            &&& full.failure is None ==> {
                &&& full.items.len() == heads.items.len()
                &&& positions(full.items) == positions(heads.items)
                &&& full.end == heads.end
                &&& heads.failure is None
            }
        }),
    decreases data.len() - pos,
{
    let full = scan::<MemoryRecords>(data, pos);
    let heads = scan::<FileEmptyRecords>(data, pos);
    lemma_step_in_bounds::<MemoryRecords>(data, pos);
    lemma_step_in_bounds::<FileEmptyRecords>(data, pos);
    match step::<MemoryRecords>(data, pos) {
        Step::Item { batch, next } => {
            lemma_same_positions(data, next);
            let full_later = scan::<MemoryRecords>(data, next);
            let heads_later = scan::<FileEmptyRecords>(data, next);
            assert(heads.items == seq![(pos, header_only(batch))] + heads_later.items);
            assert forall|i: int| 0 <= i < full.items.len() implies (#[trigger] full.items[i]).0
                == heads.items[i].0 && header_only(full.items[i].1) == heads.items[i].1 by {
                if i > 0 {
                    assert(full.items[i] == full_later.items[i - 1]);
                    assert(heads.items[i] == heads_later.items[i - 1]);
                    assert(positions(full_later.items)[i - 1] == positions(heads_later.items).take(
                        full_later.items.len() as int,
                    )[i - 1]);
                }
            }
            if full.failure is None {
                assert(full_later.failure is None);
                assert(full.items.len() == heads.items.len());
            }
        },
        Step::End => {},
        Step::Fail { error } => {},
    }
    assert(positions(full.items) =~= positions(heads.items).take(full.items.len() as int));
    if full.failure is None {
        assert(full.items.len() == heads.items.len());
        assert(positions(heads.items).take(full.items.len() as int) =~= positions(heads.items));
    }
}

/// Offset order. Where each batch appended to a fresh segment ends before
/// the next one begins, the batches that a stream yields do so too, and
/// their base offsets never decrease.
pub proof fn lemma_offsets_ascend<R: BatchRecords>(batches: Seq<BatchView<Seq<RecordView>>>)
    requires
        all_well_formed(batches),
        offsets_ascend(batches),
    ensures
        ({
            let read = batches_of(scan::<R>(segment_bytes(batches), 0).items);
            &&& offsets_ascend(read)
            &&& forall|i: int, j: int|
                0 <= i <= j < read.len() ==> (#[trigger] read[i]).base_offset <= (
                #[trigger] read[j]).base_offset
        }),
{
    lemma_written_segment_reads_back::<R>(batches);
    let got = scan::<R>(segment_bytes(batches), 0);
    let read = batches_of(got.items);
    assert(read.len() == batches.len());
    assert forall|i: int| 0 <= i < read.len() implies same_offsets(
        #[trigger] read[i],
        batches[i],
    ) by {
        assert(got.items[i].1 == as_read::<R>(batches[i]));
    }
    lemma_deltas(batches);
    lemma_same_offsets_ascend(read, batches);
}

/// Batches that cover the offsets of batches in offset order are in offset
/// order, and their base offsets never decrease.
proof fn lemma_same_offsets_ascend<V>(
    read: Seq<BatchView<V>>,
    batches: Seq<BatchView<Seq<RecordView>>>,
)
    requires
        read.len() == batches.len(),
        forall|i: int| 0 <= i < read.len() ==> same_offsets(#[trigger] read[i], batches[i]),
        offsets_ascend(batches),
        forall|i: int|
            0 <= i < batches.len() ==> (#[trigger] batches[i]).header.last_offset_delta >= 0,
    ensures
        offsets_ascend(read),
        forall|i: int, j: int|
            0 <= i <= j < read.len() ==> (#[trigger] read[i]).base_offset <= (
            #[trigger] read[j]).base_offset,
{
    assert forall|i: int| 0 <= i < read.len() - 1 implies (#[trigger] read[i]).last_offset()
        < read[i + 1].base_offset by {
        assert(same_offsets(read[i], batches[i]));
        assert(same_offsets(read[i + 1], batches[i + 1]));
        assert(batches[i].last_offset() < batches[i + 1].base_offset);
    }
    assert forall|i: int, j: int| 0 <= i <= j < read.len() implies (#[trigger] read[i]).base_offset
        <= (#[trigger] read[j]).base_offset by {
        lemma_base_offsets_ascend(batches, i, j);
        assert(same_offsets(read[i], batches[i]));
        assert(same_offsets(read[j], batches[j]));
    }
}

/// A log in offset order ends at or after the offset at which it begins.
pub proof fn lemma_end_offset_after_base(base: int, batches: Seq<BatchView<Seq<RecordView>>>)
    requires
        all_well_formed(batches),
        ordered_from(base, batches),
    ensures
        base <= end_offset(base, batches),
{
    lemma_deltas(batches);
    if batches.len() > 0 {
        lemma_base_offsets_ascend(batches, 0, batches.len() - 1);
        assert(batches.last().header.last_offset_delta >= 0);
    }
}

/// No well-formed batch ends before it begins.
proof fn lemma_deltas(batches: Seq<BatchView<Seq<RecordView>>>)
    requires
        all_well_formed(batches),
    ensures
        forall|k: int|
            0 <= k < batches.len() ==> (#[trigger] batches[k]).header.last_offset_delta >= 0,
{
    assert forall|k: int| 0 <= k < batches.len() implies (
    #[trigger] batches[k]).header.last_offset_delta >= 0 by {
        assert(well_formed(batches[k]));
    }
}

/// Between batches that end before the next begins, base offsets grow.
proof fn lemma_base_offsets_ascend(batches: Seq<BatchView<Seq<RecordView>>>, i: int, j: int)
    requires
        forall|k: int|
            0 <= k < batches.len() ==> (#[trigger] batches[k]).header.last_offset_delta >= 0,
        offsets_ascend(batches),
        0 <= i <= j < batches.len(),
    ensures
        batches[i].base_offset <= batches[j].base_offset,
    decreases j - i,
{
    if i < j {
        lemma_base_offsets_ascend(batches, i, j - 1);
        assert(batches[j - 1].last_offset() < batches[j].base_offset);
        assert(batches[j - 1].header.last_offset_delta >= 0);
    }
}

/// Appending a batch to a segment appends its bytes.
pub proof fn lemma_segment_bytes_push(
    batches: Seq<BatchView<Seq<RecordView>>>,
    b: BatchView<Seq<RecordView>>,
)
    ensures
        segment_bytes(batches.push(b)) == segment_bytes(batches) + batch_bytes(b),
    decreases batches.len(),
{
    let more = batches.push(b);
    if batches.len() == 0 {
        assert(more.drop_first() =~= Seq::<BatchView<Seq<RecordView>>>::empty());
        assert(segment_bytes(more.drop_first()) =~= Seq::<u8>::empty());
        assert(segment_bytes(more) =~= segment_bytes(batches) + batch_bytes(b));
    } else {
        lemma_segment_bytes_push(batches.drop_first(), b);
        assert(more.drop_first() =~= batches.drop_first().push(b));
        assert(segment_bytes(more) =~= segment_bytes(batches) + batch_bytes(b));
    }
}

/// Reading the start of a segment, over any bytes. A stream over the first
/// `k` bytes yields batches that a stream over all the bytes yields too, in
/// the same order from the first on, and reports a failure only where the
/// other reports the same failure after the same batches. Bytes that are
/// still to come never change what was read, and their absence is never a
/// failure.
pub proof fn lemma_cut_reads_a_prefix<R: BatchRecords>(data: Seq<u8>, k: nat, pos: nat)
    requires
        pos <= k <= data.len(),
    ensures
        ({
            let all = scan::<R>(data, pos);
            let cut = scan::<R>(data.take(k as int), pos);
            &&& cut.items.len() <= all.items.len()
            &&& cut.items == all.items.take(cut.items.len() as int)
            &&& cut.end <= k
            &&& cut.failure is Some ==> cut.failure == all.failure && cut.items == all.items
                && cut.end == all.end
        }),
    decreases data.len() - pos,
{
    let part = data.take(k as int);
    let all = scan::<R>(data, pos);
    let cut = scan::<R>(part, pos);
    lemma_head_step_prefix(data.skip(pos as int));
    lemma_head_step_prefix(part.skip(pos as int));
    lemma_step_in_bounds::<R>(data, pos);
    lemma_step_in_bounds::<R>(part, pos);
    if k - pos >= BATCH_FILE_HEADER_SIZE {
        assert(part.skip(pos as int).take(BATCH_FILE_HEADER_SIZE as int) =~= data.skip(
            pos as int,
        ).take(BATCH_FILE_HEADER_SIZE as int));
        match step::<R>(part, pos) {
            Step::Item { batch, next } => {
                let start = (pos + BATCH_FILE_HEADER_SIZE) as nat;
                let wanted = R::wanted(batch.declared_payload() as nat);
                R::lemma_wanted(batch.declared_payload() as nat);
                assert(part.subrange(start as int, (start + wanted) as int) =~= data.subrange(
                    start as int,
                    (start + wanted) as int,
                ));
                assert(step::<R>(data, pos) == step::<R>(part, pos));
                lemma_cut_reads_a_prefix::<R>(data, k, next);
                let all_later = scan::<R>(data, next);
                let cut_later = scan::<R>(part, next);
                assert(cut.items =~= all.items.take(cut.items.len() as int)) by {
                    assert(cut.items == seq![(pos, batch)] + cut_later.items);
                    assert(all.items == seq![(pos, batch)] + all_later.items);
                    assert forall|i: int| 0 <= i < cut.items.len() implies cut.items[i]
                        == all.items[i] by {
                        if i > 0 {
                            assert(cut.items[i] == cut_later.items[i - 1]);
                            assert(cut_later.items[i - 1] == all_later.items.take(
                                cut_later.items.len() as int,
                            )[i - 1]);
                            assert(all.items[i] == all_later.items[i - 1]);
                        }
                    }
                }
            },
            Step::End => {},
            Step::Fail { error } => {
                match head_step(data.skip(pos as int)) {
                    HeadStep::Head { head } => {
                        let start = (pos + BATCH_FILE_HEADER_SIZE) as nat;
                        let wanted = R::wanted(head.declared_payload() as nat);
                        R::lemma_wanted(head.declared_payload() as nat);
                        assert(part.subrange(start as int, (start + wanted) as int)
                            =~= data.subrange(start as int, (start + wanted) as int));
                    },
                    _ => {},
                }
                assert(all.items.take(0) =~= cut.items);
            },
        }
    }
    if cut.items.len() == 0 {
        assert(all.items.take(0) =~= cut.items);
    }
}

} // verus!
