//! The name of a segment file: the base offset of the segment in twenty
//! places, then the extension.

use vstd::prelude::*;
use crate::codec::text::{all_ascii, ascii_chars, ascii_text};
use crate::storage::batch::Offset;

verus! {

/// The places that a base offset takes in a file name, sign included.
pub const OFFSET_PLACES: usize = 20;

/// The ASCII digit for the last decimal place of `v`.
pub open spec fn digit(v: nat) -> u8 {
    (0x30 + v % 10) as u8
}

/// The last `width` decimal digits of `v`, with zeros where `v` has none.
pub open spec fn padded(v: nat, width: nat) -> Seq<u8>
    decreases width,
{
    if width == 0 {
        Seq::empty()
    } else {
        padded(v / 10, (width - 1) as nat).push(digit(v))
    }
}

/// The extension of a segment file: ".log".
pub open spec fn log_extension() -> Seq<u8> {
    seq![0x2eu8, 0x6cu8, 0x6fu8, 0x67u8]
}

/// The name of the file that holds the segment beginning at `base_offset`:
/// the offset in twenty places, a minus sign taking the first place of a
/// negative one, then ".log".
pub open spec fn log_file_name_bytes(base_offset: Offset) -> Seq<u8> {
    if base_offset < 0 {
        seq![0x2du8] + padded((-base_offset) as nat, (OFFSET_PLACES - 1) as nat) + log_extension()
    } else {
        padded(base_offset as nat, OFFSET_PLACES as nat) + log_extension()
    }
}

/// Padded digits are as many as asked for, and are digits.
proof fn lemma_padded(v: nat, width: nat)
    ensures
        padded(v, width).len() == width,
        forall|i: int| 0 <= i < width ==> 0x30 <= #[trigger] padded(v, width)[i] <= 0x39,
    decreases width,
{
    if width > 0 {
        lemma_padded(v / 10, (width - 1) as nat);
    }
}

/// The last `width` decimal digits of `v`.
fn padded_digits(v: u64, width: usize) -> (out: Vec<u8>)
    ensures
        out@ == padded(v as nat, width as nat),
{
    let mut out: Vec<u8> = Vec::new();
    let mut i: usize = 0;
    while i < width
        invariant
            i <= width,
            out@.len() == i,
        decreases width - i,
    {
        out.push(0x30);
        i = i + 1;
    }
    let mut x: u64 = v;
    let mut k: usize = 0;
    assert(out@.subrange(width as int, width as int) =~= Seq::<u8>::empty());
    while k < width
        invariant
            k <= width,
            out@.len() == width,
            padded(v as nat, width as nat) == padded(x as nat, (width - k) as nat) + out@.subrange(
                width - k,
                width as int,
            ),
        decreases width - k,
    {
        let ghost before = out@;
        out.set(width - 1 - k, 0x30 + (x % 10) as u8);
        proof {
            let left = padded((x / 10) as nat, (width - k - 1) as nat);
            assert(out@.subrange(width - k - 1, width as int) =~= seq![digit(x as nat)]
                + before.subrange(width - k, width as int));
            assert(padded(x as nat, (width - k) as nat) + before.subrange(width - k, width as int)
                =~= left + out@.subrange(width - k - 1, width as int));
        }
        x = x / 10;
        k = k + 1;
    }
    assert(out@.subrange(0, width as int) =~= out@);
    out
}

/// The name of the file that holds the segment beginning at `base_offset`.
pub fn log_file_name(base_offset: Offset) -> (name: String)
    ensures
        name@ == ascii_chars(log_file_name_bytes(base_offset)),
{
    let mut bytes: Vec<u8> = Vec::new();
    if base_offset < 0 {
        let magnitude: u64 = (-(base_offset + 1)) as u64 + 1;
        let mut digits = padded_digits(magnitude, OFFSET_PLACES - 1);
        bytes.push(0x2d);
        bytes.append(&mut digits);
        proof {
            lemma_padded(magnitude as nat, (OFFSET_PLACES - 1) as nat);
        }
    } else {
        let mut digits = padded_digits(base_offset as u64, OFFSET_PLACES);
        bytes.append(&mut digits);
        proof {
            lemma_padded(base_offset as nat, OFFSET_PLACES as nat);
        }
    }
    bytes.push(0x2e);
    bytes.push(0x6c);
    bytes.push(0x6f);
    bytes.push(0x67);
    assert(bytes@ =~= log_file_name_bytes(base_offset));
    assert(all_ascii(bytes@));
    ascii_text(bytes.as_slice())
}

} // verus!
