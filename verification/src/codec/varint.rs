//! Variable-length signed integers: zigzag mapping, then base-128 groups with
//! the least significant group first.

use vstd::prelude::*;
use crate::codec::error::{DecodeError, Invalid};
use crate::codec::reader::ByteReader;

verus! {

/// The longest spelling of a 64-bit number, in bytes.
pub const MAX_VARINT_LEN: usize = 10;

/// Interleaves negative and non-negative numbers so that numbers of small
/// magnitude map to small naturals: 0, -1, 1, -2, 2, ...
pub open spec fn zigzag(v: i64) -> nat {
    if v >= 0 {
        (2 * v) as nat
    } else {
        (-2 * v - 1) as nat
    }
}

/// The inverse of `zigzag`.
pub open spec fn unzigzag(u: nat) -> int {
    if u % 2 == 0 {
        (u / 2) as int
    } else {
        -((u / 2) as int) - 1
    }
}

/// The base-128 groups of `u`, least significant first; every byte but the
/// last has its top bit set.
pub open spec fn groups(u: nat) -> Seq<u8>
    decreases u,
{
    if u < 128 {
        seq![u as u8]
    } else {
        seq![(u % 128 + 128) as u8] + groups(u / 128)
    }
}

/// The number spelled by the groups at the start of `src`, and how many bytes
/// they take, reading at most `budget` bytes.
pub open spec fn ungroups(src: Seq<u8>, budget: nat) -> Result<(nat, nat), DecodeError>
    decreases budget,
{
    if budget == 0 {
        Err(DecodeError::InvalidData { reason: Invalid::Varint })
    } else if src.len() == 0 {
        Err(DecodeError::UnexpectedEnd)
    } else if src[0] < 128 {
        Ok((src[0] as nat, 1nat))
    } else {
        match ungroups(src.skip(1), (budget - 1) as nat) {
            Err(e) => Err(e),
            Ok((high, n)) => {
                let u = (src[0] - 128) as nat + 128 * high;
                if u > u64::MAX {
                    Err(DecodeError::InvalidData { reason: Invalid::Varint })
                } else {
                    Ok((u, n + 1))
                }
            },
        }
    }
}

/// How many bytes of `src` have been read when reading groups fails: all
/// groups up to the point where the input or the budget ends, or where the
/// number outgrows 64 bits.
pub open spec fn groups_failure_at(src: Seq<u8>, budget: nat) -> nat
    decreases budget,
{
    if budget == 0 || src.len() == 0 || src[0] < 128 {
        0
    } else {
        match ungroups(src.skip(1), (budget - 1) as nat) {
            Err(_) => 1 + groups_failure_at(src.skip(1), (budget - 1) as nat),
            Ok((_, n)) => n + 1,
        }
    }
}

/// How many bytes of `src` have been read when reading a variable-length
/// signed integer fails.
pub open spec fn varint_failure_at(src: Seq<u8>) -> nat {
    groups_failure_at(src, MAX_VARINT_LEN as nat)
}

/// The bytes of a variable-length signed integer.
pub open spec fn varint_encoding(v: i64) -> Seq<u8> {
    groups(zigzag(v))
}

/// The variable-length signed integer at the start of `src`.
pub open spec fn varint_decoding(src: Seq<u8>) -> Result<(i64, nat), DecodeError> {
    match ungroups(src, MAX_VARINT_LEN as nat) {
        Err(e) => Err(e),
        Ok((u, n)) => Ok((unzigzag(u) as i64, n)),
    }
}

/// Whether `u` can be spelled in at most `k` groups.
pub open spec fn spelled_within(u: nat, k: nat) -> bool
    decreases k,
{
    if k == 0 {
        false
    } else {
        u < 128 || spelled_within(u / 128, (k - 1) as nat)
    }
}

/// Every 64-bit number is spelled in at most ten groups.
proof fn lemma_u64_spelled_within_ten(u: nat)
    requires
        u <= u64::MAX,
    ensures
        spelled_within(u, 10),
{
    reveal_with_fuel(spelled_within, 11);
}

/// A number that can be spelled within `k` groups is spelled in at least
/// one and at most `k` bytes.
proof fn lemma_groups_len(u: nat, k: nat)
    requires
        spelled_within(u, k),
    ensures
        1 <= groups(u).len() <= k,
    decreases k,
{
    if u >= 128 {
        lemma_groups_len(u / 128, (k - 1) as nat);
    }
}

/// The groups of a number spell that number, whatever follows them.
proof fn lemma_groups_round_trip(u: nat, k: nat, tail: Seq<u8>)
    requires
        spelled_within(u, k),
        u <= u64::MAX,
    ensures
        ungroups(groups(u) + tail, k) == Ok::<(nat, nat), DecodeError>((u, groups(u).len())),
    decreases k,
{
    let whole = groups(u) + tail;
    if u >= 128 {
        let high = u / 128;
        lemma_groups_round_trip(high, (k - 1) as nat, tail);
        assert(whole.skip(1) =~= groups(high) + tail);
        assert(whole[0] == (u % 128 + 128) as u8);
    } else {
        assert(whole[0] == u as u8);
    }
}

/// Groups that were read lie within the input and within the budget, and
/// spell a 64-bit number.
pub proof fn lemma_ungroups_in_bounds(src: Seq<u8>, budget: nat)
    ensures
        ungroups(src, budget) matches Ok((u, n)) ==> 1 <= n <= src.len() && n <= budget && u
            <= u64::MAX,
    decreases budget,
{
    if budget != 0 && src.len() != 0 && src[0] >= 128 {
        lemma_ungroups_in_bounds(src.skip(1), (budget - 1) as nat);
    }
}

/// Reading a written variable-length integer gives it back, whatever follows.
pub proof fn lemma_varint_round_trip(v: i64, tail: Seq<u8>)
    ensures
        varint_decoding(varint_encoding(v) + tail) == Ok::<(i64, nat), DecodeError>(
            (v, varint_encoding(v).len()),
        ),
        1 <= varint_encoding(v).len() <= MAX_VARINT_LEN,
{
    let u = zigzag(v);
    lemma_u64_spelled_within_ten(u);
    lemma_groups_len(u, 10);
    lemma_groups_round_trip(u, 10, tail);
    assert(unzigzag(u) == v);
}

/// The zigzag image of `v`.
fn zigzag_of(v: i64) -> (u: u64)
    ensures
        u == zigzag(v),
{
    if v >= 0 {
        (v as u64) * 2
    } else {
        ((-(v + 1)) as u64) * 2 + 1
    }
}

/// The number of bytes that `varint_encode` writes for `v`.
pub fn varint_size(v: i64) -> (n: usize)
    ensures
        n == varint_encoding(v).len(),
        1 <= n <= MAX_VARINT_LEN,
{
    let start: u64 = zigzag_of(v);
    let mut u: u64 = start;
    let mut n: usize = 1;
    proof {
        lemma_u64_spelled_within_ten(start as nat);
        lemma_groups_len(start as nat, 10);
    }
    while u >= 128
        invariant
            n + groups(u as nat).len() == 1 + groups(start as nat).len(),
            groups(start as nat).len() <= 10,
            groups(u as nat).len() >= 1,
        decreases u,
    {
        u = u / 128;
        n = n + 1;
        proof {
            if u < 128 {
                assert(groups(u as nat).len() == 1);
            } else {
                assert(groups(u as nat).len() == 1 + groups((u / 128) as nat).len());
            }
        }
    }
    n
}

/// Appends the variable-length spelling of `v`.
pub fn varint_encode(dest: &mut Vec<u8>, v: i64)
    ensures
        final(dest)@ == old(dest)@ + varint_encoding(v),
{
    let start: u64 = zigzag_of(v);
    let mut u: u64 = start;
    while u >= 128
        invariant
            dest@ + groups(u as nat) == old(dest)@ + groups(start as nat),
        decreases u,
    {
        let ghost before = dest@;
        dest.push((u % 128 + 128) as u8);
        proof {
            assert(dest@ + groups((u / 128) as nat) =~= before + groups(u as nat));
        }
        u = u / 128;
    }
    let ghost before = dest@;
    dest.push(u as u8);
    assert(dest@ =~= before + groups(u as nat));
}

/// Reads the groups of one number, at most `budget` bytes of them.
fn read_groups(src: &mut ByteReader<'_>, budget: usize) -> (r: Result<u64, DecodeError>)
    ensures
        final(src).data() == old(src).data(),
        match ungroups(old(src).rest(), budget as nat) {
            Ok((u, n)) => {
                &&& r == Ok::<u64, DecodeError>(u as u64)
                &&& final(src).position() == old(src).position() + n
                &&& final(src).rest() == old(src).rest().skip(n as int)
            },
            Err(e) => {
                &&& r == Err::<u64, DecodeError>(e)
                &&& final(src).position() == old(src).position() + groups_failure_at(
                    old(src).rest(),
                    budget as nat,
                )
            },
        },
    decreases budget,
{
    if budget == 0 {
        return Err(DecodeError::InvalidData { reason: Invalid::Varint });
    }
    let ghost rest0 = src.rest();
    match src.get_u8() {
        None => Err(DecodeError::UnexpectedEnd),
        Some(b) => {
            if b < 128 {
                Ok(b as u64)
            } else {
                proof {
                    lemma_ungroups_in_bounds(rest0.skip(1), (budget - 1) as nat);
                }
                let high: u64 = read_groups(src, budget - 1)?;
                proof {
                    let n = ungroups(rest0.skip(1), (budget - 1) as nat)->Ok_0.1;
                    assert(src.rest() =~= rest0.skip(n as int + 1));
                }
                let low: u64 = (b - 128) as u64;
                if high > (u64::MAX - low) / 128 {
                    Err(DecodeError::InvalidData { reason: Invalid::Varint })
                } else {
                    Ok(low + 128 * high)
                }
            }
        },
    }
}

/// Reads one variable-length signed integer. On failure the cursor stands
/// where the failure was found.
pub fn varint_decode(src: &mut ByteReader<'_>) -> (r: Result<i64, DecodeError>)
    ensures
        final(src).data() == old(src).data(),
        match varint_decoding(old(src).rest()) {
            Ok((v, n)) => {
                &&& r == Ok::<i64, DecodeError>(v)
                &&& final(src).position() == old(src).position() + n
                &&& final(src).rest() == old(src).rest().skip(n as int)
            },
            Err(e) => {
                &&& r == Err::<i64, DecodeError>(e)
                &&& final(src).position() == old(src).position() + varint_failure_at(
                    old(src).rest(),
                )
            },
        },
{
    proof {
        lemma_ungroups_in_bounds(src.rest(), MAX_VARINT_LEN as nat);
    }
    let u: u64 = read_groups(src, MAX_VARINT_LEN)?;
    if u % 2 == 0 {
        Ok((u / 2) as i64)
    } else {
        Ok(-((u / 2) as i64) - 1)
    }
}

} // verus!
