//! Fixed-width integers and flags, most significant byte first.

use vstd::prelude::*;
use crate::codec::error::{DecodeError, Invalid};
use crate::codec::reader::ByteReader;
use crate::codec::traits::{Decoder, Encoder, Version};

verus! {

/// One byte of `v`: the quotient by `unit`, reduced to a byte.
#[verifier::opaque]
pub open spec fn byte_of(v: nat, unit: nat) -> u8 {
    (v / unit % 0x100) as u8
}

/// The two bytes of `v`, most significant first.
pub open spec fn be16(v: nat) -> Seq<u8> {
    seq![byte_of(v, 0x100), byte_of(v, 1)]
}

/// The four bytes of `v`, most significant first.
pub open spec fn be32(v: nat) -> Seq<u8> {
    seq![byte_of(v, 0x100_0000), byte_of(v, 0x1_0000), byte_of(v, 0x100), byte_of(v, 1)]
}

/// The eight bytes of `v`, most significant first.
pub open spec fn be64(v: nat) -> Seq<u8> {
    be32(v / 0x1_0000_0000) + be32(v % 0x1_0000_0000)
}

/// The number that the first two bytes of `s` spell.
#[verifier::opaque]
pub open spec fn from_be16(s: Seq<u8>) -> nat {
    (s[0] as nat) * 0x100 + s[1] as nat
}

/// The number that the first four bytes of `s` spell.
#[verifier::opaque]
pub open spec fn from_be32(s: Seq<u8>) -> nat {
    (s[0] as nat) * 0x100_0000 + (s[1] as nat) * 0x1_0000 + (s[2] as nat) * 0x100 + s[3] as nat
}

/// The number that the first eight bytes of `s` spell.
#[verifier::opaque]
pub open spec fn from_be64(s: Seq<u8>) -> nat {
    from_be32(s) * 0x1_0000_0000 + from_be32(s.skip(4))
}

/// The unsigned number with the same two's complement pattern as `v`, where
/// patterns repeat every `modulus`.
pub open spec fn to_unsigned(v: int, modulus: nat) -> nat {
    if v < 0 {
        (v + modulus) as nat
    } else {
        v as nat
    }
}

/// The signed number with the same two's complement pattern as `u`, where
/// patterns repeat every `modulus`.
pub open spec fn to_signed(u: nat, modulus: nat) -> int {
    if 2 * u >= modulus {
        u - modulus
    } else {
        u as int
    }
}

/// Two bytes spell the number they were made from.
proof fn lemma_be16_round_trip(v: nat)
    requires
        v < 0x1_0000,
    ensures
        be16(v).len() == 2,
        from_be16(be16(v)) == v,
{
    reveal(byte_of);
    reveal(from_be16);
}

/// Four bytes spell the number they were made from.
proof fn lemma_be32_round_trip(v: nat)
    requires
        v < 0x1_0000_0000,
    ensures
        be32(v).len() == 4,
        from_be32(be32(v)) == v,
{
    reveal(byte_of);
    reveal(from_be32);
}

/// Eight bytes spell the number they were made from.
proof fn lemma_be64_round_trip(v: nat)
    requires
        v < 0x1_0000_0000_0000_0000,
    ensures
        be64(v).len() == 8,
        from_be64(be64(v)) == v,
{
    reveal(byte_of);
    reveal(from_be64);
    let hi = v / 0x1_0000_0000;
    let lo = v % 0x1_0000_0000;
    lemma_be32_round_trip(hi);
    lemma_be32_round_trip(lo);
    assert(be64(v).skip(4) =~= be32(lo));
    assert(from_be32(be64(v)) == from_be32(be32(hi))) by {
        reveal(from_be32);
    }
}

/// The number spelled by the first bytes of a string does not depend on
/// what follows them.
proof fn lemma_from_be_prefix(a: Seq<u8>, tail: Seq<u8>)
    ensures
        a.len() >= 2 ==> from_be16(a + tail) == from_be16(a),
        a.len() >= 4 ==> from_be32(a + tail) == from_be32(a),
        a.len() >= 8 ==> from_be64(a + tail) == from_be64(a),
{
    reveal(from_be16);
    reveal(from_be32);
    reveal(from_be64);
    if a.len() >= 8 {
        assert(from_be32((a + tail).skip(4)) == from_be32(a.skip(4)));
    }
}

/// Appends the two bytes of `v`.
pub fn put_be16(dest: &mut Vec<u8>, v: u16)
    ensures
        final(dest)@ == old(dest)@ + be16(v as nat),
{
    reveal(byte_of);
    dest.push((v / 0x100) as u8);
    dest.push((v % 0x100) as u8);
    assert(dest@ =~= old(dest)@ + be16(v as nat));
}

/// Appends the four bytes of `v`.
pub fn put_be32(dest: &mut Vec<u8>, v: u32)
    ensures
        final(dest)@ == old(dest)@ + be32(v as nat),
{
    reveal(byte_of);
    dest.push((v / 0x100_0000) as u8);
    dest.push((v / 0x1_0000 % 0x100) as u8);
    dest.push((v / 0x100 % 0x100) as u8);
    dest.push((v % 0x100) as u8);
    assert(dest@ =~= old(dest)@ + be32(v as nat));
}

/// Appends the eight bytes of `v`.
pub fn put_be64(dest: &mut Vec<u8>, v: u64)
    ensures
        final(dest)@ == old(dest)@ + be64(v as nat),
{
    reveal(byte_of);
    put_be32(dest, (v / 0x1_0000_0000) as u32);
    put_be32(dest, (v % 0x1_0000_0000) as u32);
    assert(dest@ =~= old(dest)@ + be64(v as nat));
}

/// Reads two bytes as one number, or nothing if fewer are left.
pub fn get_be16(src: &mut ByteReader<'_>) -> (r: Option<u16>)
    ensures
        final(src).data() == old(src).data(),
        match r {
            Some(v) => {
                &&& old(src).rest().len() >= 2
                &&& v == from_be16(old(src).rest())
                &&& final(src).position() == old(src).position() + 2
                &&& final(src).rest() == old(src).rest().skip(2)
            },
            None => old(src).rest().len() < 2 && final(src).position() == old(src).position(),
        },
{
    reveal(from_be16);
    match src.take(2) {
        Some(b) => {
            let v: u16 = (b[0] as u16) * 0x100 + (b[1] as u16);
            Some(v)
        },
        None => None,
    }
}

/// Reads four bytes as one number, or nothing if fewer are left.
pub fn get_be32(src: &mut ByteReader<'_>) -> (r: Option<u32>)
    ensures
        final(src).data() == old(src).data(),
        match r {
            Some(v) => {
                &&& old(src).rest().len() >= 4
                &&& v == from_be32(old(src).rest())
                &&& final(src).position() == old(src).position() + 4
                &&& final(src).rest() == old(src).rest().skip(4)
            },
            None => old(src).rest().len() < 4 && final(src).position() == old(src).position(),
        },
{
    reveal(from_be32);
    match src.take(4) {
        Some(b) => {
            let v: u32 = (b[0] as u32) * 0x100_0000 + (b[1] as u32) * 0x1_0000 + (b[2] as u32)
                * 0x100 + (b[3] as u32);
            Some(v)
        },
        None => None,
    }
}

/// Reads eight bytes as one number, or nothing if fewer are left.
pub fn get_be64(src: &mut ByteReader<'_>) -> (r: Option<u64>)
    ensures
        final(src).data() == old(src).data(),
        match r {
            Some(v) => {
                &&& old(src).rest().len() >= 8
                &&& v == from_be64(old(src).rest())
                &&& final(src).position() == old(src).position() + 8
                &&& final(src).rest() == old(src).rest().skip(8)
            },
            None => old(src).rest().len() < 8 && final(src).position() == old(src).position(),
        },
{
    reveal(from_be32);
    reveal(from_be64);
    match src.take(8) {
        Some(b) => {
            let hi: u64 = (b[0] as u64) * 0x100_0000 + (b[1] as u64) * 0x1_0000 + (b[2] as u64)
                * 0x100 + (b[3] as u64);
            let lo: u64 = (b[4] as u64) * 0x100_0000 + (b[5] as u64) * 0x1_0000 + (b[6] as u64)
                * 0x100 + (b[7] as u64);
            assert(lo == from_be32(old(src).rest().skip(4)));
            Some(hi * 0x1_0000_0000 + lo)
        },
        None => None,
    }
}

impl Encoder for u8 {
    open spec fn encoding(v: u8, version: Version) -> Seq<u8> {
        seq![v]
    }

    open spec fn encodable(v: u8, version: Version) -> bool {
        true
    }

    fn write_size(&self, version: Version) -> (n: usize) {
        1
    }

    fn encode(&self, dest: &mut Vec<u8>, version: Version) {
        dest.push(*self);
        assert(dest@ =~= old(dest)@ + seq![*self]);
    }
}

impl Decoder for u8 {
    open spec fn decoding(src: Seq<u8>, version: Version) -> Result<(u8, nat), DecodeError> {
        if src.len() < 1 {
            Err(DecodeError::UnexpectedEnd)
        } else {
            Ok((src[0], 1nat))
        }
    }

    open spec fn failure_at(src: Seq<u8>, version: Version) -> nat {
        0
    }

    fn decode(&mut self, src: &mut ByteReader<'_>, version: Version) -> (r: Result<
        (),
        DecodeError,
    >) {
        match src.get_u8() {
            Some(b) => {
                *self = b;
                Ok(())
            },
            None => Err(DecodeError::UnexpectedEnd),
        }
    }

    proof fn lemma_decoding_in_bounds(src: Seq<u8>, version: Version) {
    }

    proof fn lemma_round_trip(v: u8, version: Version, tail: Seq<u8>) {
    }
}

impl Encoder for i8 {
    open spec fn encoding(v: i8, version: Version) -> Seq<u8> {
        seq![to_unsigned(v as int, 0x100) as u8]
    }

    open spec fn encodable(v: i8, version: Version) -> bool {
        true
    }

    fn write_size(&self, version: Version) -> (n: usize) {
        1
    }

    fn encode(&self, dest: &mut Vec<u8>, version: Version) {
        let v: i8 = *self;
        let u: u8 = if v >= 0 {
            v as u8
        } else {
            ((v + 1) + i8::MAX) as u8 + 0x80
        };
        dest.push(u);
        assert(dest@ =~= old(dest)@ + seq![u]);
    }
}

impl Decoder for i8 {
    open spec fn decoding(src: Seq<u8>, version: Version) -> Result<(i8, nat), DecodeError> {
        if src.len() < 1 {
            Err(DecodeError::UnexpectedEnd)
        } else {
            Ok((to_signed(src[0] as nat, 0x100) as i8, 1nat))
        }
    }

    open spec fn failure_at(src: Seq<u8>, version: Version) -> nat {
        0
    }

    fn decode(&mut self, src: &mut ByteReader<'_>, version: Version) -> (r: Result<
        (),
        DecodeError,
    >) {
        match src.get_u8() {
            Some(u) => {
                let v: i8 = if u < 0x80 {
                    u as i8
                } else {
                    ((u - 0x80) as i8) + i8::MIN
                };
                *self = v;
                Ok(())
            },
            None => Err(DecodeError::UnexpectedEnd),
        }
    }

    proof fn lemma_decoding_in_bounds(src: Seq<u8>, version: Version) {
    }

    proof fn lemma_round_trip(v: i8, version: Version, tail: Seq<u8>) {
    }
}

/// The byte that stands for a flag.
pub open spec fn flag_byte(v: bool) -> u8 {
    if v {
        1
    } else {
        0
    }
}

impl Encoder for bool {
    open spec fn encoding(v: bool, version: Version) -> Seq<u8> {
        seq![flag_byte(v)]
    }

    open spec fn encodable(v: bool, version: Version) -> bool {
        true
    }

    fn write_size(&self, version: Version) -> (n: usize) {
        1
    }

    fn encode(&self, dest: &mut Vec<u8>, version: Version) {
        let b: u8 = if *self { 1 } else { 0 };
        dest.push(b);
        assert(b == flag_byte(*self));
        assert(dest@ =~= old(dest)@ + seq![flag_byte(*self)]);
    }
}

impl Decoder for bool {
    open spec fn decoding(src: Seq<u8>, version: Version) -> Result<(bool, nat), DecodeError> {
        if src.len() < 1 {
            Err(DecodeError::UnexpectedEnd)
        } else if src[0] == 0 {
            Ok((false, 1nat))
        } else if src[0] == 1 {
            Ok((true, 1nat))
        } else {
            Err(DecodeError::InvalidData { reason: Invalid::Flag(src[0]) })
        }
    }

    open spec fn failure_at(src: Seq<u8>, version: Version) -> nat {
        if src.len() < 1 {
            0
        } else {
            1
        }
    }

    fn decode(&mut self, src: &mut ByteReader<'_>, version: Version) -> (r: Result<
        (),
        DecodeError,
    >) {
        match src.get_u8() {
            Some(b) => {
                if b == 0 {
                    *self = false;
                    Ok(())
                } else if b == 1 {
                    *self = true;
                    Ok(())
                } else {
                    Err(DecodeError::InvalidData { reason: Invalid::Flag(b) })
                }
            },
            None => Err(DecodeError::UnexpectedEnd),
        }
    }

    proof fn lemma_decoding_in_bounds(src: Seq<u8>, version: Version) {
    }

    proof fn lemma_round_trip(v: bool, version: Version, tail: Seq<u8>) {
    }
}

impl Encoder for u16 {
    open spec fn encoding(v: u16, version: Version) -> Seq<u8> {
        be16(v as nat)
    }

    open spec fn encodable(v: u16, version: Version) -> bool {
        true
    }

    fn write_size(&self, version: Version) -> (n: usize) {
        2
    }

    fn encode(&self, dest: &mut Vec<u8>, version: Version) {
        put_be16(dest, *self);
    }
}

impl Decoder for u16 {
    open spec fn decoding(src: Seq<u8>, version: Version) -> Result<(u16, nat), DecodeError> {
        if src.len() < 2 {
            Err(DecodeError::UnexpectedEnd)
        } else {
            Ok((from_be16(src) as u16, 2nat))
        }
    }

    open spec fn failure_at(src: Seq<u8>, version: Version) -> nat {
        0
    }

    fn decode(&mut self, src: &mut ByteReader<'_>, version: Version) -> (r: Result<
        (),
        DecodeError,
    >) {
        match get_be16(src) {
            Some(v) => {
                *self = v;
                Ok(())
            },
            None => Err(DecodeError::UnexpectedEnd),
        }
    }

    proof fn lemma_decoding_in_bounds(src: Seq<u8>, version: Version) {
    }

    proof fn lemma_round_trip(v: u16, version: Version, tail: Seq<u8>) {
        lemma_be16_round_trip(v as nat);
        lemma_from_be_prefix(be16(v as nat), tail);
    }
}

impl Encoder for i16 {
    open spec fn encoding(v: i16, version: Version) -> Seq<u8> {
        be16(to_unsigned(v as int, 0x1_0000))
    }

    open spec fn encodable(v: i16, version: Version) -> bool {
        true
    }

    fn write_size(&self, version: Version) -> (n: usize) {
        2
    }

    fn encode(&self, dest: &mut Vec<u8>, version: Version) {
        let v: i16 = *self;
        let u: u16 = if v >= 0 {
            v as u16
        } else {
            ((v + 1) + i16::MAX) as u16 + 0x8000
        };
        put_be16(dest, u);
    }
}

impl Decoder for i16 {
    open spec fn decoding(src: Seq<u8>, version: Version) -> Result<(i16, nat), DecodeError> {
        if src.len() < 2 {
            Err(DecodeError::UnexpectedEnd)
        } else {
            Ok((to_signed(from_be16(src), 0x1_0000) as i16, 2nat))
        }
    }

    open spec fn failure_at(src: Seq<u8>, version: Version) -> nat {
        0
    }

    fn decode(&mut self, src: &mut ByteReader<'_>, version: Version) -> (r: Result<
        (),
        DecodeError,
    >) {
        match get_be16(src) {
            Some(u) => {
                let v: i16 = if u < 0x8000 {
                    u as i16
                } else {
                    ((u - 0x8000) as i16) + i16::MIN
                };
                *self = v;
                Ok(())
            },
            None => Err(DecodeError::UnexpectedEnd),
        }
    }

    proof fn lemma_decoding_in_bounds(src: Seq<u8>, version: Version) {
    }

    proof fn lemma_round_trip(v: i16, version: Version, tail: Seq<u8>) {
        let u = to_unsigned(v as int, 0x1_0000);
        lemma_be16_round_trip(u);
        lemma_from_be_prefix(be16(u), tail);
    }
}

impl Encoder for u32 {
    open spec fn encoding(v: u32, version: Version) -> Seq<u8> {
        be32(v as nat)
    }

    open spec fn encodable(v: u32, version: Version) -> bool {
        true
    }

    fn write_size(&self, version: Version) -> (n: usize) {
        4
    }

    fn encode(&self, dest: &mut Vec<u8>, version: Version) {
        put_be32(dest, *self);
    }
}

impl Decoder for u32 {
    open spec fn decoding(src: Seq<u8>, version: Version) -> Result<(u32, nat), DecodeError> {
        if src.len() < 4 {
            Err(DecodeError::UnexpectedEnd)
        } else {
            Ok((from_be32(src) as u32, 4nat))
        }
    }

    open spec fn failure_at(src: Seq<u8>, version: Version) -> nat {
        0
    }

    fn decode(&mut self, src: &mut ByteReader<'_>, version: Version) -> (r: Result<
        (),
        DecodeError,
    >) {
        match get_be32(src) {
            Some(v) => {
                *self = v;
                Ok(())
            },
            None => Err(DecodeError::UnexpectedEnd),
        }
    }

    proof fn lemma_decoding_in_bounds(src: Seq<u8>, version: Version) {
    }

    proof fn lemma_round_trip(v: u32, version: Version, tail: Seq<u8>) {
        lemma_be32_round_trip(v as nat);
        lemma_from_be_prefix(be32(v as nat), tail);
    }
}

impl Encoder for i32 {
    open spec fn encoding(v: i32, version: Version) -> Seq<u8> {
        be32(to_unsigned(v as int, 0x1_0000_0000))
    }

    open spec fn encodable(v: i32, version: Version) -> bool {
        true
    }

    fn write_size(&self, version: Version) -> (n: usize) {
        4
    }

    fn encode(&self, dest: &mut Vec<u8>, version: Version) {
        let v: i32 = *self;
        let u: u32 = if v >= 0 {
            v as u32
        } else {
            ((v + 1) + i32::MAX) as u32 + 0x8000_0000
        };
        put_be32(dest, u);
    }
}

impl Decoder for i32 {
    open spec fn decoding(src: Seq<u8>, version: Version) -> Result<(i32, nat), DecodeError> {
        if src.len() < 4 {
            Err(DecodeError::UnexpectedEnd)
        } else {
            Ok((to_signed(from_be32(src), 0x1_0000_0000) as i32, 4nat))
        }
    }

    open spec fn failure_at(src: Seq<u8>, version: Version) -> nat {
        0
    }

    fn decode(&mut self, src: &mut ByteReader<'_>, version: Version) -> (r: Result<
        (),
        DecodeError,
    >) {
        match get_be32(src) {
            Some(u) => {
                let v: i32 = if u < 0x8000_0000 {
                    u as i32
                } else {
                    ((u - 0x8000_0000) as i32) + i32::MIN
                };
                *self = v;
                Ok(())
            },
            None => Err(DecodeError::UnexpectedEnd),
        }
    }

    proof fn lemma_decoding_in_bounds(src: Seq<u8>, version: Version) {
    }

    proof fn lemma_round_trip(v: i32, version: Version, tail: Seq<u8>) {
        let u = to_unsigned(v as int, 0x1_0000_0000);
        lemma_be32_round_trip(u);
        lemma_from_be_prefix(be32(u), tail);
    }
}

impl Encoder for i64 {
    open spec fn encoding(v: i64, version: Version) -> Seq<u8> {
        be64(to_unsigned(v as int, 0x1_0000_0000_0000_0000))
    }

    open spec fn encodable(v: i64, version: Version) -> bool {
        true
    }

    fn write_size(&self, version: Version) -> (n: usize) {
        8
    }

    fn encode(&self, dest: &mut Vec<u8>, version: Version) {
        let v: i64 = *self;
        let u: u64 = if v >= 0 {
            v as u64
        } else {
            ((v + 1) + i64::MAX) as u64 + 0x8000_0000_0000_0000
        };
        put_be64(dest, u);
    }
}

impl Decoder for i64 {
    open spec fn decoding(src: Seq<u8>, version: Version) -> Result<(i64, nat), DecodeError> {
        if src.len() < 8 {
            Err(DecodeError::UnexpectedEnd)
        } else {
            Ok((to_signed(from_be64(src), 0x1_0000_0000_0000_0000) as i64, 8nat))
        }
    }

    open spec fn failure_at(src: Seq<u8>, version: Version) -> nat {
        0
    }

    fn decode(&mut self, src: &mut ByteReader<'_>, version: Version) -> (r: Result<
        (),
        DecodeError,
    >) {
        match get_be64(src) {
            Some(u) => {
                let v: i64 = if u < 0x8000_0000_0000_0000 {
                    u as i64
                } else {
                    ((u - 0x8000_0000_0000_0000) as i64) + i64::MIN
                };
                *self = v;
                Ok(())
            },
            None => Err(DecodeError::UnexpectedEnd),
        }
    }

    proof fn lemma_decoding_in_bounds(src: Seq<u8>, version: Version) {
    }

    proof fn lemma_round_trip(v: i64, version: Version, tail: Seq<u8>) {
        let u = to_unsigned(v as int, 0x1_0000_0000_0000_0000);
        lemma_be64_round_trip(u);
        lemma_from_be_prefix(be64(u), tail);
    }
}

/// An integer of fixed width is read from its own bytes: what follows them
/// does not matter.
pub proof fn lemma_fixed_width_prefix(a: Seq<u8>, tail: Seq<u8>, version: Version)
    ensures
        a.len() >= 1 ==> u8::decoding(a + tail, version) == u8::decoding(a, version),
        a.len() >= 1 ==> i8::decoding(a + tail, version) == i8::decoding(a, version),
        a.len() >= 2 ==> u16::decoding(a + tail, version) == u16::decoding(a, version),
        a.len() >= 2 ==> i16::decoding(a + tail, version) == i16::decoding(a, version),
        a.len() >= 4 ==> u32::decoding(a + tail, version) == u32::decoding(a, version),
        a.len() >= 4 ==> i32::decoding(a + tail, version) == i32::decoding(a, version),
        a.len() >= 8 ==> i64::decoding(a + tail, version) == i64::decoding(a, version),
{
    lemma_from_be_prefix(a, tail);
}

} // verus!
