//! Text: a signed 16-bit byte count, then that many bytes of UTF-8.

use vstd::prelude::*;
use vstd::utf8::{decode_utf8, encode_utf8, valid_utf8};
use vstd::utf8::{encode_utf8_decode_utf8, encode_utf8_valid_utf8, is_ascii_chars_encode_utf8};
use crate::codec::error::{DecodeError, Invalid};
use crate::codec::reader::ByteReader;
use crate::codec::sequence::lemma_join2;
use crate::codec::traits::{Decoder, Encoder, Version};

verus! {

/// The longest text, in bytes of UTF-8, that can be read back.
pub const MAX_TEXT_LEN: usize = 0x7fff;

/// `core::str::from_utf8`: the text whose UTF-8 spelling is `bytes`, if
/// `bytes` is well-formed UTF-8, and nothing otherwise.
#[verifier::external_body]
pub(crate) fn text_of<'a>(bytes: &'a [u8]) -> (r: Option<&'a str>)
    ensures
        match r {
            Some(s) => valid_utf8(bytes@) && encode_utf8(s@) == bytes@,
            None => !valid_utf8(bytes@),
        },
{
    core::str::from_utf8(bytes).ok()
}

/// The length prefix for `len` bytes of text.
pub open spec fn text_prefix(len: nat) -> i16 {
    (len % 0x8000) as i16
}

impl Encoder for String {
    open spec fn encoding(v: Seq<char>, version: Version) -> Seq<u8> {
        i16::encoding(text_prefix(encode_utf8(v).len()), version) + encode_utf8(v)
    }

    open spec fn encodable(v: Seq<char>, version: Version) -> bool {
        encode_utf8(v).len() <= MAX_TEXT_LEN
    }

    fn write_size(&self, version: Version) -> (n: usize) {
        2 + self.as_str().len()
    }

    fn encode(&self, dest: &mut Vec<u8>, version: Version) {
        let bytes = self.as_str().as_bytes();
        let prefix: i16 = (bytes.len() % 0x8000) as i16;
        prefix.encode(dest, version);
        dest.extend_from_slice(bytes);
    }
}

impl Decoder for String {
    open spec fn decoding(src: Seq<u8>, version: Version) -> Result<(Seq<char>, nat), DecodeError> {
        match i16::decoding(src, version) {
            Err(e) => Err(e),
            Ok((len, _)) => if len <= 0 {
                Ok((Seq::empty(), 2nat))
            } else if src.len() < 2 + len {
                Err(DecodeError::UnexpectedEnd)
            } else if valid_utf8(src.subrange(2, 2 + len)) {
                Ok((decode_utf8(src.subrange(2, 2 + len)), (2 + len) as nat))
            } else {
                Err(DecodeError::InvalidData { reason: Invalid::Text })
            },
        }
    }

    open spec fn failure_at(src: Seq<u8>, version: Version) -> nat {
        match i16::decoding(src, version) {
            Err(_) => 0,
            Ok((len, _)) => if src.len() < 2 + len {
                2
            } else {
                (2 + len) as nat
            },
        }
    }

    fn decode(&mut self, src: &mut ByteReader<'_>, version: Version) -> (r: Result<
        (),
        DecodeError,
    >) {
        let ghost rest0 = src.rest();
        let mut len: i16 = 0;
        match len.decode(src, version) {
            Err(e) => Err(e),
            Ok(_) => {
                if len <= 0 {
                    *self = String::new();
                    Ok(())
                } else {
                    match src.take(len as usize) {
                        None => Err(DecodeError::UnexpectedEnd),
                        Some(bytes) => {
                            assert(bytes@ =~= rest0.subrange(2, 2 + len));
                            match text_of(bytes) {
                                None => Err(DecodeError::InvalidData { reason: Invalid::Text }),
                                Some(s) => {
                                    proof {
                                        encode_utf8_decode_utf8(s@);
                                        assert(src.rest() =~= rest0.skip(2 + len));
                                    }
                                    *self = s.to_owned();
                                    Ok(())
                                },
                            }
                        },
                    }
                }
            },
        }
    }

    proof fn lemma_decoding_in_bounds(src: Seq<u8>, version: Version) {
    }

    proof fn lemma_round_trip(v: Seq<char>, version: Version, tail: Seq<u8>) {
        let text = encode_utf8(v);
        let len = text.len();
        let prefix = i16::encoding(text_prefix(len), version);
        encode_utf8_valid_utf8(v);
        encode_utf8_decode_utf8(v);
        let whole = prefix + text + tail;
        lemma_join2(prefix, text, tail);
        i16::lemma_round_trip(text_prefix(len), version, text + tail);
        if len > 0 {
            assert(whole.subrange(2, 2 + len as int) =~= text);
        } else {
            assert(text =~= Seq::<u8>::empty());
            assert(decode_utf8(text) =~= Seq::<char>::empty());
        }
    }
}

/// The characters that ASCII `bytes` spell, one for each byte.
pub open spec fn ascii_chars(bytes: Seq<u8>) -> Seq<char> {
    Seq::new(bytes.len(), |i: int| bytes[i] as char)
}

/// Whether every byte of `bytes` is ASCII.
pub open spec fn all_ascii(bytes: Seq<u8>) -> bool {
    forall|i: int| 0 <= i < bytes.len() ==> #[trigger] bytes[i] < 0x80
}

/// ASCII bytes are UTF-8, and spell one character for each byte.
pub proof fn lemma_ascii_is_text(bytes: Seq<u8>)
    requires
        all_ascii(bytes),
    ensures
        valid_utf8(bytes),
        decode_utf8(bytes) == ascii_chars(bytes),
        encode_utf8(ascii_chars(bytes)) == bytes,
{
    let chars = ascii_chars(bytes);
    assert forall|i: int| 0 <= i < chars.len() implies '\0' <= #[trigger] chars[i] <= '\u{7f}' by {
        assert(bytes[i] < 0x80);
    }
    is_ascii_chars_encode_utf8(chars);
    assert(encode_utf8(chars) =~= bytes) by {
        assert forall|i: int| 0 <= i < bytes.len() implies encode_utf8(chars)[i] == bytes[i] by {
            assert(chars[i] as u8 == encode_utf8(chars)[i]);
            assert(bytes[i] < 0x80);
        }
    }
    encode_utf8_valid_utf8(chars);
    encode_utf8_decode_utf8(chars);
}

/// The text that ASCII `bytes` spell.
pub fn ascii_text(bytes: &[u8]) -> (r: String)
    requires
        all_ascii(bytes@),
    ensures
        r@ == ascii_chars(bytes@),
{
    proof {
        lemma_ascii_is_text(bytes@);
    }
    match text_of(bytes) {
        Some(s) => {
            proof {
                encode_utf8_decode_utf8(s@);
            }
            s.to_owned()
        },
        None => String::new(),
    }
}

} // verus!
