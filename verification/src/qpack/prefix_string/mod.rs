//! Length prefixed strings, plain or Huffman encoded.
//!
//! See <https://www.rfc-editor.org/rfc/rfc7541.html#section-5.2>.
use vstd::prelude::*;
use vstd::arithmetic::power2::pow2;
use crate::buf::{put_slice, to_vec, view_ok, Reader};
use crate::qpack::prefix_int;
use self::encode::encode_spec as huffman_encode;
use self::decode::decode_spec as huffman_decode;

pub use self::bitwin::{read_bits, BitWindow};
pub use self::decode::{Error as HuffmanDecodingError, HpackStringDecode};
pub use self::encode::{Error as HuffmanEncodingError, HpackStringEncode};
pub use crate::qpack::prefix_int::Error as IntegerError;

pub mod bits;
pub mod bitwin;
pub mod code;
pub mod decode;
pub mod encode;

verus! {

#[derive(Debug, Clone, Copy, PartialEq, Eq, Structural)]
pub enum Error {
    UnexpectedEnd,
    EncodedStringTooLong { len: u64, limit: usize },
    Integer(IntegerError),
    HuffmanDecoding(HuffmanDecodingError),
    HuffmanEncoding(HuffmanEncodingError),
    BufSize,
}

/// How the length of a string that cannot be read is reported.
pub open spec fn integer_error(error: IntegerError) -> Error {
    match error {
        IntegerError::UnexpectedEnd => Error::UnexpectedEnd,
        IntegerError::Overflow => Error::Integer(IntegerError::Overflow),
    }
}

/// The string with a `size` bit prefix at the front of `s`: one bit above the
/// length tells whether it is Huffman encoded. With it come the bytes that are
/// left.
pub open spec fn decode_limited_spec(size: u8, s: Seq<u8>, max_encoded_len: usize) -> (
    Result<Seq<u8>, Error>,
    Seq<u8>,
) {
    let (prefix, rest) = prefix_int::decode_spec((size - 1) as u8, s);
    match prefix {
        Err(error) => (Err(integer_error(error)), rest),
        Ok((flags, len)) => {
            if len > max_encoded_len {
                (Err(Error::EncodedStringTooLong { len, limit: max_encoded_len }), rest)
            } else if rest.len() < len {
                (Err(Error::UnexpectedEnd), rest)
            } else if flags % 2 == 0 {
                (Ok(rest.take(len as int)), rest.skip(len as int))
            } else {
                match huffman_decode(rest.take(len as int)) {
                    Ok(value) => (Ok(value), rest.skip(len as int)),
                    Err(error) => (Err(Error::HuffmanDecoding(error)), rest.skip(len as int)),
                }
            }
        },
    }
}

/// The bytes of `value`, Huffman encoded, with a `size` bit prefix below `flags`.
pub open spec fn encode_spec(size: u8, flags: u8, value: Seq<u8>) -> Seq<u8> {
    let encoded = huffman_encode(value);
    prefix_int::encode_spec(
        (size - 1) as u8,
        ((2 * flags) % 256 + 1) as u8,
        encoded.len() as u64,
    ) + encoded
}

/// Reads a string with a `size` bit prefix.
pub fn decode(size: u8, buf: &mut Reader) -> (result: Result<Vec<u8>, Error>)
    requires
        1 <= size <= 8,
    ensures
        (view_ok(result), final(buf)@) == decode_limited_spec(size, old(buf)@, usize::MAX),
{
    decode_limited(size, buf, usize::MAX)
}

/// Reads a string with a `size` bit prefix, unless its encoded length is above
/// `max_encoded_len`.
pub fn decode_limited(size: u8, buf: &mut Reader, max_encoded_len: usize) -> (result: Result<
    Vec<u8>,
    Error,
>)
    requires
        1 <= size <= 8,
    ensures
        (view_ok(result), final(buf)@) == decode_limited_spec(size, old(buf)@, max_encoded_len),
{
    let (flags, len) = match prefix_int::decode(size - 1, buf) {
        Ok(prefix) => prefix,
        Err(IntegerError::UnexpectedEnd) => return Err(Error::UnexpectedEnd),
        Err(error) => return Err(Error::Integer(error)),
    };
    if len > max_encoded_len as u64 {
        return Err(Error::EncodedStringTooLong { len, limit: max_encoded_len });
    }
    let len: usize = len as usize;
    if buf.remaining() < len {
        return Err(Error::UnexpectedEnd);
    }
    let payload = buf.take(len);
    if flags % 2 == 0 {
        return Ok(to_vec(payload));
    }
    match payload.hpack_decode().collect() {
        Ok(decoded) => Ok(decoded),
        Err(error) => Err(Error::HuffmanDecoding(error)),
    }
}

/// Writes `value`, Huffman encoded, with a `size` bit prefix below `flags`.
pub fn encode(size: u8, flags: u8, value: &[u8], buf: &mut Vec<u8>) -> (result: Result<(), Error>)
    requires
        1 <= size <= 8,
    ensures
        result is Ok,
        final(buf)@ == old(buf)@ + encode_spec(size, flags, value@),
{
    let encoded: Vec<u8> = match value.hpack_encode() {
        Ok(encoded) => encoded,
        Err(error) => return Err(Error::HuffmanEncoding(error)),
    };
    let marked: u8 = ((2 * flags as u16) % 256 + 1) as u8;
    prefix_int::encode(size - 1, marked, encoded.len() as u64, buf);
    put_slice(buf, encoded.as_slice());
    assert(buf@ =~= old(buf)@ + encode_spec(size, flags, value@));
    Ok(())
}

/// Reading a string takes at least one byte, and never gives bytes back.
pub proof fn lemma_consumes(size: u8, s: Seq<u8>, limit: usize)
    requires
        1 <= size <= 8,
    ensures
        decode_limited_spec(size, s, limit).1.len() <= s.len(),
        decode_limited_spec(size, s, limit).0 is Ok ==> decode_limited_spec(size, s, limit).1.len()
            < s.len(),
{
    prefix_int::lemma_consumes((size - 1) as u8, s);
}

/// Reading back a string that was written gives the string, and takes no byte of
/// what follows.
pub proof fn round_trip(size: u8, flags: u8, value: Seq<u8>, rest: Seq<u8>, limit: usize)
    requires
        1 <= size <= 8,
        huffman_encode(value).len() <= limit,
    ensures
        decode_limited_spec(size, encode_spec(size, flags, value) + rest, limit) == (
            Ok::<Seq<u8>, Error>(value),
            rest,
        ),
{
    let encoded = huffman_encode(value);
    let marked = ((2 * flags) % 256 + 1) as u8;
    let n = pow2((8 - (size - 1)) as nat) as int;
    let half = pow2((8 - size) as nat) as int;
    vstd::arithmetic::power2::lemma_pow2_unfold((9 - size) as nat);
    vstd::arithmetic::power2::lemma_pow2_pos((8 - size) as nat);
    assert((marked as int % n) % 2 == 1) by {
        vstd::arithmetic::div_mod::lemma_mod_mod(marked as int, 2, half);
    }
    assert(0 <= marked as int % n <= marked) by {
        vstd::arithmetic::div_mod::lemma_mod_decreases(marked as nat, n as nat);
    }
    let head = prefix_int::encode_spec((size - 1) as u8, marked, encoded.len() as u64);
    assert(encode_spec(size, flags, value) + rest =~= head + (encoded + rest));
    prefix_int::round_trip((size - 1) as u8, marked, encoded.len() as u64, encoded + rest);
    assert((encoded + rest).take(encoded.len() as int) =~= encoded);
    assert((encoded + rest).skip(encoded.len() as int) =~= rest);
    decode::decode_inverts_encode(value);
}

/// Whether the bit above the length of a string is set.
proof fn lemma_coding_bit(size: u8, flags: u8, huffman: bool)
    requires
        1 <= size <= 8,
    ensures
        ({
            let marked = ((2 * flags) % 256 + if huffman {
                1int
            } else {
                0
            }) as u8;
            ((marked as int % pow2((8 - (size - 1)) as nat) as int) as u8) % 2 == if huffman {
                1int
            } else {
                0
            }
        }),
{
    let marked = ((2 * flags) % 256 + if huffman {
        1int
    } else {
        0
    }) as u8;
    let n = pow2((8 - (size - 1)) as nat) as int;
    let half = pow2((8 - size) as nat) as int;
    vstd::arithmetic::power2::lemma_pow2_unfold((9 - size) as nat);
    vstd::arithmetic::power2::lemma_pow2_pos((8 - size) as nat);
    vstd::arithmetic::div_mod::lemma_mod_mod(marked as int, 2, half);
    vstd::arithmetic::div_mod::lemma_mod_decreases(marked as nat, n as nat);
    vstd::arithmetic::div_mod::lemma_mod_bound(marked as int, n);
}

/// A string that was written as it is, without the Huffman code, is read whole, whatever its
/// bytes and its length, and no byte of what follows is taken.
pub proof fn plain_round_trip(size: u8, flags: u8, value: Seq<u8>, rest: Seq<u8>, limit: usize)
    requires
        1 <= size <= 8,
        value.len() <= limit,
    ensures
        decode_limited_spec(
            size,
            prefix_int::encode_spec(
                (size - 1) as u8,
                ((2 * flags) % 256) as u8,
                value.len() as u64,
            ) + value + rest,
            limit,
        ) == (Ok::<Seq<u8>, Error>(value), rest),
{
    let marked = ((2 * flags) % 256) as u8;
    let head = prefix_int::encode_spec((size - 1) as u8, marked, value.len() as u64);
    lemma_coding_bit(size, flags, false);
    assert(head + value + rest =~= head + (value + rest));
    prefix_int::round_trip((size - 1) as u8, marked, value.len() as u64, value + rest);
    assert((value + rest).take(value.len() as int) =~= value);
    assert((value + rest).skip(value.len() as int) =~= rest);
}

/// A string that is longer than permitted is refused, and a string that has not arrived whole
/// is not read, however it is coded.
pub proof fn strings_are_bounded(
    size: u8,
    flags: u8,
    len: u64,
    rest: Seq<u8>,
    limit: usize,
)
    requires
        1 <= size <= 8,
    ensures
        ({
            let s = prefix_int::encode_spec((size - 1) as u8, flags, len) + rest;
            &&& len > limit ==> decode_limited_spec(size, s, limit).0 == Err::<Seq<u8>, Error>(
                Error::EncodedStringTooLong { len, limit },
            )
            &&& rest.len() < len <= limit ==> decode_limited_spec(size, s, limit).0 == Err::<
                Seq<u8>,
                Error,
            >(Error::UnexpectedEnd)
        }),
{
    prefix_int::round_trip((size - 1) as u8, flags, len, rest);
}

} // verus!
