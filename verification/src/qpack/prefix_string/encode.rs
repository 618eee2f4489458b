//! Encoding with the Huffman code.
//!
//! See <https://www.rfc-editor.org/rfc/rfc7541.html#section-5.2>.
use vstd::prelude::*;
use vstd::arithmetic::power2::{lemma2_to64, lemma_pow2_adds, lemma_pow2_pos, lemma_pow2_strictly_increases, pow2};
use super::bits::{
    bits_bytes, bytes_bits, lemma_bits_bytes, lemma_bytes_bits_injective, lemma_bytes_bits_len,
    lemma_bytes_bits_push, lemma_high_bound, lemma_ones, lemma_to_bits_concat, lemma_to_bits_len,
    lemma_to_bits_split, ones, to_bits,
};
use super::code::{code_bits, code_for, lemma_code_fits};

verus! {

#[derive(Debug, Clone, Copy, PartialEq, Eq, Structural)]
pub enum Error {
    BitCount(u8),
}

/// The codes of the symbols of `value`, one after the other.
pub open spec fn encode_bits(value: Seq<u8>) -> Seq<bool>
    decreases value.len(),
{
    if value.len() == 0 {
        Seq::empty()
    } else {
        code_bits(value[0] as int) + encode_bits(value.skip(1))
    }
}

/// How many set bits fill the last byte after `n` bits.
pub open spec fn padding(n: nat) -> nat {
    ((8 - n % 8) % 8) as nat
}

/// The Huffman encoding of `value`: the codes, padded with set bits to whole bytes.
pub open spec fn encode_spec(value: Seq<u8>) -> Seq<u8> {
    let bits = encode_bits(value);
    bits_bytes(bits + ones(padding(bits.len())))
}

/// The code of one symbol more.
pub proof fn lemma_encode_bits_push(value: Seq<u8>, symbol: u8)
    ensures
        encode_bits(value.push(symbol)) == encode_bits(value) + code_bits(symbol as int),
    decreases value.len(),
{
    let all = value.push(symbol);
    if value.len() == 0 {
        assert(all.skip(1) =~= Seq::<u8>::empty());
        assert(encode_bits(all.skip(1)) =~= Seq::<bool>::empty());
        assert(encode_bits(all) =~= encode_bits(value) + code_bits(symbol as int));
    } else {
        lemma_encode_bits_push(value.skip(1), symbol);
        assert(all.skip(1) =~= value.skip(1).push(symbol));
        assert(encode_bits(all) =~= encode_bits(value) + code_bits(symbol as int));
    }
}

/// Codes and padding fill whole bytes, and an encoding is known by its bits.
pub proof fn lemma_encode_spec(value: Seq<u8>)
    ensures
        bytes_bits(encode_spec(value)) == encode_bits(value) + ones(
            padding(encode_bits(value).len()),
        ),
        forall|data: Seq<u8>|
            bytes_bits(data) == encode_bits(value) + ones(padding(encode_bits(value).len()))
                ==> data == encode_spec(value),
{
    let n = encode_bits(value).len();
    let bits = encode_bits(value) + ones(padding(n));
    assert(bits.len() % 8 == 0);
    lemma_bits_bytes(bits);
    assert forall|data: Seq<u8>| bytes_bits(data) == bits implies data == encode_spec(value) by {
        lemma_bytes_bits_injective(data, encode_spec(value));
    }
}

/// The power of two with exponent `n`.
pub(super) fn power(n: u8) -> (p: u64)
    requires
        n < 64,
    ensures
        p == pow2(n as nat),
        p >= 1,
{
    proof {
        lemma_pow2_pos(n as nat);
        lemma2_to64();
        lemma_pow2_strictly_increases(n as nat, 64);
        vstd::arithmetic::power2::lemma2_to64_rest();
        vstd::bits::lemma_u64_shl_is_mul(1, n as u64);
    }
    1u64 << (n as u64)
}

/// Encoding with the Huffman code.
pub trait HpackStringEncode {
    spec fn octets(&self) -> Seq<u8>;

    fn hpack_encode(&self) -> (encoded: Result<Vec<u8>, Error>)
        ensures
            encoded is Ok,
            encoded->Ok_0@ == encode_spec(self.octets()),
    ;
}

impl HpackStringEncode for Vec<u8> {
    open spec fn octets(&self) -> Seq<u8> {
        self@
    }

    fn hpack_encode(&self) -> (encoded: Result<Vec<u8>, Error>) {
        self.as_slice().hpack_encode()
    }
}

impl HpackStringEncode for [u8] {
    open spec fn octets(&self) -> Seq<u8> {
        self@
    }

    fn hpack_encode(&self) -> (encoded: Result<Vec<u8>, Error>) {
        let mut out: Vec<u8> = Vec::new();
        let mut bits: u64 = 0;
        let mut bit_count: u8 = 0;
        let mut i: usize = 0;
        proof {
            lemma2_to64();
            assert(bytes_bits(out@) + to_bits(0, 0) =~= encode_bits(self@.take(0)));
        }
        while i < self.len()
            invariant
                i <= self@.len(),
                bit_count < 8,
                bits < pow2(bit_count as nat),
                bytes_bits(out@) + to_bits(bits as nat, bit_count as nat) == encode_bits(
                    self@.take(i as int),
                ),
            decreases self@.len() - i,
        {
            let (code, len) = code_for(self[i] as u16);
            let ghost symbol = self[i as int];
            let ghost before = bytes_bits(out@);
            let ghost pending = to_bits(bits as nat, bit_count as nat);
            proof {
                lemma_code_fits(symbol as int);
                lemma2_to64();
                if bit_count < 8 {
                    lemma_pow2_strictly_increases(bit_count as nat, 8);
                }
                if len < 31 {
                    lemma_pow2_strictly_increases(len as nat, 31);
                }
                assert(bits * pow2(len as nat) < 256 * 0x8000_0000) by (nonlinear_arith)
                    requires
                        bits < 256,
                        pow2(len as nat) < 0x8000_0000,
                ;
                lemma_to_bits_concat(bits as nat, bit_count as nat, code as nat, len as nat);
                lemma_pow2_adds(bit_count as nat, len as nat);
                assert(bits * pow2(len as nat) + code < pow2(bit_count as nat) * pow2(len as nat))
                    by (nonlinear_arith)
                    requires
                        bits + 1 <= pow2(bit_count as nat),
                        code < pow2(len as nat),
                ;
                assert(self@.take(i + 1) =~= self@.take(i as int).push(symbol));
                lemma_encode_bits_push(self@.take(i as int), symbol);
            }
            bits = bits * power(len) + code as u64;
            bit_count = bit_count + len;
            assert(before + to_bits(bits as nat, bit_count as nat) =~= encode_bits(
                self@.take(i + 1),
            ));
            while bit_count >= 8
                invariant
                    i < self@.len(),
                    bit_count <= 37,
                    bits < pow2(bit_count as nat),
                    bytes_bits(out@) + to_bits(bits as nat, bit_count as nat) == encode_bits(
                        self@.take(i + 1),
                    ),
                decreases bit_count,
            {
                let rest: u8 = bit_count - 8;
                let unit: u64 = power(rest);
                proof {
                    lemma2_to64();
                    lemma_high_bound(bits as nat, bit_count as nat, 8);
                    lemma_to_bits_split(bits as nat, bit_count as nat, 8);
                    lemma_bytes_bits_push(out@, (bits / unit) as u8);
                    assert(bytes_bits(out@) + (to_bits(bits as nat / unit as nat, 8) + to_bits(
                        bits as nat % unit as nat,
                        rest as nat,
                    )) =~= (bytes_bits(out@) + to_bits(bits as nat / unit as nat, 8)) + to_bits(
                        bits as nat % unit as nat,
                        rest as nat,
                    ));
                }
                out.push((bits / unit) as u8);
                bits = bits % unit;
                bit_count = rest;
            }
            i = i + 1;
        }
        assert(self@.take(i as int) =~= self@);
        proof {
            lemma_encode_spec(self@);
            lemma_bytes_bits_len(out@);
            lemma_to_bits_len(bits as nat, bit_count as nat);
        }
        if bit_count > 0 {
            let missing: u8 = 8 - bit_count;
            let unit: u64 = power(missing);
            let ghost before = out@;
            proof {
                lemma2_to64();
                lemma_pow2_adds(bit_count as nat, missing as nat);
                assert(bits * unit + (unit - 1) < pow2(bit_count as nat) * unit && bits * unit >= 0)
                    by (nonlinear_arith)
                    requires
                        0 <= bits,
                        bits + 1 <= pow2(bit_count as nat),
                        unit >= 1,
                ;
                lemma_to_bits_concat(
                    bits as nat,
                    bit_count as nat,
                    (unit - 1) as nat,
                    missing as nat,
                );
                lemma_ones(missing as nat);
                lemma_bytes_bits_push(before, (bits * unit + (unit - 1)) as u8);
            }
            out.push((bits * unit + (unit - 1)) as u8);
            assert(bytes_bits(out@) =~= encode_bits(self@) + ones(missing as nat));
        } else {
            assert(bytes_bits(out@) =~= encode_bits(self@) + ones(0));
        }
        Ok(out)
    }
}

} // verus!
