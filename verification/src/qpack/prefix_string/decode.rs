//! Decoding of the Huffman code.
//!
//! See <https://www.rfc-editor.org/rfc/rfc7541.html#section-5.2>.
use vstd::prelude::*;
use vstd::arithmetic::power2::{lemma2_to64, lemma_pow2_adds, lemma_pow2_pos, lemma_pow2_strictly_increases, lemma_pow2_unfold, pow2};
use super::bits::{
    bytes_bits, from_bits, lemma_bytes_bits_concat, lemma_bytes_bits_len, lemma_high_bound, lemma_ones,
    lemma_to_bits_concat, lemma_to_bits_injective, lemma_to_bits_len, lemma_to_bits_split,
    lemma_to_from, ones, to_bits,
};
use super::bitwin::BitWindow;
use super::code::{
    code_bits, code_count, code_len, code_value, codes_of_length, first_code, first_rank,
    lemma_code, lemma_code_fits, lemma_lengths, lemma_prefix_free, lemma_rank, symbol_for,
    symbol_of_rank, EOS_BIT_COUNT, EOS_SYMBOL,
};
use super::encode::{encode_bits, encode_spec, lemma_encode_spec, padding, power};

verus! {

#[derive(Debug, Clone, Copy, PartialEq, Eq, Structural)]
pub enum Error {
    MissingBits(BitWindow),
    Unhandled(BitWindow, usize),
    Eos,
    InvalidPadding(usize),
}

/// Whether `bits` start with the code of `symbol`.
pub open spec fn starts_with(bits: Seq<bool>, symbol: int) -> bool {
    &&& 0 <= symbol <= EOS_SYMBOL
    &&& code_len(symbol) <= bits.len()
    &&& bits.take(code_len(symbol) as int) == code_bits(symbol)
}

/// The symbol whose code stands at the front of `bits`.
pub open spec fn symbol_at(bits: Seq<bool>) -> Option<int> {
    if exists|symbol: int| starts_with(bits, symbol) {
        Some(choose|symbol: int| starts_with(bits, symbol))
    } else {
        None
    }
}

/// Whether `bits` may follow the last symbol of a string.
pub open spec fn is_padding(bits: Seq<bool>) -> bool {
    bits.len() <= 7 && bits == ones(bits.len())
}

/// The symbols whose codes make up `bits`, up to the padding.
pub open spec fn decode_bits(bits: Seq<bool>) -> Result<Seq<u8>, Error>
    decreases bits.len() via decode_bits_decreases
{
    match symbol_at(bits) {
        Some(symbol) => {
            if symbol == EOS_SYMBOL {
                Err(Error::Eos)
            } else {
                match decode_bits(bits.skip(code_len(symbol) as int)) {
                    Ok(rest) => Ok(seq![symbol as u8] + rest),
                    Err(error) => Err(error),
                }
            }
        },
        None => {
            if is_padding(bits) {
                Ok(Seq::empty())
            } else {
                Err(Error::InvalidPadding(bits.len() as usize))
            }
        },
    }
}

#[via_fn]
proof fn decode_bits_decreases(bits: Seq<bool>) {
    match symbol_at(bits) {
        Some(symbol) => {
            lemma_code_fits(symbol);
        },
        None => {},
    }
}

/// What the Huffman encoded `data` stands for.
pub open spec fn decode_spec(data: Seq<u8>) -> Result<Seq<u8>, Error> {
    decode_bits(bytes_bits(data))
}

/// At most one code stands at the front of `bits`.
pub proof fn lemma_symbol_unique(bits: Seq<bool>, symbol: int)
    requires
        starts_with(bits, symbol),
    ensures
        symbol_at(bits) == Some(symbol),
{
    let other = symbol_at(bits)->Some_0;
    assert(starts_with(bits, other));
    if code_len(symbol) <= code_len(other) {
        lemma_prefix_free(symbol, other, bits);
    } else {
        lemma_prefix_free(other, symbol, bits);
    }
}

/// A set bit run that may pad a string holds no code.
proof fn lemma_padding_is_no_symbol(bits: Seq<bool>)
    requires
        is_padding(bits),
    ensures
        symbol_at(bits) is None,
{
    if symbol_at(bits) is Some {
        let symbol = symbol_at(bits)->Some_0;
        assert(starts_with(bits, symbol));
        let len = code_len(symbol);
        lemma_code(symbol);
        lemma_code_fits(symbol);
        lemma_lengths(len as int);
        lemma_ones(len);
        lemma_pow2_pos(len);
        assert(bits.take(len as int) =~= ones(len));
        lemma_to_bits_injective(code_value(symbol), (pow2(len) - 1) as nat, len);
        assert(false);
    }
}

/// Decoding the codes of `value` and the padding gives `value` back.
proof fn lemma_decode_encoded(value: Seq<u8>, pad: nat)
    requires
        pad <= 7,
    ensures
        decode_bits(encode_bits(value) + ones(pad)) == Ok::<Seq<u8>, Error>(value),
    decreases value.len(),
{
    let bits = encode_bits(value) + ones(pad);
    if value.len() == 0 {
        assert(bits =~= ones(pad));
        lemma_padding_is_no_symbol(bits);
        assert(value =~= Seq::<u8>::empty());
    } else {
        let symbol = value[0] as int;
        let len = code_len(symbol) as int;
        lemma_code_fits(symbol);
        assert(bits.take(len) =~= code_bits(symbol));
        lemma_symbol_unique(bits, symbol);
        assert(bits.skip(len) =~= encode_bits(value.skip(1)) + ones(pad));
        lemma_decode_encoded(value.skip(1), pad);
        assert(seq![symbol as u8] + value.skip(1) =~= value);
    }
}

/// Decoding what was encoded gives the string back.
pub proof fn decode_inverts_encode(value: Seq<u8>)
    ensures
        decode_spec(encode_spec(value)) == Ok::<Seq<u8>, Error>(value),
{
    lemma_encode_spec(value);
    lemma_decode_encoded(value, padding(encode_bits(value).len()));
}

proof fn lemma_decoded_is_encoded(bits: Seq<bool>)
    requires
        decode_bits(bits) is Ok,
    ensures
        exists|pad: nat|
            pad <= 7 && bits == encode_bits(decode_bits(bits)->Ok_0) + #[trigger] ones(pad),
    decreases bits.len(),
{
    let value = decode_bits(bits)->Ok_0;
    match symbol_at(bits) {
        Some(symbol) => {
            assert(starts_with(bits, symbol));
            lemma_code_fits(symbol);
            let len = code_len(symbol) as int;
            let tail = bits.skip(len);
            lemma_decoded_is_encoded(tail);
            let rest = decode_bits(tail)->Ok_0;
            let pad = choose|pad: nat|
                pad <= 7 && tail == encode_bits(rest) + #[trigger] ones(pad);
            assert(value.skip(1) =~= rest);
            assert(bits =~= code_bits(symbol) + tail);
            assert(bits =~= encode_bits(value) + ones(pad));
        },
        None => {
            assert(bits =~= encode_bits(value) + ones(bits.len()));
        },
    }
}

/// An accepted input is the encoding of what it decodes to.
pub proof fn accepted_input_is_canonical(data: Seq<u8>)
    requires
        decode_spec(data) is Ok,
    ensures
        encode_spec(decode_spec(data)->Ok_0) == data,
{
    let bits = bytes_bits(data);
    let value = decode_spec(data)->Ok_0;
    lemma_decoded_is_encoded(bits);
    let pad = choose|pad: nat| pad <= 7 && bits == encode_bits(value) + #[trigger] ones(pad);
    lemma_bytes_bits_len(data);
    let n = encode_bits(value).len();
    assert(n + pad == 8 * data.len());
    assert(pad == padding(n));
    lemma_encode_spec(value);
}

pub enum Decoded {
    Symbol { symbol: u16, bit_count: u8 },
    Incomplete,
}

/// Finds the code at the front of the low `bit_count` bits of `bits`.
///
/// The codes of each length are tried in turn: those not longer than the code
/// sought are smaller numbers than the bits of their length.
pub fn decode_symbol(bits: u64, bit_count: u8) -> (decoded: Decoded)
    requires
        bit_count <= 64,
        bits < pow2(bit_count as nat),
    ensures
        match decoded {
            Decoded::Symbol { symbol, bit_count: used } => {
                &&& starts_with(to_bits(bits as nat, bit_count as nat), symbol as int)
                &&& used == code_len(symbol as int)
            },
            Decoded::Incomplete => symbol_at(to_bits(bits as nat, bit_count as nat)) is None,
        },
{
    let mut len: u8 = 5;
    let ghost all = to_bits(bits as nat, bit_count as nat);
    proof {
        lemma_to_bits_len(bits as nat, bit_count as nat);
        lemma_lengths(4);
        if bit_count >= 4 {
            lemma_pow2_pos((bit_count - 4) as nat);
        }
        assert forall|symbol: int| 0 <= symbol <= 256 implies #[trigger] code_len(symbol) >= len by {
            lemma_code(symbol);
        }
    }
    while len <= EOS_BIT_COUNT && len <= bit_count
        invariant
            5 <= len <= 31,
            bit_count <= 64,
            len <= bit_count + 1 || len == 5,
            bits < pow2(bit_count as nat),
            all == to_bits(bits as nat, bit_count as nat),
            all.len() == bit_count,
            len <= bit_count + 1 ==> bits as nat / pow2((bit_count - (len - 1)) as nat)
                >= first_code(len - 1) + code_count(len - 1),
            forall|symbol: int|
                0 <= symbol <= 256 && #[trigger] code_len(symbol) < len ==> !starts_with(
                    all,
                    symbol,
                ),
        decreases 31 - len,
    {
        let (first, count, rank) = codes_of_length(len);
        let rest: u8 = bit_count - len;
        let ghost previous = bits as nat / pow2((bit_count - (len - 1)) as nat);
        proof {
            lemma_lengths(len - 1);
            lemma_lengths(len as int);
            lemma_pow2_unfold((rest + 1) as nat);
            lemma_pow2_pos(rest as nat);
            let p = pow2(rest as nat);
            let value = bits as nat;
            vstd::arithmetic::div_mod::lemma_div_denominator(value as int, p as int, 2);
            vstd::arithmetic::mul::lemma_mul_is_commutative(p as int, 2);
            assert(value / p / 2 == value / pow2((rest + 1) as nat));
            assert(value / p >= 2 * previous);
            lemma_to_bits_split(value, bit_count as nat, len as nat);
            lemma_high_bound(value, bit_count as nat, len as nat);
            lemma2_to64();
            if rest < 64 {
                lemma_pow2_strictly_increases(rest as nat, 64);
            }
        }
        let unit: u64 = power(rest);
        let front: u64 = bits / unit;
        if front < first as u64 + count as u64 {
            let place: u16 = rank + (front - first as u64) as u16;
            proof {
                lemma_rank(len as int, place as int);
            }
            let symbol: u16 = symbol_for(place);
            return Decoded::Symbol { symbol, bit_count: len };
        }
        proof {
            assert forall|symbol: int|
                0 <= symbol <= 256 && #[trigger] code_len(symbol) < len + 1 implies !starts_with(
                all,
                symbol,
            ) by {
                if code_len(symbol) == len && starts_with(all, symbol) {
                    lemma_code(symbol);
                    lemma_code_fits(symbol);
                    lemma_to_bits_injective(code_value(symbol), front as nat, len as nat);
                }
            }
        }
        len = len + 1;
    }
    proof {
        if len == 31 {
            lemma_high_bound(bits as nat, bit_count as nat, 30);
            lemma_lengths(30);
        }
        if symbol_at(all) is Some {
            let symbol = symbol_at(all)->Some_0;
            assert(starts_with(all, symbol));
            lemma_code(symbol);
            assert(code_len(symbol) >= len);
        }
    }
    Decoded::Incomplete
}

/// The symbols of a Huffman encoded string, one by one.
///
/// The low `bit_count` bits of `bits` are the bits between the last symbol
/// taken and byte `byte_pos`.
pub struct DecodeIter<'a> {
    content: &'a [u8],
    byte_pos: usize,
    bits: u64,
    bit_count: u8,
    finished: bool,
}

impl<'a> DecodeIter<'a> {
    #[verifier::type_invariant]
    spec fn wf(self) -> bool {
        &&& self.byte_pos <= self.content@.len()
        &&& self.bit_count <= 64
        &&& self.bit_count <= 8 * self.byte_pos
        &&& self.bits < pow2(self.bit_count as nat)
    }

    /// The bits whose symbols are still to come.
    pub closed spec fn rest(&self) -> Seq<bool> {
        to_bits(self.bits as nat, self.bit_count as nat) + bytes_bits(
            self.content@.skip(self.byte_pos as int),
        )
    }

    /// Whether the end of the string, or an error, has been reported.
    pub closed spec fn is_finished(&self) -> bool {
        self.finished
    }

    /// The string that is being decoded.
    pub closed spec fn octets(&self) -> Seq<u8> {
        self.content@
    }

    /// Reads bytes until the bits at hand hold any code, as far as there are bytes.
    fn refill(&mut self)
        ensures
            final(self).rest() == old(self).rest(),
            final(self).finished == old(self).finished,
            final(self).content == old(self).content,
            final(self).bit_count >= EOS_BIT_COUNT || final(self).byte_pos == final(self).content@.len(),
    {
        proof {
            use_type_invariant(&*self);
            lemma2_to64();
        }
        let mut byte_pos: usize = self.byte_pos;
        let mut bits: u64 = self.bits;
        let mut bit_count: u8 = self.bit_count;
        while bit_count <= 56 && byte_pos < self.content.len()
            invariant
                *self == *old(self),
                self.byte_pos <= byte_pos <= self.content@.len(),
                bit_count <= 64,
                bit_count <= 8 * byte_pos,
                bits < pow2(bit_count as nat),
                to_bits(bits as nat, bit_count as nat) + bytes_bits(
                    self.content@.skip(byte_pos as int),
                ) == self.rest(),
            decreases self.content@.len() - byte_pos,
        {
            let byte: u8 = self.content[byte_pos];
            proof {
                lemma2_to64();
                lemma_pow2_adds(bit_count as nat, 8);
                if bit_count < 56 {
                    lemma_pow2_strictly_increases(bit_count as nat, 56);
                }
                vstd::arithmetic::power2::lemma2_to64_rest();
                lemma_to_bits_concat(bits as nat, bit_count as nat, byte as nat, 8);
                let tail = self.content@.skip(byte_pos as int);
                let next = self.content@.skip(byte_pos + 1);
                assert(tail =~= seq![byte] + next);
                lemma_bytes_bits_concat(seq![byte], next);
                assert(seq![byte].drop_last() =~= Seq::<u8>::empty());
                assert(bytes_bits(Seq::<u8>::empty()) =~= Seq::<bool>::empty());
                assert(bytes_bits(seq![byte]) =~= to_bits(byte as nat, 8));
                assert(to_bits(bits as nat, bit_count as nat) + bytes_bits(tail) =~= to_bits(
                    (bits * 256 + byte) as nat,
                    (bit_count + 8) as nat,
                ) + bytes_bits(next));
            }
            bits = bits * 256 + byte as u64;
            bit_count = bit_count + 8;
            byte_pos = byte_pos + 1;
        }
        *self = DecodeIter { content: self.content, byte_pos, bits, bit_count, finished: self.finished };
    }

    /// Passes over the next `count` bits.
    fn consume(&mut self, count: u8)
        requires
            1 <= count <= old(self).bit_count,
        ensures
            final(self).rest() == old(self).rest().skip(count as int),
            final(self).finished == old(self).finished,
            final(self).content == old(self).content,
    {
        proof {
            use_type_invariant(&*self);
        }
        let bit_count: u8 = self.bit_count - count;
        let unit: u64 = power(bit_count);
        proof {
            lemma_to_bits_split(self.bits as nat, self.bit_count as nat, count as nat);
            lemma_to_bits_len(self.bits as nat, self.bit_count as nat);
            let tail = bytes_bits(self.content@.skip(self.byte_pos as int));
            assert(self.rest().skip(count as int) =~= to_bits(
                self.bits as nat,
                self.bit_count as nat,
            ).skip(count as int) + tail);
        }
        let bits: u64 = self.bits % unit;
        *self = DecodeIter {
            content: self.content,
            byte_pos: self.byte_pos,
            bits,
            bit_count,
            finished: self.finished,
        };
    }

    /// The number of bits that are left, or the largest number where it is more.
    pub fn remaining_bits(&self) -> (n: usize)
        ensures
            n == if self.rest().len() <= usize::MAX {
                self.rest().len() as int
            } else {
                usize::MAX as int
            },
    {
        proof {
            use_type_invariant(self);
            lemma_to_bits_len(self.bits as nat, self.bit_count as nat);
            lemma_bytes_bits_len(self.content@.skip(self.byte_pos as int));
        }
        let unread_bytes: usize = self.content.len() - self.byte_pos;
        match unread_bytes.checked_mul(8) {
            Some(unread_bits) => match unread_bits.checked_add(self.bit_count as usize) {
                Some(remaining) => remaining,
                None => usize::MAX,
            },
            None => usize::MAX,
        }
    }

    /// The number of bits that the symbols taken so far span, or the largest
    /// number where it is more.
    pub fn symbol_end(&self) -> (n: usize)
        ensures
            n == if 8 * self.octets().len() - self.rest().len() <= usize::MAX {
                8 * self.octets().len() - self.rest().len()
            } else {
                usize::MAX as int
            },
    {
        proof {
            use_type_invariant(self);
            lemma_to_bits_len(self.bits as nat, self.bit_count as nat);
            lemma_bytes_bits_len(self.content@.skip(self.byte_pos as int));
        }
        let end: u128 = self.byte_pos as u128 * 8 - self.bit_count as u128;
        if end <= usize::MAX as u128 {
            end as usize
        } else {
            usize::MAX
        }
    }

    /// Ends the string: what is left must be padding.
    fn finish_tail(&mut self) -> (result: Option<Result<u8, Error>>)
        requires
            old(self).byte_pos == old(self).content@.len(),
            old(self).bit_count < EOS_BIT_COUNT,
        ensures
            final(self).finished,
            final(self).rest() == old(self).rest(),
            final(self).content == old(self).content,
            result == if is_padding(old(self).rest()) {
                None::<Result<u8, Error>>
            } else {
                Some(Err(Error::InvalidPadding(old(self).rest().len() as usize)))
            },
    {
        proof {
            use_type_invariant(&*self);
        }
        self.finished = true;
        let padding: usize = self.remaining_bits();
        proof {
            use_type_invariant(&*self);
            assert(self.content@.skip(self.byte_pos as int) =~= Seq::<u8>::empty());
            assert(self.rest() =~= to_bits(self.bits as nat, self.bit_count as nat));
            lemma_to_bits_len(self.bits as nat, self.bit_count as nat);
            lemma_ones(self.bit_count as nat);
            lemma_pow2_pos(self.bit_count as nat);
        }
        if padding > 7 {
            return Some(Err(Error::InvalidPadding(padding)));
        }
        let expected: u64 = power(padding as u8) - 1;
        if self.bits == expected {
            None
        } else {
            proof {
                if is_padding(self.rest()) {
                    lemma_to_bits_injective(
                        self.bits as nat,
                        expected as nat,
                        self.bit_count as nat,
                    );
                }
            }
            Some(Err(Error::InvalidPadding(padding)))
        }
    }

    /// The next symbol, or the error that ends the string.
    pub fn next(&mut self) -> (result: Option<Result<u8, Error>>)
        ensures
            final(self).octets() == old(self).octets(),
            old(self).is_finished() ==> result is None && final(self).is_finished() && final(self).rest() == old(self).rest(),
            !old(self).is_finished() ==> match symbol_at(old(self).rest()) {
                Some(symbol) => if symbol == EOS_SYMBOL {
                    result == Some(Err::<u8, Error>(Error::Eos)) && final(self).is_finished()
                } else {
                    &&& result == Some(Ok::<u8, Error>(symbol as u8))
                    &&& !final(self).is_finished()
                    &&& final(self).rest() == old(self).rest().skip(code_len(symbol) as int)
                },
                None => {
                    &&& final(self).is_finished()
                    &&& result == if is_padding(old(self).rest()) {
                        None::<Result<u8, Error>>
                    } else {
                        Some(Err(Error::InvalidPadding(old(self).rest().len() as usize)))
                    }
                },
            },
    {
        if self.finished {
            return None;
        }
        self.refill();
        proof {
            use_type_invariant(&*self);
        }
        let ghost all = self.rest();
        let ghost front = to_bits(self.bits as nat, self.bit_count as nat);
        proof {
            lemma_to_bits_len(self.bits as nat, self.bit_count as nat);
            assert(self.content@.skip(self.content@.len() as int) =~= Seq::<u8>::empty());
            assert forall|symbol: int| #[trigger] starts_with(all, symbol) implies starts_with(
                front,
                symbol,
            ) by {
                lemma_code_fits(symbol);
                let len = code_len(symbol) as int;
                assert(all.take(len) =~= front.take(len));
            }
            assert forall|symbol: int| #[trigger] starts_with(front, symbol) implies starts_with(
                all,
                symbol,
            ) by {
                lemma_code_fits(symbol);
                let len = code_len(symbol) as int;
                assert(all.take(len) =~= front.take(len));
            }
        }
        match decode_symbol(self.bits, self.bit_count) {
            Decoded::Symbol { symbol, bit_count } => {
                proof {
                    lemma_symbol_unique(all, symbol as int);
                    lemma_code_fits(symbol as int);
                }
                if symbol == EOS_SYMBOL {
                    self.finished = true;
                    return Some(Err(Error::Eos));
                }
                self.consume(bit_count);
                Some(Ok(symbol as u8))
            },
            Decoded::Incomplete => {
                proof {
                    if self.bit_count >= EOS_BIT_COUNT {
                        lemma_thirty_bits_hold_a_symbol(self.bits, self.bit_count);
                    }
                }
                self.finish_tail()
            },
        }
    }

    /// Every symbol, or the error that ends the string; nothing where that was told already.
    pub fn collect(self) -> (result: Result<Vec<u8>, Error>)
        ensures
            if self.is_finished() {
                result is Ok && result->Ok_0@ == Seq::<u8>::empty()
            } else {
                match decode_bits(self.rest()) {
                    Ok(value) => result is Ok && result->Ok_0@ == value,
                    Err(error) => result == Err::<Vec<u8>, Error>(error),
                }
            },
    {
        let mut iter = self;
        let mut decoded: Vec<u8> = Vec::new();
        if iter.finished {
            return Ok(decoded);
        }
        let ghost goal = decode_bits(self.rest());
        loop
            invariant
                !self.is_finished(),
                !iter.is_finished(),
                goal == decode_bits(self.rest()),
                match decode_bits(iter.rest()) {
                    Ok(value) => goal == Ok::<Seq<u8>, Error>(decoded@ + value),
                    Err(error) => goal == Err::<Seq<u8>, Error>(error),
                },
            decreases iter.rest().len(),
        {
            let ghost bits = iter.rest();
            match iter.next() {
                Some(Ok(symbol)) => {
                    proof {
                        let found = symbol_at(bits)->Some_0;
                        assert(starts_with(bits, found));
                        lemma_code_fits(found);
                        match decode_bits(iter.rest()) {
                            Ok(value) => {
                                assert(decoded@ + (seq![symbol] + value) =~= decoded@.push(symbol)
                                    + value);
                            },
                            Err(_) => {},
                        }
                    }
                    decoded.push(symbol);
                },
                Some(Err(error)) => return Err(error),
                None => {
                    assert(decoded@ + Seq::<u8>::empty() =~= decoded@);
                    return Ok(decoded);
                },
            }
        }
    }
}

/// The code is complete: as many bits as the longest code has hold a code.
proof fn lemma_thirty_bits_hold_a_symbol(bits: u64, bit_count: u8)
    requires
        EOS_BIT_COUNT <= bit_count <= 64,
        bits < pow2(bit_count as nat),
    ensures
        symbol_at(to_bits(bits as nat, bit_count as nat)) is Some,
{
    let all = to_bits(bits as nat, bit_count as nat);
    lemma_to_bits_len(bits as nat, bit_count as nat);
    lemma_complete(all, 30);
}

/// Bits that no code of at most `len` bits starts are not below those codes.
proof fn lemma_not_below(bits: Seq<bool>, len: nat)
    requires
        len <= 30,
        len <= bits.len(),
        forall|symbol: int| #[trigger] code_len(symbol) <= len ==> !starts_with(bits, symbol),
    ensures
        from_bits(bits.take(len as int)) >= first_code(len as int) + code_count(len as int),
    decreases len,
{
    lemma_lengths(len as int);
    if len >= 5 {
        lemma_not_below(bits, (len - 1) as nat);
        lemma_lengths(len - 1);
        let front = bits.take(len as int);
        assert(front.drop_last() =~= bits.take(len - 1));
        let value = from_bits(front);
        assert(value >= first_code(len as int));
        if value < first_code(len as int) + code_count(len as int) {
            let rank = first_rank(len as int) + value - first_code(len as int);
            lemma_rank(len as int, rank);
            let symbol = symbol_of_rank(rank);
            lemma_to_from(front);
            assert(starts_with(bits, symbol));
        }
    }
}

proof fn lemma_complete(bits: Seq<bool>, len: nat)
    requires
        len == EOS_BIT_COUNT,
        len <= bits.len(),
    ensures
        symbol_at(bits) is Some,
{
    if symbol_at(bits) is None {
        lemma_not_below(bits, len);
        lemma_lengths(30);
        lemma_to_from(bits.take(len as int));
    }
}

/// Decoding of the Huffman code.
pub trait HpackStringDecode {
    spec fn encoded(&self) -> Seq<u8>;

    fn hpack_decode(&self) -> (iter: DecodeIter<'_>)
        ensures
            !iter.is_finished(),
            iter.octets() == self.encoded(),
            iter.rest() == bytes_bits(self.encoded()),
    ;
}

impl HpackStringDecode for Vec<u8> {
    open spec fn encoded(&self) -> Seq<u8> {
        self@
    }

    fn hpack_decode(&self) -> (iter: DecodeIter<'_>) {
        self.as_slice().hpack_decode()
    }
}

impl HpackStringDecode for [u8] {
    open spec fn encoded(&self) -> Seq<u8> {
        self@
    }

    fn hpack_decode(&self) -> (iter: DecodeIter<'_>) {
        proof {
            lemma2_to64();
            assert(self@.skip(0) =~= self@);
            assert(to_bits(0, 0) + bytes_bits(self@) =~= bytes_bits(self@));
        }
        DecodeIter { content: self, byte_pos: 0, bits: 0, bit_count: 0, finished: false }
    }
}

} // verus!
