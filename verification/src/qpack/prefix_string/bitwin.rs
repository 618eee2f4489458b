use vstd::prelude::*;
use vstd::arithmetic::power2::{lemma2_to64, lemma_pow2_strictly_increases};
use super::bits::{
    bytes_bits, from_bits, lemma_bytes_bits_concat, lemma_bytes_bits_len,
    lemma_bytes_bits_push, lemma_from_to, lemma_to_bits_concat, lemma_to_bits_len, lemma_to_bits_split, to_bits,
};
use super::encode::power;

verus! {

/// A run of `count` bits that starts at bit `bit` of byte `byte`.
#[derive(Debug, Clone, Copy, PartialEq, Eq, Structural)]
pub struct BitWindow {
    pub byte: usize,
    pub bit: usize,
    pub count: usize,
}

impl Default for BitWindow {
    fn default() -> (window: Self)
        ensures
            window == (BitWindow { byte: 0, bit: 0, count: 0 }),
    {
        BitWindow { byte: 0, bit: 0, count: 0 }
    }
}

impl BitWindow {
    /// The number of bits before the end of the window.
    pub open spec fn end_spec(&self) -> int {
        8 * self.byte + self.bit + self.count
    }

    /// The empty window at the first bit.
    pub fn new() -> (window: Self)
        ensures
            window == (BitWindow { byte: 0, bit: 0, count: 0 }),
    {
        Self::default()
    }

    /// Moves on to the `step` bits after the window.
    pub fn forwards(&mut self, step: usize)
        requires
            old(self).bit + old(self).count <= usize::MAX,
            old(self).byte + (old(self).bit + old(self).count) / 8 <= usize::MAX,
        ensures
            final(self).count == step,
            final(self).bit < 8,
            8 * final(self).byte + final(self).bit == old(self).end_spec(),
    {
        let bit: usize = self.bit + self.count;
        self.byte = self.byte + bit / 8;
        self.bit = bit % 8;
        self.count = step;
    }

    /// The number of bits before the end of the window, where it can be told.
    pub fn end(&self) -> (end: Option<usize>)
        ensures
            end == if self.end_spec() <= usize::MAX {
                Some(self.end_spec() as usize)
            } else {
                None::<usize>
            },
    {
        match self.byte.checked_mul(8) {
            Some(start) => match start.checked_add(self.bit) {
                Some(start) => start.checked_add(self.count),
                None => None,
            },
            None => None,
        }
    }
}

/// The bits of two bytes, read as one number.
proof fn lemma_two_bytes(data: Seq<u8>, byte: int, first: u8, second: u8)
    requires
        0 <= byte < data.len(),
        first == data[byte],
        byte + 1 < data.len() ==> second == data[byte + 1],
    ensures
        ({
            let bits = to_bits((256 * first + second) as nat, 16);
            let all = bytes_bits(data);
            &&& bits.len() == 16
            &&& all.len() == 8 * data.len()
            &&& forall|i: int|
                0 <= i < 16 && 8 * byte + i < all.len() ==> all[8 * byte + i] == #[trigger] bits[i]
        }),
{
    lemma2_to64();
    lemma_bytes_bits_len(data);
    lemma_to_bits_len(first as nat, 8);
    lemma_to_bits_len(second as nat, 8);
    lemma_to_bits_concat(first as nat, 8, second as nat, 8);
    let head = data.take(byte);
    let tail = data.skip(byte);
    assert(data =~= head + tail);
    lemma_bytes_bits_len(head);
    lemma_bytes_bits_concat(head, tail);
    let one = Seq::<u8>::empty().push(first);
    lemma_bytes_bits_push(Seq::empty(), first);
    assert(bytes_bits(one) =~= to_bits(first as nat, 8));
    let rest = tail.skip(1);
    assert(tail =~= one + rest);
    lemma_bytes_bits_concat(one, rest);
    if rest.len() > 0 {
        let two = Seq::<u8>::empty().push(second);
        lemma_bytes_bits_push(Seq::empty(), second);
        assert(bytes_bits(two) =~= to_bits(second as nat, 8));
        assert(rest =~= two + rest.skip(1));
        lemma_bytes_bits_concat(two, rest.skip(1));
    }
}

/// The number that `len` of the bits of `src` spell, from bit `bit_offset` of byte
/// `byte_offset` on. At most one byte can be read at a time; `bit_offset` may lie in
/// a later byte.
pub fn read_bits(src: &[u8], byte_offset: usize, bit_offset: usize, len: usize) -> (value: Result<
    u8,
    (),
>)
    ensures
        ({
            let start = 8 * byte_offset + bit_offset;
            value == if 1 <= len <= 8 && start + len <= 8 * src@.len() && 8 * src@.len() <= usize::MAX {
                Ok::<u8, ()>(from_bits(bytes_bits(src@).subrange(start, start + len)) as u8)
            } else {
                Err(())
            }
        }),
{
    let total_bits: usize = match src.len().checked_mul(8) {
        Some(bits) => bits,
        None => return Err(()),
    };
    let window = BitWindow { byte: byte_offset, bit: bit_offset, count: len };
    let end: usize = match window.end() {
        Some(end) => end,
        None => return Err(()),
    };
    if len == 0 || len > 8 || total_bits < end {
        return Err(());
    }
    let byte: usize = byte_offset + bit_offset / 8;
    let bit: usize = bit_offset % 8;
    let first: u8 = src[byte];
    let second: u8 = if byte + 1 < src.len() {
        src[byte + 1]
    } else {
        0
    };
    let both: u64 = 256 * (first as u64) + second as u64;
    let after: u8 = (16 - bit - len) as u8;
    let above: u64 = both / power(after);
    let value: u64 = above % power(len as u8);
    proof {
        let start = 8 * byte_offset + bit_offset;
        let n = (bit + len) as nat;
        lemma_two_bytes(src@, byte as int, first, second);
        lemma_to_bits_split(both as nat, 16, n);
        lemma_to_bits_split(above as nat, n, bit as nat);
        lemma_from_to(value as nat, len as nat);
        lemma_to_bits_len(value as nat, len as nat);
        lemma2_to64();
        if len < 8 {
            lemma_pow2_strictly_increases(len as nat, 8);
        }
        assert(bytes_bits(src@).subrange(start, start + len) =~= to_bits(value as nat, len as nat));
    }
    Ok(value as u8)
}

} // verus!
