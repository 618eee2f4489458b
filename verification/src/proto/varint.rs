//! Variable-length integers.
//!
//! See <https://www.rfc-editor.org/rfc/rfc9000.html#section-16>.
use vstd::prelude::*;
use vstd::arithmetic::power::{lemma_pow0, lemma_pow1, lemma_pow_adds, lemma_pow_positive, pow};
use crate::buf::Reader;
use crate::quic::MAX_VARINT;

verus! {

/// The number that big-endian bytes spell.
pub open spec fn be_value(s: Seq<u8>) -> nat
    decreases s.len(),
{
    if s.len() == 0 {
        0
    } else {
        256 * be_value(s.drop_last()) + s.last() as nat
    }
}

/// The low `n` bytes of a number, big-endian.
pub open spec fn be_bytes(value: nat, n: nat) -> Seq<u8>
    decreases n,
{
    if n == 0 {
        Seq::empty()
    } else {
        be_bytes(value / 256, (n - 1) as nat).push((value % 256) as u8)
    }
}

/// The length of the integer that starts with `first`.
pub open spec fn varint_len(first: u8) -> nat {
    if first < 64 {
        1
    } else if first < 128 {
        2
    } else if first < 192 {
        4
    } else {
        8
    }
}

/// The integer at the front of `s`, and the bytes that are left, where it has arrived
/// whole.
pub open spec fn decode_spec(s: Seq<u8>) -> Option<(u64, Seq<u8>)> {
    if s.len() == 0 || s.len() < varint_len(s[0]) {
        None
    } else {
        let n = varint_len(s[0]) as int;
        Some((be_value(s.take(n).update(0, s[0] % 64)) as u64, s.skip(n)))
    }
}

/// The length in which an integer is written.
pub open spec fn encoded_len(value: u64) -> nat {
    if value < 0x40 {
        1
    } else if value < 0x4000 {
        2
    } else if value < 0x4000_0000 {
        4
    } else {
        8
    }
}

/// The bytes of an integer, the two topmost bits of which tell its length.
pub open spec fn encode_spec(value: u64) -> Seq<u8> {
    if value < 0x40 {
        be_bytes(value as nat, 1)
    } else if value < 0x4000 {
        be_bytes((value + 0x4000) as nat, 2)
    } else if value < 0x4000_0000 {
        be_bytes((value + 0x8000_0000) as nat, 4)
    } else {
        be_bytes((value + 0xc000_0000_0000_0000) as nat, 8)
    }
}

pub proof fn lemma_be_bytes_len(value: nat, n: nat)
    ensures
        be_bytes(value, n).len() == n,
    decreases n,
{
    if n > 0 {
        lemma_be_bytes_len(value / 256, (n - 1) as nat);
    }
}

proof fn lemma_be_round_trip(value: nat, n: nat)
    requires
        value < pow(256, n),
    ensures
        be_value(be_bytes(value, n)) == value,
    decreases n,
{
    lemma_pow0(256);
    if n > 0 {
        lemma_pow1(256);
        lemma_pow_adds(256, (n - 1) as nat, 1);
        let p = pow(256, (n - 1) as nat);
        assert(value / 256 < p) by (nonlinear_arith)
            requires
                value < p * 256,
        ;
        lemma_be_round_trip(value / 256, (n - 1) as nat);
        let bytes = be_bytes(value, n);
        assert(bytes.drop_last() =~= be_bytes(value / 256, (n - 1) as nat));
    }
}

/// A change of the first byte changes the number by its weight.
proof fn lemma_be_first(s: Seq<u8>, first: u8)
    requires
        s.len() > 0,
    ensures
        be_value(s.update(0, first)) == be_value(s) + (first - s[0]) * pow(256, (s.len() - 1) as nat),
    decreases s.len(),
{
    let t = s.update(0, first);
    if s.len() == 1 {
        lemma_pow0(256);
        assert(s.drop_last() =~= Seq::<u8>::empty());
        assert(t.drop_last() =~= Seq::<u8>::empty());
        assert(be_value(s.drop_last()) == 0);
        assert(be_value(t.drop_last()) == 0);
        assert((first - s[0]) * pow(256, 0) == first - s[0]);
    } else {
        lemma_be_first(s.drop_last(), first);
        assert(t.drop_last() =~= s.drop_last().update(0, first));
        lemma_pow1(256);
        lemma_pow_adds(256, (s.len() - 2) as nat, 1);
        let p = pow(256, (s.len() - 2) as nat);
        assert((first - s[0]) * (p * 256) == 256 * ((first - s[0]) * p)) by (nonlinear_arith);
    }
}

/// The first byte of a number is its topmost.
proof fn lemma_be_first_byte(value: nat, n: nat)
    requires
        n > 0,
        value < pow(256, n),
    ensures
        be_bytes(value, n).len() == n,
        be_bytes(value, n)[0] == value / (pow(256, (n - 1) as nat) as nat),
    decreases n,
{
    lemma_be_bytes_len(value, n);
    lemma_be_bytes_len(value / 256, (n - 1) as nat);
    lemma_pow0(256);
    lemma_pow1(256);
    if n == 1 {
        assert(value / 1 == value);
    } else {
        lemma_pow_adds(256, (n - 1) as nat, 1);
        lemma_pow_adds(256, (n - 2) as nat, 1);
        let p = pow(256, (n - 1) as nat);
        let q = pow(256, (n - 2) as nat);
        lemma_pow_positive(256, (n - 2) as nat);
        assert(value / 256 < p) by (nonlinear_arith)
            requires
                value < p * 256,
        ;
        lemma_be_first_byte(value / 256, (n - 1) as nat);
        vstd::arithmetic::div_mod::lemma_div_denominator(value as int, 256, q);
        vstd::arithmetic::mul::lemma_mul_is_commutative(256, q);
    }
}

/// Reads a variable-length integer, where it has arrived whole.
pub fn decode(buf: &mut Reader) -> (result: Option<u64>)
    ensures
        match decode_spec(old(buf)@) {
            Some((value, rest)) => result == Some(value) && final(buf)@ == rest,
            None => result is None && final(buf)@ == old(buf)@,
        },
        result matches Some(value) ==> value <= MAX_VARINT,
{
    let first: u8 = match buf.peek() {
        Some(first) => first,
        None => return None,
    };
    let n: usize = if first < 64 {
        1
    } else if first < 128 {
        2
    } else if first < 192 {
        4
    } else {
        8
    };
    if buf.remaining() < n {
        return None;
    }
    let bytes = buf.take(n);
    let mut value: u64 = (first % 64) as u64;
    let mut i: usize = 1;
    let ghost all = bytes@.update(0, (first % 64) as u8);
    let ghost scale: int = 64;
    proof {
        assert(all.take(1).drop_last() =~= Seq::<u8>::empty());
        assert(be_value(Seq::<u8>::empty()) == 0);
        assert(be_value(all.take(1)) == first % 64);
        lemma_scale(1);
    }
    while i < n
        invariant
            1 <= i <= n,
            n == 1 || n == 2 || n == 4 || n == 8,
            bytes@.len() == n,
            all == bytes@.update(0, (first % 64) as u8),
            value == be_value(all.take(i as int)),
            value < 64 * pow(256, (i - 1) as nat),
        decreases n - i,
    {
        proof {
            lemma_scale(i as nat);
            lemma_scale(8);
            lemma_scale_increases(i as nat, 8);
            lemma_pow1(256);
            lemma_pow_adds(256, (i - 1) as nat, 1);
            assert(all.take(i + 1).drop_last() =~= all.take(i as int));
            assert(all.take(i + 1).last() == bytes@[i as int]);
            if i < 8 {
                lemma_scale_increases((i + 1) as nat, 8);
            }
        }
        value = value * 256 + bytes[i] as u64;
        i = i + 1;
    }
    proof {
        assert(all.take(n as int) =~= all);
        lemma_scale(8);
        lemma_scale_increases(n as nat, 8);
    }
    Some(value)
}

/// What an integer of `n` bytes stays below.
proof fn lemma_scale(n: nat)
    requires
        1 <= n <= 8,
    ensures
        n == 1 ==> 64 * pow(256, 0) == 0x40,
        n == 2 ==> 64 * pow(256, 1) == 0x4000,
        n == 4 ==> 64 * pow(256, 3) == 0x4000_0000,
        n == 8 ==> 64 * pow(256, 7) == 0x4000_0000_0000_0000,
{
    reveal_with_fuel(vstd::arithmetic::power::pow, 9);
}

proof fn lemma_scale_increases(a: nat, b: nat)
    requires
        1 <= a <= b <= 8,
    ensures
        pow(256, (a - 1) as nat) <= pow(256, (b - 1) as nat),
{
    vstd::arithmetic::power::lemma_pow_increases(256, (a - 1) as nat, (b - 1) as nat);
}

/// Writes a variable-length integer.
pub fn encode(value: u64, buf: &mut Vec<u8>)
    requires
        value <= MAX_VARINT,
    ensures
        final(buf)@ == old(buf)@ + encode_spec(value),
{
    if value < 0x40 {
        put_be(value, 1, buf);
    } else if value < 0x4000 {
        put_be(value + 0x4000, 2, buf);
    } else if value < 0x4000_0000 {
        put_be(value + 0x8000_0000, 4, buf);
    } else {
        put_be(value + 0xc000_0000_0000_0000, 8, buf);
    }
}

/// Writes the low `n` bytes of `value`, big-endian.
fn put_be(value: u64, n: usize, buf: &mut Vec<u8>)
    requires
        n <= 8,
    ensures
        final(buf)@ == old(buf)@ + be_bytes(value as nat, n as nat),
    decreases n,
{
    if n > 0 {
        put_be(value / 256, n - 1, buf);
        buf.push((value % 256) as u8);
    }
    assert(buf@ =~= old(buf)@ + be_bytes(value as nat, n as nat));
}

/// Reading back an integer that was written gives the integer, and takes no byte of
/// what follows.
pub proof fn round_trip(value: u64, rest: Seq<u8>)
    requires
        value <= MAX_VARINT,
    ensures
        decode_spec(encode_spec(value) + rest) == Some((value, rest)),
        encode_spec(value).len() == encoded_len(value),
{
    reveal_with_fuel(vstd::arithmetic::power::pow, 9);
    let n = encoded_len(value);
    let tag: nat = if n == 1 {
        0
    } else if n == 2 {
        0x4000
    } else if n == 4 {
        0x8000_0000
    } else {
        0xc000_0000_0000_0000
    };
    let total = (value + tag) as nat;
    let bytes = be_bytes(total, n);
    let p = pow(256, (n - 1) as nat);
    assert(n == 1 ==> p == 1);
    assert(n == 2 ==> p == 0x100);
    assert(n == 4 ==> p == 0x100_0000);
    assert(n == 8 ==> p == 0x100_0000_0000_0000);
    assert(total < pow(256, n));
    lemma_be_first_byte(total, n);
    lemma_be_round_trip(total, n);
    let s = bytes + rest;
    let first = bytes[0];
    assert(s[0] == first);
    assert(n == 1 ==> first == total);
    assert(n == 2 ==> first == total / 0x100);
    assert(n == 4 ==> first == total / 0x100_0000);
    assert(n == 8 ==> first == total / 0x100_0000_0000_0000);
    assert(varint_len(first) == n);
    assert(s.take(n as int) =~= bytes);
    assert(s.skip(n as int) =~= rest);
    lemma_be_first(bytes, first % 64);
    let k = first as int / 64;
    assert((first % 64) - first == -64 * k);
    assert(k == if n == 1 {
        0int
    } else if n == 2 {
        1
    } else if n == 4 {
        2
    } else {
        3
    });
    assert(tag == 64 * k * p);
    assert((-64 * k) * p == -(64 * k * p)) by (nonlinear_arith);
}

/// More bytes behind an integer do not change it; one that has not arrived whole has
/// fewer than eight bytes.
pub proof fn lemma_extends(s: Seq<u8>, more: Seq<u8>)
    ensures
        match decode_spec(s) {
            Some((value, rest)) => decode_spec(s + more) == Some((value, rest + more)),
            None => s.len() < 8,
        },
{
    if let Some((value, rest)) = decode_spec(s) {
        let n = varint_len(s[0]) as int;
        assert((s + more).take(n) =~= s.take(n));
        assert((s + more).skip(n) =~= rest + more);
    }
}

/// Reading an integer takes at least one byte.
pub proof fn lemma_consumes(s: Seq<u8>)
    ensures
        decode_spec(s) matches Some((value, rest)) ==> rest.len() < s.len(),
{
}

proof fn lemma_be_2(s: Seq<u8>)
    requires
        s.len() == 2,
    ensures
        be_value(s) == s[0] * 0x100 + s[1],
{
    let a = s.drop_last();
    assert(a.drop_last() =~= Seq::<u8>::empty());
    assert(be_value(a.drop_last()) == 0);
    assert(be_value(a) == s[0]);
}

proof fn lemma_be_4(s: Seq<u8>)
    requires
        s.len() == 4,
    ensures
        be_value(s) == s[0] * 0x100_0000 + s[1] * 0x1_0000 + s[2] * 0x100 + s[3],
{
    let a = s.drop_last();
    lemma_be_2(a.drop_last());
    assert(be_value(a) == 256 * be_value(a.drop_last()) + s[2]);
}

proof fn lemma_be_8(s: Seq<u8>)
    requires
        s.len() == 8,
    ensures
        be_value(s) == s[0] * 0x100_0000_0000_0000 + s[1] * 0x1_0000_0000_0000 + s[2]
            * 0x100_0000_0000 + s[3] * 0x1_0000_0000 + s[4] * 0x100_0000 + s[5] * 0x1_0000 + s[6]
            * 0x100 + s[7],
{
    let a = s.drop_last();
    let b = a.drop_last();
    let c = b.drop_last();
    lemma_be_4(c.drop_last());
    assert(be_value(c) == 256 * be_value(c.drop_last()) + s[4]);
    assert(be_value(b) == 256 * be_value(c) + s[5]);
    assert(be_value(a) == 256 * be_value(b) + s[6]);
}

/// The two topmost bits of an integer tell whether it takes one, two, four or eight bytes, and
/// the other bits are its value, whether or not a shorter form would have done. Where not all of
/// its bytes are there, it cannot be read.
pub proof fn integers_are_their_bits(s: Seq<u8>)
    ensures
        s.len() == 0 ==> decode_spec(s) is None,
        s.len() >= 1 && s[0] < 0x40 ==> decode_spec(s) == Some((s[0] as u64, s.skip(1))),
        s.len() >= 2 && 0x40 <= s[0] < 0x80 ==> decode_spec(s) == Some(
            (((s[0] - 0x40) * 0x100 + s[1]) as u64, s.skip(2)),
        ),
        s.len() >= 4 && 0x80 <= s[0] < 0xc0 ==> decode_spec(s) == Some(
            (
                ((s[0] - 0x80) * 0x100_0000 + s[1] * 0x1_0000 + s[2] * 0x100 + s[3]) as u64,
                s.skip(4),
            ),
        ),
        s.len() >= 8 && 0xc0 <= s[0] ==> decode_spec(s) == Some(
            (
                ((s[0] - 0xc0) * 0x100_0000_0000_0000 + s[1] * 0x1_0000_0000_0000 + s[2]
                    * 0x100_0000_0000 + s[3] * 0x1_0000_0000 + s[4] * 0x100_0000 + s[5] * 0x1_0000
                    + s[6] * 0x100 + s[7]) as u64,
                s.skip(8),
            ),
        ),
        s.len() == 1 && s[0] >= 0x40 ==> decode_spec(s) is None,
        s.len() < 4 && s.len() > 0 && s[0] >= 0x80 ==> decode_spec(s) is None,
        s.len() < 8 && s.len() > 0 && s[0] >= 0xc0 ==> decode_spec(s) is None,
{
    if s.len() > 0 && s.len() >= varint_len(s[0]) {
        let n = varint_len(s[0]) as int;
        let low = s.take(n).update(0, s[0] % 64);
        if n == 1 {
            assert(low.drop_last() =~= Seq::<u8>::empty());
            assert(be_value(low.drop_last()) == 0);
            assert(be_value(low) == s[0] % 64);
        } else if n == 2 {
            lemma_be_2(low);
        } else if n == 4 {
            lemma_be_4(low);
        } else {
            lemma_be_8(low);
        }
    }
}

/// An integer is written in the shortest of the forms that hold it.
pub proof fn integers_are_written_short(value: u64)
    requires
        value <= MAX_VARINT,
    ensures
        encode_spec(value).len() == if value < 0x40 {
            1nat
        } else if value < 0x4000 {
            2
        } else if value < 0x4000_0000 {
            4
        } else {
            8
        },
        decode_spec(encode_spec(value)) == Some((value, Seq::<u8>::empty())),
{
    round_trip(value, Seq::empty());
    assert(encode_spec(value) + Seq::<u8>::empty() =~= encode_spec(value));
}

} // verus!
