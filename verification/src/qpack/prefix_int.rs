//! Prefixed integers: the low bits of one byte, continued in groups of seven.
//!
//! See <https://www.rfc-editor.org/rfc/rfc7541.html#section-5.1>.
use vstd::prelude::*;
use vstd::arithmetic::power::pow;
use vstd::arithmetic::power2::pow2;
use crate::buf::Reader;

verus! {

/// The number of continuation bytes that an integer may have.
pub const MAX_CONTINUATION: u64 = 10;

#[derive(Debug, Clone, Copy, PartialEq, Eq, Structural)]
pub enum Error {
    Overflow,
    UnexpectedEnd,
}

/// Reads the groups of seven bits in `s` as group `k` and on, least
/// significant first, and adds them to `value`.
///
/// With the result come the bytes that are left.
pub open spec fn decode_groups(value: int, k: nat, s: Seq<u8>) -> (Result<u64, Error>, Seq<u8>)
    decreases s.len(),
{
    if s.len() == 0 {
        (Err(Error::UnexpectedEnd), s)
    } else {
        let sum = value + (s[0] % 128) * pow(128, k);
        if sum > u64::MAX {
            (Err(Error::Overflow), s.skip(1))
        } else if s[0] < 128 {
            (Ok(sum as u64), s.skip(1))
        } else if k + 1 >= MAX_CONTINUATION {
            (Err(Error::Overflow), s.skip(1))
        } else {
            decode_groups(sum, k + 1, s.skip(1))
        }
    }
}

/// What the integer with a `size` bit prefix at the front of `s` is: the bits
/// above the prefix, and the value. With it come the bytes that are left.
pub open spec fn decode_spec(size: u8, s: Seq<u8>) -> (Result<(u8, u64), Error>, Seq<u8>) {
    let full = pow2(size as nat) as int;
    if s.len() == 0 {
        (Err(Error::UnexpectedEnd), s)
    } else {
        let flags = (s[0] as int / full) as u8;
        let low = s[0] as int % full;
        if low < full - 1 {
            (Ok((flags, low as u64)), s.skip(1))
        } else {
            let (value, rest) = decode_groups(full - 1, 0, s.skip(1));
            match value {
                Ok(value) => (Ok((flags, value)), rest),
                Err(error) => (Err(error), rest),
            }
        }
    }
}

/// The groups of seven bits of `value`, least significant first, each but the
/// last marked by its top bit.
pub open spec fn encode_groups(value: nat) -> Seq<u8>
    decreases value,
{
    if value < 128 {
        seq![value as u8]
    } else {
        seq![(128 + value % 128) as u8] + encode_groups(value / 128)
    }
}

/// The bytes of `value` with a `size` bit prefix below `flags`.
pub open spec fn encode_spec(size: u8, flags: u8, value: u64) -> Seq<u8> {
    let full = pow2(size as nat) as int;
    let top = (flags * full) % 256;
    if value < full - 1 {
        seq![(top + value) as u8]
    } else {
        seq![(top + full - 1) as u8] + encode_groups((value - (full - 1)) as nat)
    }
}

fn prefix_range(size: u8) -> (full: u64)
    requires
        size <= 8,
    ensures
        full == pow2(size as nat),
        1 <= full <= 256,
{
    proof {
        vstd::arithmetic::power2::lemma2_to64();
    }
    match size {
        0 => 1,
        1 => 2,
        2 => 4,
        3 => 8,
        4 => 16,
        5 => 32,
        6 => 64,
        7 => 128,
        _ => 256,
    }
}

/// Reads an integer with a `size` bit prefix, and the bits above the prefix.
pub fn decode(size: u8, buf: &mut Reader) -> (result: Result<(u8, u64), Error>)
    requires
        size <= 8,
    ensures
        (result, final(buf)@) == decode_spec(size, old(buf)@),
{
    let full: u64 = prefix_range(size);
    let first: u64 = match buf.get_u8() {
        Some(byte) => byte as u64,
        None => return Err(Error::UnexpectedEnd),
    };
    let flags: u8 = (first / full) as u8;
    let low: u64 = first % full;
    if low < full - 1 {
        return Ok((flags, low));
    }
    let mut value: u64 = full - 1;
    let mut scale: u128 = 1;
    let mut k: u64 = 0;
    proof {
        vstd::arithmetic::power::lemma_pow0(128);
        assert(first / full <= first) by (nonlinear_arith)
            requires
                full >= 1,
        ;
    }
    let ghost start = buf@;
    let ghost target = decode_groups(full - 1, 0, start);
    while k < MAX_CONTINUATION
        invariant
            k <= MAX_CONTINUATION,
            scale == pow(128, k as nat),
            k < MAX_CONTINUATION ==> scale <= 0x8000_0000_0000_0000,
            k < MAX_CONTINUATION ==> decode_groups(value as int, k as nat, buf@) == target,
            k == MAX_CONTINUATION ==> target == (Err::<u64, Error>(Error::Overflow), buf@),
            start == old(buf)@.skip(1),
            full == pow2(size as nat),
            target == decode_groups(full - 1, 0, start),
            old(buf)@.len() > 0,
            flags == (old(buf)@[0] as int / full as int) as u8,
            old(buf)@[0] as int % full as int == full - 1,
        decreases MAX_CONTINUATION - k,
    {
        let byte: u8 = match buf.get_u8() {
            Some(byte) => byte,
            None => return Err(Error::UnexpectedEnd),
        };
        proof {
            assert((byte % 128) * scale <= 127 * scale) by (nonlinear_arith)
                requires
                    byte % 128 <= 127,
                    scale >= 0,
            ;
            assert((byte % 128) * scale >= 0) by (nonlinear_arith)
                requires
                    byte % 128 >= 0,
                    scale >= 0,
            ;
            vstd::arithmetic::power::lemma_pow1(128);
            vstd::arithmetic::power::lemma_pow_adds(128, k as nat, 1);
        }
        let sum: u128 = value as u128 + (byte % 128) as u128 * scale;
        if sum > 0xffff_ffff_ffff_ffff {
            return Err(Error::Overflow);
        }
        value = sum as u64;
        if byte < 128 {
            return Ok((flags, value));
        }
        k = k + 1;
        scale = scale * 128;
        proof {
            if k < MAX_CONTINUATION {
                lemma_scale_bound(k as nat);
            }
        }
    }
    Err(Error::Overflow)
}

proof fn lemma_scale_bound(k: nat)
    requires
        k < MAX_CONTINUATION,
    ensures
        pow(128, k) <= 0x8000_0000_0000_0000,
{
    vstd::arithmetic::power::lemma_pow_increases(128, k, 9);
    assert(pow(128, 9) == 0x8000_0000_0000_0000) by {
        reveal_with_fuel(vstd::arithmetic::power::pow, 10);
    }
}

/// Writes `value` with a `size` bit prefix below `flags`.
pub fn encode(size: u8, flags: u8, value: u64, buf: &mut Vec<u8>)
    requires
        size <= 8,
    ensures
        final(buf)@ == old(buf)@ + encode_spec(size, flags, value),
{
    let full: u64 = prefix_range(size);
    proof {
        assert(flags * full <= 255 * 256) by (nonlinear_arith)
            requires
                flags <= 255,
                1 <= full <= 256,
        ;
        assert(flags * full >= 0) by (nonlinear_arith)
            requires
                flags >= 0,
                1 <= full <= 256,
        ;
    }
    let top: u64 = (flags as u64 * full) % 256;
    proof {
        lemma_range(size);
        lemma_top(flags as int, full as int, pow2((8 - size) as nat) as int);
    }
    if value < full - 1 {
        buf.push((top + value) as u8);
        return;
    }
    buf.push((top + full - 1) as u8);
    let mut remaining: u64 = value - (full - 1);
    let ghost goal = buf@ + encode_groups(remaining as nat);
    while remaining >= 128
        invariant
            buf@ + encode_groups(remaining as nat) == goal,
        decreases remaining,
    {
        buf.push((128 + remaining % 128) as u8);
        assert(encode_groups(remaining as nat) == seq![(128 + remaining % 128) as u8]
            + encode_groups(remaining as nat / 128));
        remaining = remaining / 128;
        assert(buf@ + encode_groups(remaining as nat) =~= goal);
    }
    buf.push(remaining as u8);
    assert(buf@ =~= goal);
    assert(goal =~= old(buf)@ + encode_spec(size, flags, value));
}

/// The prefix and the flags share a byte.
proof fn lemma_range(size: u8)
    requires
        size <= 8,
    ensures
        1 <= pow2(size as nat) <= 256,
        pow2((8 - size) as nat) >= 1,
        pow2((8 - size) as nat) * pow2(size as nat) == 256,
{
    vstd::arithmetic::power2::lemma2_to64();
    vstd::arithmetic::power2::lemma_pow2_pos(size as nat);
    vstd::arithmetic::power2::lemma_pow2_pos((8 - size) as nat);
    vstd::arithmetic::power2::lemma_pow2_adds((8 - size) as nat, size as nat);
    assert(pow2(size as nat) <= 256) by (nonlinear_arith)
        requires
            pow2((8 - size) as nat) * pow2(size as nat) == 256,
            pow2((8 - size) as nat) >= 1,
    ;
}

/// Shifted flags leave the prefix clear and stay within a byte.
proof fn lemma_top(flags: int, full: int, n: int)
    requires
        0 <= flags <= 255,
        1 <= full <= 256,
        n >= 1,
        n * full == 256,
    ensures
        0 <= (flags * full) % 256 <= 256 - full,
        (flags * full) % 256 == full * (flags % n),
{
    vstd::arithmetic::mul::lemma_mul_is_commutative(full, flags);
    vstd::arithmetic::mul::lemma_mul_is_commutative(full, n);
    vstd::arithmetic::div_mod::lemma_truncate_middle(flags, full, n);
    let m = flags % n;
    assert((flags * full) % 256 == full * m);
    assert(full * m <= 256 - full && full * m >= 0) by (nonlinear_arith)
        requires
            n * full == 256,
            0 <= m < n,
            full >= 1,
    ;
}

proof fn lemma_groups_round_trip(value: int, k: nat, tail: nat, rest: Seq<u8>)
    requires
        0 <= value,
        value + tail * pow(128, k) <= u64::MAX,
        k < MAX_CONTINUATION,
    ensures
        decode_groups(value, k, encode_groups(tail) + rest) == (
            Ok::<u64, Error>((value + tail * pow(128, k)) as u64),
            rest,
        ),
    decreases tail,
{
    let s = encode_groups(tail) + rest;
    let p = pow(128, k);
    vstd::arithmetic::power::lemma_pow_positive(128, k);
    vstd::arithmetic::power::lemma_pow1(128);
    vstd::arithmetic::power::lemma_pow_adds(128, k, 1);
    if tail < 128 {
        assert(s[0] == tail as u8);
        assert(s.skip(1) =~= rest);
    } else {
        let low = (tail % 128) as int;
        let high = tail / 128;
        assert(s[0] == (128 + low) as u8);
        assert(s[0] % 128 == low);
        assert(s.skip(1) =~= encode_groups(high) + rest);
        assert(tail == low + 128 * high);
        assert(tail * p == low * p + high * (128 * p)) by (nonlinear_arith)
            requires
                tail == low + 128 * high,
        ;
        assert(high * (128 * p) >= 128 * p && low * p >= 0) by (nonlinear_arith)
            requires
                high >= 1,
                low >= 0,
                p > 0,
        ;
        if k + 1 >= MAX_CONTINUATION {
            assert(pow(128, 10) == 0x40_0000_0000_0000_0000) by {
                reveal_with_fuel(vstd::arithmetic::power::pow, 11);
            }
            assert(false);
        }
        assert(pow(128, k + 1) == 128 * p);
        lemma_groups_round_trip(value + low * p, k + 1, high, rest);
    }
}

/// Reading what was written gives the value back, with as many of the flags as
/// fit above the prefix, and takes no byte of what follows.
pub proof fn round_trip(size: u8, flags: u8, value: u64, rest: Seq<u8>)
    requires
        size <= 8,
    ensures
        decode_spec(size, encode_spec(size, flags, value) + rest) == (
            Ok::<(u8, u64), Error>(
                ((flags as int % pow2((8 - size) as nat) as int) as u8, value),
            ),
            rest,
        ),
{
    let full = pow2(size as nat) as int;
    let s = encode_spec(size, flags, value) + rest;
    let top = (flags * full) % 256;
    let n = pow2((8 - size) as nat) as int;
    lemma_range(size);
    lemma_top(flags as int, full, n);
    let m = flags as int % n;
    let low = if value < full - 1 { value as int } else { full - 1 };
    assert(s[0] == (top + low) as u8);
    assert((top + low) / full == m && (top + low) % full == low) by {
        vstd::arithmetic::mul::lemma_mul_is_commutative(full, m);
        vstd::arithmetic::div_mod::lemma_fundamental_div_mod_converse(top + low, full, m, low);
    }
    assert(m <= flags) by {
        vstd::arithmetic::div_mod::lemma_mod_decreases(flags as nat, n as nat);
    }
    if value < full - 1 {
        assert(s.skip(1) =~= rest);
    } else {
        let tail = (value - (full - 1)) as nat;
        assert(s.skip(1) =~= encode_groups(tail) + rest);
        vstd::arithmetic::power::lemma_pow0(128);
        assert(tail * pow(128, 0) == tail);
        lemma_groups_round_trip(full - 1, 0, tail, rest);
    }
}

/// Reading an integer takes at least one byte, and never gives bytes back.
pub proof fn lemma_consumes(size: u8, s: Seq<u8>)
    ensures
        decode_spec(size, s).1.len() <= s.len(),
        decode_spec(size, s).0 is Ok ==> decode_spec(size, s).1.len() < s.len(),
{
    if s.len() > 0 {
        lemma_groups_consume(pow2(size as nat) - 1, 0, s.skip(1));
    }
}

proof fn lemma_groups_consume(value: int, k: nat, s: Seq<u8>)
    ensures
        decode_groups(value, k, s).1.len() <= s.len(),
    decreases s.len(),
{
    if s.len() > 0 {
        lemma_groups_consume(value + (s[0] % 128) * pow(128, k), k + 1, s.skip(1));
    }
}

/// Flags that fit above the prefix come back whole.
pub proof fn flags_round_trip(size: u8, flags: u8)
    requires
        size <= 8,
        flags * pow2(size as nat) < 256,
    ensures
        flags as int % pow2((8 - size) as nat) as int == flags,
{
    let full = pow2(size as nat) as int;
    let n = pow2((8 - size) as nat) as int;
    lemma_range(size);
    assert(flags < n) by (nonlinear_arith)
        requires
            flags * full < 256,
            n * full == 256,
            full >= 1,
    ;
    vstd::arithmetic::div_mod::lemma_small_mod(flags as nat, n as nat);
}

/// The number that groups of seven bits spell, the least significant first.
pub open spec fn groups_value(groups: Seq<u8>) -> nat
    decreases groups.len(),
{
    if groups.len() == 0 {
        0
    } else {
        (groups[0] % 128) as nat + 128 * groups_value(groups.skip(1))
    }
}

/// Whether the top bit of each group but the last tells that another one follows.
pub open spec fn well_marked(groups: Seq<u8>) -> bool {
    &&& groups.len() > 0
    &&& groups.last() < 128
    &&& forall|i: int| 0 <= i < groups.len() - 1 ==> #[trigger] groups[i] >= 128
}

proof fn lemma_groups_are_read(value: int, k: nat, groups: Seq<u8>, rest: Seq<u8>)
    requires
        0 <= value,
        well_marked(groups),
        k + groups.len() <= 10,
    ensures
        value + groups_value(groups) * pow(128, k) <= u64::MAX ==> decode_groups(
            value,
            k,
            groups + rest,
        ) == (Ok::<u64, Error>((value + groups_value(groups) * pow(128, k)) as u64), rest),
        value + groups_value(groups) * pow(128, k) > u64::MAX ==> decode_groups(
            value,
            k,
            groups + rest,
        ).0 == Err::<u64, Error>(Error::Overflow),
    decreases groups.len(),
{
    let s = groups + rest;
    let p = pow(128, k);
    let low = (groups[0] % 128) as int;
    let tail = groups.skip(1);
    let high = groups_value(tail) as int;
    vstd::arithmetic::power::lemma_pow_positive(128, k);
    vstd::arithmetic::power::lemma_pow1(128);
    vstd::arithmetic::power::lemma_pow_adds(128, k, 1);
    assert((low + 128 * high) * p == low * p + high * (128 * p)) by (nonlinear_arith);
    assert(low * p >= 0 && high * (128 * p) >= 0) by (nonlinear_arith)
        requires
            low >= 0,
            high >= 0,
            p > 0,
    ;
    assert(pow(128, k + 1) == 128 * p);
    assert(s[0] == groups[0]);
    if groups.len() == 1 {
        assert(groups.last() == groups[0]);
        assert(high == 0);
        assert(s.skip(1) =~= rest);
    } else {
        assert(groups[0] >= 128);
        assert(s.skip(1) =~= tail + rest);
        assert forall|i: int| 0 <= i < tail.len() - 1 implies #[trigger] tail[i] >= 128 by {
            assert(tail[i] == groups[i + 1]);
        }
        assert(tail.last() == groups.last());
        if value + low * p <= u64::MAX {
            lemma_groups_are_read(value + low * p, k + 1, tail, rest);
        }
    }
}

/// An integer that is smaller than the largest number of its prefix is the prefix; another one
/// is the largest number of the prefix and what the groups that follow spell, as far as that is
/// a number of 64 bits. Whether a shorter form would have done does not matter.
pub proof fn integers_are_their_groups(
    size: u8,
    flags: u8,
    low: u8,
    groups: Seq<u8>,
    rest: Seq<u8>,
)
    requires
        1 <= size <= 8,
        low < pow2(size as nat),
        flags * pow2(size as nat) + low < 256,
    ensures
        ({
            let full = pow2(size as nat) as int;
            let first = (flags * full + low) as u8;
            &&& low < full - 1 ==> decode_spec(size, seq![first] + rest) == (
                Ok::<(u8, u64), Error>((flags, low as u64)),
                rest,
            )
            &&& low == full - 1 && well_marked(groups) && groups.len() <= 10 ==> {
                let value = full - 1 + groups_value(groups);
                let (read, left) = decode_spec(size, seq![first] + groups + rest);
                if value <= u64::MAX {
                    read == Ok::<(u8, u64), Error>((flags, value as u64)) && left == rest
                } else {
                    read == Err::<(u8, u64), Error>(Error::Overflow)
                }
            }
            &&& low == full - 1 ==> decode_spec(size, seq![first]).0 == Err::<(u8, u64), Error>(
                Error::UnexpectedEnd,
            )
        }),
{
    let full = pow2(size as nat) as int;
    let first = (flags * full + low) as u8;
    vstd::arithmetic::power2::lemma_pow2_pos(size as nat);
    vstd::arithmetic::div_mod::lemma_fundamental_div_mod_converse(
        first as int,
        full,
        flags as int,
        low as int,
    );
    let s = seq![first] + rest;
    assert(s.skip(1) =~= rest);
    let t = seq![first] + groups + rest;
    assert(t.skip(1) =~= groups + rest);
    assert(seq![first].skip(1) =~= Seq::<u8>::empty());
    if well_marked(groups) && groups.len() <= 10 {
        lemma_groups_are_read(full - 1, 0, groups, rest);
        vstd::arithmetic::power::lemma_pow0(128);
        assert(groups_value(groups) * pow(128, 0) == groups_value(groups)) by (nonlinear_arith)
            requires
                pow(128, 0) == 1,
        ;
    }
}

/// An integer is written in the shortest form: in the prefix where it is smaller than the
/// largest number of the prefix, and otherwise in groups of which the last is not zero, unless
/// it is the only one.
pub proof fn integers_are_written_short(size: u8, flags: u8, value: u64)
    requires
        1 <= size <= 8,
    ensures
        ({
            let full = pow2(size as nat) as int;
            let s = encode_spec(size, flags, value);
            &&& s.len() > 0
            &&& value < full - 1 ==> s.len() == 1 && s[0] as int % full == value
            &&& value >= full - 1 ==> {
                &&& s[0] as int % full == full - 1
                &&& well_marked(s.skip(1))
                &&& groups_value(s.skip(1)) == value - (full - 1)
                &&& s.len() > 2 ==> s.last() != 0
            }
        }),
{
    let full = pow2(size as nat) as int;
    let s = encode_spec(size, flags, value);
    let top = (flags * full) % 256;
    lemma_range(size);
    let n = pow2((8 - size) as nat) as int;
    lemma_top_bits(flags as int, full, n);
    vstd::arithmetic::div_mod::lemma_mod_bound(flags as int, n);
    if value < full - 1 {
        lemma_below(top, full, n, flags as int % n, value as int);
    } else {
        lemma_below(top, full, n, flags as int % n, full - 1);
        lemma_groups_are_short((value - (full - 1)) as nat);
        assert(s.skip(1) =~= encode_groups((value - (full - 1)) as nat));
        assert(s.len() > 2 ==> s.last() == s.skip(1).last());
    }
}

proof fn lemma_top_bits(flags: int, full: int, n: int)
    requires
        0 <= flags,
        full >= 1,
        n >= 1,
        n * full == 256,
    ensures
        (flags * full) % 256 == (flags % n) * full,
{
    vstd::arithmetic::div_mod::lemma_fundamental_div_mod(flags, n);
    vstd::arithmetic::div_mod::lemma_mod_bound(flags, n);
    let q = flags / n;
    let r = flags % n;
    assert(flags * full == q * 256 + r * full) by (nonlinear_arith)
        requires
            flags == n * q + r,
            n * full == 256,
    ;
    assert(0 <= r * full < 256) by (nonlinear_arith)
        requires
            0 <= r < n,
            full >= 1,
            n * full == 256,
    ;
    vstd::arithmetic::div_mod::lemma_fundamental_div_mod_converse(flags * full, 256, q, r * full);
}

proof fn lemma_below(top: int, full: int, n: int, q: int, low: int)
    requires
        full >= 1,
        top == q * full,
        0 <= q < n,
        n * full == 256,
        0 <= low < full,
    ensures
        (top + low) as u8 == top + low,
        ((top + low) as u8) as int % full == low,
{
    assert(q * full + full <= n * full) by (nonlinear_arith)
        requires
            q + 1 <= n,
            full >= 1,
    ;
    assert(q * full >= 0) by (nonlinear_arith)
        requires
            q >= 0,
            full >= 1,
    ;
    vstd::arithmetic::div_mod::lemma_fundamental_div_mod_converse(top + low, full, q, low);
}

proof fn lemma_groups_are_short(value: nat)
    ensures
        well_marked(encode_groups(value)),
        groups_value(encode_groups(value)) == value,
        encode_groups(value).len() > 1 ==> encode_groups(value).last() != 0,
        value > 0 ==> encode_groups(value).last() != 0,
    decreases value,
{
    let g = encode_groups(value);
    if value < 128 {
        assert(groups_value(g.skip(1)) == 0);
    } else {
        lemma_groups_are_short(value / 128);
        let tail = encode_groups(value / 128);
        assert(g.skip(1) =~= tail);
        assert(g[0] == (128 + value % 128) as u8);
        assert(g[0] % 128 == value % 128);
        assert forall|i: int| 0 <= i < g.len() - 1 implies #[trigger] g[i] >= 128 by {
            if i > 0 {
                assert(g[i] == tail[i - 1]);
            }
        }
        assert(g.last() == tail.last());
    }
}

} // verus!
