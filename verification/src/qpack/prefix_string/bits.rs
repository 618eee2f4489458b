//! Bit strings, most significant bit first, and the numbers and bytes they spell.
use vstd::prelude::*;
use vstd::arithmetic::power2::{lemma2_to64, lemma_pow2_adds, lemma_pow2_pos, lemma_pow2_unfold, pow2};

verus! {

/// The low `n` bits of `value`.
pub open spec fn to_bits(value: nat, n: nat) -> Seq<bool>
    decreases n,
{
    if n == 0 {
        Seq::empty()
    } else {
        to_bits(value / 2, (n - 1) as nat).push(value % 2 == 1)
    }
}

/// The number that `bits` spells.
pub open spec fn from_bits(bits: Seq<bool>) -> nat
    decreases bits.len(),
{
    if bits.len() == 0 {
        0
    } else {
        2 * from_bits(bits.drop_last()) + if bits.last() {
            1nat
        } else {
            0nat
        }
    }
}

/// The bits of a byte string.
pub open spec fn bytes_bits(data: Seq<u8>) -> Seq<bool>
    decreases data.len(),
{
    if data.len() == 0 {
        Seq::empty()
    } else {
        bytes_bits(data.drop_last()) + to_bits(data.last() as nat, 8)
    }
}

/// The bytes that `bits` spells, eight bits each.
pub open spec fn bits_bytes(bits: Seq<bool>) -> Seq<u8> {
    Seq::new(bits.len() / 8, |i: int| from_bits(bits.subrange(8 * i, 8 * i + 8)) as u8)
}

/// A run of `n` set bits.
pub open spec fn ones(n: nat) -> Seq<bool> {
    Seq::new(n, |i: int| true)
}

pub proof fn lemma_to_bits_len(value: nat, n: nat)
    ensures
        to_bits(value, n).len() == n,
    decreases n,
{
    if n > 0 {
        lemma_to_bits_len(value / 2, (n - 1) as nat);
    }
}

pub proof fn lemma_from_to(value: nat, n: nat)
    requires
        value < pow2(n),
    ensures
        from_bits(to_bits(value, n)) == value,
    decreases n,
{
    if n == 0 {
        lemma2_to64();
    } else {
        lemma_pow2_unfold(n);
        lemma_from_to(value / 2, (n - 1) as nat);
        let bits = to_bits(value, n);
        assert(bits.drop_last() =~= to_bits(value / 2, (n - 1) as nat));
    }
}

pub proof fn lemma_to_from(bits: Seq<bool>)
    ensures
        to_bits(from_bits(bits), bits.len()) == bits,
        from_bits(bits) < pow2(bits.len()),
    decreases bits.len(),
{
    if bits.len() == 0 {
        lemma2_to64();
        assert(to_bits(0, 0) =~= bits);
    } else {
        lemma_pow2_unfold(bits.len());
        lemma_to_from(bits.drop_last());
        assert(from_bits(bits) / 2 == from_bits(bits.drop_last()));
        assert(bits.drop_last().push(bits.last()) =~= bits);
    }
}

/// Numbers below `pow2(n)` with the same `n` bits are the same.
pub proof fn lemma_to_bits_injective(a: nat, b: nat, n: nat)
    requires
        a < pow2(n),
        b < pow2(n),
        to_bits(a, n) == to_bits(b, n),
    ensures
        a == b,
{
    lemma_from_to(a, n);
    lemma_from_to(b, n);
}

/// The bits of a number made of `m` high bits and `n` low bits.
pub proof fn lemma_to_bits_concat(high: nat, m: nat, low: nat, n: nat)
    requires
        low < pow2(n),
    ensures
        to_bits(high * pow2(n) + low, m + n) == to_bits(high, m) + to_bits(low, n),
    decreases n,
{
    if n == 0 {
        lemma2_to64();
        assert(to_bits(high, m) + to_bits(low, 0) =~= to_bits(high, m));
    } else {
        lemma_pow2_unfold(n);
        let p = pow2((n - 1) as nat);
        lemma_to_bits_concat(high, m, low / 2, (n - 1) as nat);
        let whole = high * pow2(n) + low;
        assert(whole == 2 * (high * p) + low) by (nonlinear_arith)
            requires
                whole == high * pow2(n) + low,
                pow2(n) == 2 * p,
        ;
        assert(whole / 2 == high * p + low / 2);
        assert(whole % 2 == low % 2);
        assert(to_bits(high, m) + to_bits(low, n) =~= (to_bits(high, m) + to_bits(
            low / 2,
            (n - 1) as nat,
        )).push(low % 2 == 1));
    }
}

/// The first `l` of the `n` bits of `value`, and the others.
pub proof fn lemma_to_bits_split(value: nat, n: nat, l: nat)
    requires
        l <= n,
    ensures
        to_bits(value, n).take(l as int) == to_bits(value / pow2((n - l) as nat), l),
        to_bits(value, n).skip(l as int) == to_bits(
            value % pow2((n - l) as nat),
            (n - l) as nat,
        ),
        value % pow2((n - l) as nat) < pow2((n - l) as nat),
        to_bits(value, n) == to_bits(value / pow2((n - l) as nat), l) + to_bits(
            value % pow2((n - l) as nat),
            (n - l) as nat,
        ),
{
    let k = (n - l) as nat;
    lemma_pow2_pos(k);
    let high = value / pow2(k);
    let low = value % pow2(k);
    vstd::arithmetic::div_mod::lemma_fundamental_div_mod(value as int, pow2(k) as int);
    vstd::arithmetic::mul::lemma_mul_is_commutative(high as int, pow2(k) as int);
    lemma_to_bits_concat(high, l, low, k);
    lemma_to_bits_len(high, l);
    lemma_to_bits_len(low, k);
    assert(to_bits(value, n).take(l as int) =~= to_bits(high, l));
    assert(to_bits(value, n).skip(l as int) =~= to_bits(low, k));
}

/// Dropping low bits from a number below `pow2(n)` leaves one below `pow2(l)`.
pub proof fn lemma_high_bound(value: nat, n: nat, l: nat)
    requires
        l <= n,
        value < pow2(n),
    ensures
        value / pow2((n - l) as nat) < pow2(l),
{
    let k = (n - l) as nat;
    lemma_pow2_pos(k);
    lemma_pow2_adds(l, k);
    vstd::arithmetic::div_mod::lemma_multiply_divide_lt(value as int, pow2(k) as int, pow2(l) as int);
}

/// All the `n` bits of `pow2(n) - 1` are set.
pub proof fn lemma_ones(n: nat)
    ensures
        to_bits((pow2(n) - 1) as nat, n) == ones(n),
    decreases n,
{
    lemma_pow2_pos(n);
    if n == 0 {
        assert(to_bits((pow2(n) - 1) as nat, n) =~= ones(n));
    } else {
        lemma_pow2_unfold(n);
        lemma_pow2_pos((n - 1) as nat);
        lemma_ones((n - 1) as nat);
        assert((pow2(n) - 1) / 2 == pow2((n - 1) as nat) - 1);
        assert(ones((n - 1) as nat).push(true) =~= ones(n));
    }
}

pub proof fn lemma_bytes_bits_len(data: Seq<u8>)
    ensures
        bytes_bits(data).len() == 8 * data.len(),
    decreases data.len(),
{
    if data.len() > 0 {
        lemma_bytes_bits_len(data.drop_last());
        lemma_to_bits_len(data.last() as nat, 8);
    }
}

pub proof fn lemma_bytes_bits_concat(a: Seq<u8>, b: Seq<u8>)
    ensures
        bytes_bits(a + b) == bytes_bits(a) + bytes_bits(b),
    decreases b.len(),
{
    if b.len() == 0 {
        assert(a + b =~= a);
        assert(bytes_bits(a) + bytes_bits(b) =~= bytes_bits(a));
    } else {
        lemma_bytes_bits_concat(a, b.drop_last());
        assert((a + b).drop_last() =~= a + b.drop_last());
        assert(bytes_bits(a + b) =~= bytes_bits(a) + bytes_bits(b));
    }
}

/// One byte more.
pub proof fn lemma_bytes_bits_push(data: Seq<u8>, byte: u8)
    ensures
        bytes_bits(data.push(byte)) == bytes_bits(data) + to_bits(byte as nat, 8),
{
    assert(data.push(byte).drop_last() =~= data);
}

/// A byte string is known by its bits.
pub proof fn lemma_bytes_bits_injective(a: Seq<u8>, b: Seq<u8>)
    requires
        bytes_bits(a) == bytes_bits(b),
    ensures
        a == b,
    decreases a.len(),
{
    lemma_bytes_bits_len(a);
    lemma_bytes_bits_len(b);
    if a.len() == 0 {
        assert(a =~= b);
    } else {
        lemma2_to64();
        let x = bytes_bits(a.drop_last());
        let y = bytes_bits(b.drop_last());
        lemma_bytes_bits_len(a.drop_last());
        lemma_bytes_bits_len(b.drop_last());
        lemma_to_bits_len(a.last() as nat, 8);
        lemma_to_bits_len(b.last() as nat, 8);
        assert(x =~= bytes_bits(a).take(x.len() as int));
        assert(y =~= bytes_bits(b).take(x.len() as int));
        assert(to_bits(a.last() as nat, 8) =~= bytes_bits(a).skip(x.len() as int));
        assert(to_bits(b.last() as nat, 8) =~= bytes_bits(b).skip(x.len() as int));
        lemma_to_bits_injective(a.last() as nat, b.last() as nat, 8);
        lemma_bytes_bits_injective(a.drop_last(), b.drop_last());
        assert(a =~= a.drop_last().push(a.last()));
        assert(b =~= b.drop_last().push(b.last()));
    }
}

/// Bits in whole bytes are the bits of their bytes.
pub proof fn lemma_bits_bytes(bits: Seq<bool>)
    requires
        bits.len() % 8 == 0,
    ensures
        bytes_bits(bits_bytes(bits)) == bits,
    decreases bits.len(),
{
    if bits.len() == 0 {
        assert(bytes_bits(bits_bytes(bits)) =~= bits);
    } else {
        lemma2_to64();
        let n = bits.len() - 8;
        let head = bits.take(n);
        let tail = bits.skip(n);
        lemma_bits_bytes(head);
        lemma_to_from(tail);
        let data = bits_bytes(bits);
        assert(data.drop_last() =~= bits_bytes(head)) by {
            assert forall|i: int| 0 <= i < head.len() / 8 implies data[i] == bits_bytes(head)[i] by {
                assert(bits.subrange(8 * i, 8 * i + 8) =~= head.subrange(8 * i, 8 * i + 8));
            }
        }
        assert(bits.subrange(n, n + 8) =~= tail);
        assert(head + tail =~= bits);
    }
}

} // verus!
