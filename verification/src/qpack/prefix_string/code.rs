//! The Huffman code of HPACK.
//!
//! The code is canonical: the codes of one length are consecutive numbers, in
//! the order of their symbols, and each length starts where the shorter codes
//! end.
//!
//! See <https://www.rfc-editor.org/rfc/rfc7541.html#appendix-B>.
use vstd::prelude::*;
use vstd::arithmetic::power2::{lemma2_to64, lemma_pow2_adds, lemma_pow2_pos, lemma_pow2_unfold, pow2};
use super::bits::{
    lemma_high_bound, lemma_to_bits_injective, lemma_to_bits_len, lemma_to_bits_split, to_bits,
};

verus! {

/// The symbol that ends a string and may not stand in one.
pub const EOS_SYMBOL: u16 = 256;

/// The length of the longest code.
pub const EOS_BIT_COUNT: u8 = 30;

/// The code of each symbol, the end of string symbol last.
pub const CODE_BITS: [u32; 257] = [
    0x1ff8, 0x7fffd8, 0xfffffe2, 0xfffffe3, 0xfffffe4, 0xfffffe5, 0xfffffe6, 0xfffffe7,
    0xfffffe8, 0xffffea, 0x3ffffffc, 0xfffffe9, 0xfffffea, 0x3ffffffd, 0xfffffeb, 0xfffffec,
    0xfffffed, 0xfffffee, 0xfffffef, 0xffffff0, 0xffffff1, 0xffffff2, 0x3ffffffe, 0xffffff3,
    0xffffff4, 0xffffff5, 0xffffff6, 0xffffff7, 0xffffff8, 0xffffff9, 0xffffffa, 0xffffffb,
    0x14, 0x3f8, 0x3f9, 0xffa, 0x1ff9, 0x15, 0xf8, 0x7fa, 0x3fa, 0x3fb, 0xf9, 0x7fb, 0xfa, 0x16,
    0x17, 0x18, 0x0, 0x1, 0x2, 0x19, 0x1a, 0x1b, 0x1c, 0x1d, 0x1e, 0x1f, 0x5c, 0xfb, 0x7ffc,
    0x20, 0xffb, 0x3fc, 0x1ffa, 0x21, 0x5d, 0x5e, 0x5f, 0x60, 0x61, 0x62, 0x63, 0x64, 0x65,
    0x66, 0x67, 0x68, 0x69, 0x6a, 0x6b, 0x6c, 0x6d, 0x6e, 0x6f, 0x70, 0x71, 0x72, 0xfc, 0x73,
    0xfd, 0x1ffb, 0x7fff0, 0x1ffc, 0x3ffc, 0x22, 0x7ffd, 0x3, 0x23, 0x4, 0x24, 0x5, 0x25, 0x26,
    0x27, 0x6, 0x74, 0x75, 0x28, 0x29, 0x2a, 0x7, 0x2b, 0x76, 0x2c, 0x8, 0x9, 0x2d, 0x77, 0x78,
    0x79, 0x7a, 0x7b, 0x7ffe, 0x7fc, 0x3ffd, 0x1ffd, 0xffffffc, 0xfffe6, 0x3fffd2, 0xfffe7,
    0xfffe8, 0x3fffd3, 0x3fffd4, 0x3fffd5, 0x7fffd9, 0x3fffd6, 0x7fffda, 0x7fffdb, 0x7fffdc,
    0x7fffdd, 0x7fffde, 0xffffeb, 0x7fffdf, 0xffffec, 0xffffed, 0x3fffd7, 0x7fffe0, 0xffffee,
    0x7fffe1, 0x7fffe2, 0x7fffe3, 0x7fffe4, 0x1fffdc, 0x3fffd8, 0x7fffe5, 0x3fffd9, 0x7fffe6,
    0x7fffe7, 0xffffef, 0x3fffda, 0x1fffdd, 0xfffe9, 0x3fffdb, 0x3fffdc, 0x7fffe8, 0x7fffe9,
    0x1fffde, 0x7fffea, 0x3fffdd, 0x3fffde, 0xfffff0, 0x1fffdf, 0x3fffdf, 0x7fffeb, 0x7fffec,
    0x1fffe0, 0x1fffe1, 0x3fffe0, 0x1fffe2, 0x7fffed, 0x3fffe1, 0x7fffee, 0x7fffef, 0xfffea,
    0x3fffe2, 0x3fffe3, 0x3fffe4, 0x7ffff0, 0x3fffe5, 0x3fffe6, 0x7ffff1, 0x3ffffe0, 0x3ffffe1,
    0xfffeb, 0x7fff1, 0x3fffe7, 0x7ffff2, 0x3fffe8, 0x1ffffec, 0x3ffffe2, 0x3ffffe3, 0x3ffffe4,
    0x7ffffde, 0x7ffffdf, 0x3ffffe5, 0xfffff1, 0x1ffffed, 0x7fff2, 0x1fffe3, 0x3ffffe6,
    0x7ffffe0, 0x7ffffe1, 0x3ffffe7, 0x7ffffe2, 0xfffff2, 0x1fffe4, 0x1fffe5, 0x3ffffe8,
    0x3ffffe9, 0xffffffd, 0x7ffffe3, 0x7ffffe4, 0x7ffffe5, 0xfffec, 0xfffff3, 0xfffed, 0x1fffe6,
    0x3fffe9, 0x1fffe7, 0x1fffe8, 0x7ffff3, 0x3fffea, 0x3fffeb, 0x1ffffee, 0x1ffffef, 0xfffff4,
    0xfffff5, 0x3ffffea, 0x7ffff4, 0x3ffffeb, 0x7ffffe6, 0x3ffffec, 0x3ffffed, 0x7ffffe7,
    0x7ffffe8, 0x7ffffe9, 0x7ffffea, 0x7ffffeb, 0xffffffe, 0x7ffffec, 0x7ffffed, 0x7ffffee,
    0x7ffffef, 0x7fffff0, 0x3ffffee, 0x3fffffff,
];

/// The number of bits in each symbol's code.
pub const CODE_LENGTH: [u8; 257] = [
    13, 23, 28, 28, 28, 28, 28, 28, 28, 24, 30, 28, 28, 30, 28, 28, 28, 28, 28, 28, 28, 28, 30,
    28, 28, 28, 28, 28, 28, 28, 28, 28, 6, 10, 10, 12, 13, 6, 8, 11, 10, 10, 8, 11, 8, 6, 6, 6,
    5, 5, 5, 6, 6, 6, 6, 6, 6, 6, 7, 8, 15, 6, 12, 10, 13, 6, 7, 7, 7, 7, 7, 7, 7, 7, 7, 7, 7,
    7, 7, 7, 7, 7, 7, 7, 7, 7, 7, 7, 8, 7, 8, 13, 19, 13, 14, 6, 15, 5, 6, 5, 6, 5, 6, 6, 6, 5,
    7, 7, 6, 6, 6, 5, 6, 7, 6, 5, 5, 6, 7, 7, 7, 7, 7, 15, 11, 14, 13, 28, 20, 22, 20, 20, 22,
    22, 22, 23, 22, 23, 23, 23, 23, 23, 24, 23, 24, 24, 22, 23, 24, 23, 23, 23, 23, 21, 22, 23,
    22, 23, 23, 24, 22, 21, 20, 22, 22, 23, 23, 21, 23, 22, 22, 24, 21, 22, 23, 23, 21, 21, 22,
    21, 23, 22, 23, 23, 20, 22, 22, 22, 23, 22, 22, 23, 26, 26, 20, 19, 22, 23, 22, 25, 26, 26,
    26, 27, 27, 26, 24, 25, 19, 21, 26, 27, 27, 26, 27, 24, 21, 21, 26, 26, 28, 27, 27, 27, 20,
    24, 20, 21, 22, 21, 21, 23, 22, 22, 25, 25, 24, 24, 26, 23, 26, 27, 26, 26, 27, 27, 27, 27,
    27, 28, 27, 27, 27, 27, 27, 26, 30,
];

/// The symbols in the order of their codes.
pub const CODE_ORDER: [u16; 257] = [
    48, 49, 50, 97, 99, 101, 105, 111, 115, 116, 32, 37, 45, 46, 47, 51, 52, 53, 54, 55, 56, 57,
    61, 65, 95, 98, 100, 102, 103, 104, 108, 109, 110, 112, 114, 117, 58, 66, 67, 68, 69, 70,
    71, 72, 73, 74, 75, 76, 77, 78, 79, 80, 81, 82, 83, 84, 85, 86, 87, 89, 106, 107, 113, 118,
    119, 120, 121, 122, 38, 42, 44, 59, 88, 90, 33, 34, 40, 41, 63, 39, 43, 124, 35, 62, 0, 36,
    64, 91, 93, 126, 94, 125, 60, 96, 123, 92, 195, 208, 128, 130, 131, 162, 184, 194, 224, 226,
    153, 161, 167, 172, 176, 177, 179, 209, 216, 217, 227, 229, 230, 129, 132, 133, 134, 136,
    146, 154, 156, 160, 163, 164, 169, 170, 173, 178, 181, 185, 186, 187, 189, 190, 196, 198,
    228, 232, 233, 1, 135, 137, 138, 139, 140, 141, 143, 147, 149, 150, 151, 152, 155, 157, 158,
    165, 166, 168, 174, 175, 180, 182, 183, 188, 191, 197, 231, 239, 9, 142, 144, 145, 148, 159,
    171, 206, 215, 225, 236, 237, 199, 207, 234, 235, 192, 193, 200, 201, 202, 205, 210, 213,
    218, 219, 238, 240, 242, 243, 255, 203, 204, 211, 212, 214, 221, 222, 223, 241, 244, 245,
    246, 247, 248, 250, 251, 252, 253, 254, 2, 3, 4, 5, 6, 7, 8, 11, 12, 14, 15, 16, 17, 18, 19,
    20, 21, 23, 24, 25, 26, 27, 28, 29, 30, 31, 127, 220, 249, 10, 13, 22, 256,
];

/// For each code length, the smallest code of that length.
pub const FIRST_CODE: [u32; 31] = [
    0x0, 0x0, 0x0, 0x0, 0x0, 0x0, 0x14, 0x5c, 0xf8, 0x1fc, 0x3f8, 0x7fa, 0xffa, 0x1ff8, 0x3ffc,
    0x7ffc, 0xfffe, 0x1fffc, 0x3fff8, 0x7fff0, 0xfffe6, 0x1fffdc, 0x3fffd2, 0x7fffd8, 0xffffea,
    0x1ffffec, 0x3ffffe0, 0x7ffffde, 0xfffffe2, 0x1ffffffe, 0x3ffffffc,
];

/// For each code length, the number of codes that are shorter.
pub const FIRST_RANK: [u16; 31] = [
    0, 0, 0, 0, 0, 0, 10, 36, 68, 74, 74, 79, 82, 84, 90, 92, 95, 95, 95, 95, 98, 106, 119, 145,
    174, 186, 190, 205, 224, 253, 253,
];

/// For each code length, the number of codes of that length.
pub const CODE_COUNT: [u16; 31] = [
    0, 0, 0, 0, 0, 10, 26, 32, 6, 0, 5, 3, 2, 6, 2, 3, 0, 0, 0, 3, 8, 13, 26, 29, 12, 4, 15, 19,
    29, 0, 4,
];

/// The length of the code of `symbol`.
#[verifier::opaque]
pub open spec fn code_len(symbol: int) -> nat {
    CODE_LENGTH@[symbol] as nat
}

/// The code of `symbol` as a number.
#[verifier::opaque]
pub open spec fn code_value(symbol: int) -> nat {
    CODE_BITS@[symbol] as nat
}

/// The smallest code of a length.
#[verifier::opaque]
pub open spec fn first_code(len: int) -> nat {
    FIRST_CODE@[len] as nat
}

/// The number of codes of a length.
#[verifier::opaque]
pub open spec fn code_count(len: int) -> nat {
    CODE_COUNT@[len] as nat
}

/// The number of codes shorter than a length.
#[verifier::opaque]
pub open spec fn first_rank(len: int) -> nat {
    FIRST_RANK@[len] as nat
}

/// The symbol with the code of a rank.
#[verifier::opaque]
pub open spec fn symbol_of_rank(rank: int) -> int {
    CODE_ORDER@[rank] as int
}

/// The bits of the code of `symbol`.
pub open spec fn code_bits(symbol: int) -> Seq<bool> {
    to_bits(code_value(symbol), code_len(symbol))
}

/// A code is as long as its table entry says, among the codes of that length,
/// and found again by its rank.
pub proof fn lemma_code(symbol: int)
    requires
        0 <= symbol <= 256,
    ensures
        5 <= code_len(symbol) <= 30,
        first_code(code_len(symbol) as int) <= code_value(symbol),
        code_value(symbol) < first_code(code_len(symbol) as int) + code_count(
            code_len(symbol) as int,
        ),
        symbol_of_rank(
            first_rank(code_len(symbol) as int) + code_value(symbol) - first_code(
                code_len(symbol) as int,
            ),
        ) == symbol,
{
    reveal(code_len);
    reveal(code_value);
    reveal(first_code);
    reveal(code_count);
    reveal(first_rank);
    reveal(symbol_of_rank);
}

/// The symbol at each rank has the code of that rank.
pub proof fn lemma_rank(len: int, rank: int)
    requires
        0 <= len <= 30,
        first_rank(len) <= rank < first_rank(len) + code_count(len),
    ensures
        0 <= rank <= 256,
        0 <= symbol_of_rank(rank) <= 256,
        code_len(symbol_of_rank(rank)) == len,
        code_value(symbol_of_rank(rank)) == first_code(len) + rank - first_rank(len),
{
    reveal(code_len);
    reveal(code_value);
    reveal(first_code);
    reveal(code_count);
    reveal(first_rank);
    reveal(symbol_of_rank);
}

/// The codes of each length start where the shorter codes end.
pub proof fn lemma_lengths(len: int)
    requires
        0 <= len <= 30,
    ensures
        len < 30 ==> first_code(len + 1) == 2 * (first_code(len) + code_count(len)),
        len < 5 ==> first_code(len) + code_count(len) == 0,
        len == 30 ==> first_code(len) + code_count(len) == pow2(30),
        first_code(len) + code_count(len) <= 0x4000_0000,
        first_rank(len) + code_count(len) <= 257,
        5 <= len <= 7 ==> first_code(len) + code_count(len) < pow2(len as nat),
{
    lemma2_to64();
    reveal(first_code);
    reveal(code_count);
    reveal(first_rank);
}

/// The codes of a length lie below all longer codes, cut to that length.
pub proof fn lemma_lengths_ordered(short: int, long: int)
    requires
        0 <= short < long <= 30,
    ensures
        first_code(long) >= (first_code(short) + code_count(short)) * pow2((long - short) as nat),
    decreases long - short,
{
    let limit = first_code(short) + code_count(short);
    lemma2_to64();
    lemma_lengths(long - 1);
    lemma_pow2_unfold((long - short) as nat);
    let p = pow2((long - 1 - short) as nat);
    if long - 1 > short {
        lemma_lengths_ordered(short, long - 1);
        assert(limit * (2 * p) == 2 * (limit * p)) by (nonlinear_arith);
    } else {
        assert(long - short == 1);
        assert(limit * pow2((long - short) as nat) == 2 * limit);
    }
}

/// A code fits its length.
pub proof fn lemma_code_fits(symbol: int)
    requires
        0 <= symbol <= 256,
    ensures
        5 <= code_len(symbol) <= 30,
        code_value(symbol) < pow2(code_len(symbol)),
        code_bits(symbol).len() == code_len(symbol),
{
    lemma_code(symbol);
    let len = code_len(symbol);
    lemma_to_bits_len(code_value(symbol), len);
    lemma_lengths(30);
    if len < 30 {
        lemma_lengths_ordered(len as int, 30);
        let limit = first_code(len as int) + code_count(len as int);
        let k = (30 - len) as nat;
        lemma_pow2_adds(len, k);
        lemma_pow2_pos(k);
        if limit > pow2(len) {
            assert(limit * pow2(k) > pow2(len) * pow2(k)) by (nonlinear_arith)
                requires
                    limit > pow2(len),
                    pow2(k) > 0,
            ;
        }
    }
}

/// No code is the start of another.
pub proof fn lemma_prefix_free(a: int, b: int, bits: Seq<bool>)
    requires
        0 <= a <= 256,
        0 <= b <= 256,
        code_len(a) <= code_len(b) <= bits.len(),
        bits.take(code_len(a) as int) == code_bits(a),
        bits.take(code_len(b) as int) == code_bits(b),
    ensures
        a == b,
{
    lemma_code(a);
    lemma_code(b);
    lemma_code_fits(a);
    lemma_code_fits(b);
    let l = code_len(a);
    let m = code_len(b);
    let code = code_value(b);
    assert(code_bits(b).take(l as int) =~= bits.take(l as int));
    lemma_to_bits_split(code, m, l);
    lemma_high_bound(code, m, l);
    lemma_to_bits_injective(code_value(a), code / pow2((m - l) as nat), l);
    if l < m {
        lemma_lengths_ordered(l as int, m as int);
        let limit = first_code(l as int) + code_count(l as int);
        let p = pow2((m - l) as nat);
        lemma_pow2_pos((m - l) as nat);
        assert(code / p >= limit) by (nonlinear_arith)
            requires
                code >= limit * p,
                p > 0,
        ;
        assert(false);
    } else {
        lemma2_to64();
        assert(code / 1 == code);
    }
}

/// The code of `symbol`, and its length.
pub fn code_for(symbol: u16) -> (code: (u32, u8))
    requires
        symbol <= 256,
    ensures
        code.0 == code_value(symbol as int),
        code.1 == code_len(symbol as int),
{
    reveal(code_len);
    reveal(code_value);
    let code: u32 = CODE_BITS[symbol as usize];
    let len: u8 = CODE_LENGTH[symbol as usize];
    (code, len)
}

/// The smallest code of a length, the number of codes of that length, and the
/// number of codes that are shorter.
pub fn codes_of_length(len: u8) -> (codes: (u32, u16, u16))
    requires
        len <= 30,
    ensures
        codes.0 == first_code(len as int),
        codes.1 == code_count(len as int),
        codes.2 == first_rank(len as int),
{
    reveal(first_code);
    reveal(code_count);
    reveal(first_rank);
    let first: u32 = FIRST_CODE[len as usize];
    let count: u16 = CODE_COUNT[len as usize];
    let rank: u16 = FIRST_RANK[len as usize];
    (first, count, rank)
}

/// The symbol with the code of rank `rank`.
pub fn symbol_for(rank: u16) -> (symbol: u16)
    requires
        rank <= 256,
    ensures
        symbol == symbol_of_rank(rank as int),
{
    reveal(symbol_of_rank);
    let symbol: u16 = CODE_ORDER[rank as usize];
    symbol
}

} // verus!
