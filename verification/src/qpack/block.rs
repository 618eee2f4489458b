//! Field line representations.
//!
//! See <https://www.rfc-editor.org/rfc/rfc9204.html#section-4.5>.
use vstd::prelude::*;
use vstd::arithmetic::power2::{lemma2_to64, pow2};
use crate::buf::{to_vec, view_ok, Reader};
use super::parse_error::ParseError;
use super::{prefix_int, prefix_string};

verus! {

/// The kinds of field line, told apart by the first byte.
#[derive(Debug, Clone, Copy, PartialEq, Eq, Structural)]
pub enum HeaderBlockField {
    /// An entry of the static table, or of the dynamic table before the Base.
    ///
    /// ```text
    ///   0   1   2   3   4   5   6   7
    /// +---+---+---+---+---+---+---+---+
    /// | 1 | T |      Index (6+)       |
    /// +---+---+-----------------------+
    /// ```
    Indexed,
    /// An entry of the dynamic table from the Base on.
    ///
    /// ```text
    ///   0   1   2   3   4   5   6   7
    /// +---+---+---+---+---+---+---+---+
    /// | 0 | 0 | 0 | 1 |  Index (4+)   |
    /// +---+---+---+---+---------------+
    /// ```
    IndexedWithPostBase,
    /// The name of an entry of the static table, or of the dynamic table before the
    /// Base, and a value.
    ///
    /// ```text
    ///   0   1   2   3   4   5   6   7
    /// +---+---+---+---+---+---+---+---+
    /// | 0 | 1 | N | T |Name Index (4+)|
    /// +---+---+---+---+---------------+
    /// ```
    LiteralWithNameRef,
    /// The name of an entry of the dynamic table from the Base on, and a value.
    ///
    /// ```text
    ///   0   1   2   3   4   5   6   7
    /// +---+---+---+---+---+---+---+---+
    /// | 0 | 0 | 0 | 0 | N |NameIdx(3+)|
    /// +---+---+---+---+---+-----------+
    /// ```
    LiteralWithPostBaseNameRef,
    /// A name and a value.
    ///
    /// ```text
    ///   0   1   2   3   4   5   6   7
    /// +---+---+---+---+---+---+---+---+
    /// | 0 | 0 | 1 | N | H |NameLen(3+)|
    /// +---+---+---+---+---+-----------+
    /// ```
    Literal,
    Unknown,
}

/// The kind of the field line that starts with `first`.
pub open spec fn field_kind(first: u8) -> HeaderBlockField {
    if first >= 128 {
        HeaderBlockField::Indexed
    } else if first >= 64 {
        HeaderBlockField::LiteralWithNameRef
    } else if first >= 32 {
        HeaderBlockField::Literal
    } else if first >= 16 {
        HeaderBlockField::IndexedWithPostBase
    } else {
        HeaderBlockField::LiteralWithPostBaseNameRef
    }
}

impl HeaderBlockField {
    /// The kind of the field line that starts with `first`.
    pub fn decode(first: u8) -> (kind: Self)
        ensures
            kind == field_kind(first),
            kind != HeaderBlockField::Unknown,
    {
        if first >= 128 {
            HeaderBlockField::Indexed
        } else if first / 16 == 1 {
            HeaderBlockField::IndexedWithPostBase
        } else if first / 64 == 1 {
            HeaderBlockField::LiteralWithNameRef
        } else if first / 16 == 0 {
            HeaderBlockField::LiteralWithPostBaseNameRef
        } else if first / 32 == 1 {
            HeaderBlockField::Literal
        } else {
            HeaderBlockField::Unknown
        }
    }
}

/// The prefix of a field section.
///
/// See <https://www.rfc-editor.org/rfc/rfc9204.html#section-4.5.1>.
#[derive(Debug, Clone, Copy, PartialEq, Eq, Structural)]
pub struct HeaderPrefix {
    pub encoded_insert_count: usize,
    pub sign_negative: bool,
    pub delta_base: usize,
}

/// The prefix of a section that requires `required` insertions and counts from
/// `base`, for a table of at most `max_table_size`.
pub open spec fn prefix_of(required: usize, base: usize, max_table_size: usize) -> HeaderPrefix {
    if max_table_size == 0 || required == 0 {
        HeaderPrefix { encoded_insert_count: 0, sign_negative: false, delta_base: 0 }
    } else {
        HeaderPrefix {
            encoded_insert_count: (required as int % (2 * (max_table_size as int / 32)) + 1) as usize,
            sign_negative: required > base,
            delta_base: if required > base {
                (required - base - 1) as usize
            } else {
                (base - required) as usize
            },
        }
    }
}

/// The Required Insert Count that was encoded as `encoded`: the largest number that
/// it can stand for, at most as many insertions ahead of `total_inserted` as the
/// table holds entries.
///
/// See <https://www.rfc-editor.org/rfc/rfc9204.html#section-4.5.1.1>.
pub open spec fn required_insert_count(
    encoded: int,
    total_inserted: int,
    max_table_size: int,
) -> Option<int> {
    let max_entries = max_table_size / 32;
    let full_range = 2 * max_entries;
    let max_value = total_inserted + max_entries;
    let candidate = (max_value / full_range) * full_range + encoded - 1;
    if encoded == 0 {
        Some(0)
    } else if max_entries == 0 || encoded > full_range || max_value > usize::MAX || candidate + 1
        > usize::MAX {
        None
    } else if candidate > max_value {
        if candidate > full_range {
            Some(candidate - full_range)
        } else {
            None
        }
    } else if candidate == 0 {
        None
    } else {
        Some(candidate)
    }
}

impl HeaderPrefix {
    /// The Required Insert Count and the Base that the prefix stands for.
    pub open spec fn get_spec(self, total_inserted: usize, max_table_size: usize) -> Result<
        (usize, usize),
        ParseError,
    > {
        match required_insert_count(
            self.encoded_insert_count as int,
            total_inserted as int,
            max_table_size as int,
        ) {
            None => Err(ParseError::InvalidRequiredInsertCount(self.encoded_insert_count)),
            Some(required) => {
                let base = if self.sign_negative {
                    required - self.delta_base - 1
                } else {
                    required + self.delta_base
                };
                if 0 <= base <= usize::MAX {
                    Ok((required as usize, base as usize))
                } else {
                    Err(
                        ParseError::InvalidBase {
                            required_insert_count: required as usize,
                            sign_negative: self.sign_negative,
                            delta_base: self.delta_base,
                        },
                    )
                }
            },
        }
    }

    pub fn new(required: usize, base: usize, total_inserted: usize, max_table_size: usize) -> (prefix:
        Self)
        requires
            max_table_size != 0 && required != 0 ==> required <= total_inserted && max_table_size
                >= 32,
        ensures
            prefix == prefix_of(required, base, max_table_size),
    {
        if max_table_size == 0 || required == 0 {
            return HeaderPrefix { encoded_insert_count: 0, sign_negative: false, delta_base: 0 };
        }
        let (sign_negative, delta_base): (bool, usize) = if required > base {
            (true, required - base - 1)
        } else {
            (false, base - required)
        };
        let max_entries: usize = max_table_size / 32;
        HeaderPrefix {
            encoded_insert_count: required % (2 * max_entries) + 1,
            sign_negative,
            delta_base,
        }
    }

    /// The Required Insert Count and the Base.
    ///
    /// The capacity is the advertised maximum, not the current capacity.
    pub fn get(self, total_inserted: usize, max_table_size: usize) -> (result: Result<
        (usize, usize),
        ParseError,
    >)
        ensures
            result == self.get_spec(total_inserted, max_table_size),
    {
        let invalid = ParseError::InvalidRequiredInsertCount(self.encoded_insert_count);
        let required: usize = if self.encoded_insert_count == 0 {
            0
        } else {
            let max_entries: usize = max_table_size / 32;
            let full_range: usize = 2 * max_entries;
            if max_entries == 0 || self.encoded_insert_count > full_range {
                return Err(invalid);
            }
            let max_value: usize = match total_inserted.checked_add(max_entries) {
                Some(max_value) => max_value,
                None => return Err(invalid),
            };
            proof {
                let q = max_value as int / full_range as int;
                vstd::arithmetic::div_mod::lemma_fundamental_div_mod(
                    max_value as int,
                    full_range as int,
                );
                vstd::arithmetic::mul::lemma_mul_is_commutative(q, full_range as int);
                assert(q * full_range >= 0) by (nonlinear_arith)
                    requires
                        q >= 0,
                        full_range >= 0,
                ;
            }
            let max_wrapped: usize = (max_value / full_range) * full_range;
            let candidate: usize = match max_wrapped.checked_add(self.encoded_insert_count) {
                Some(next) => next - 1,
                None => return Err(invalid),
            };
            if candidate > max_value {
                if candidate <= full_range {
                    return Err(invalid);
                }
                candidate - full_range
            } else if candidate == 0 {
                return Err(invalid);
            } else {
                candidate
            }
        };
        let base: Option<usize> = if !self.sign_negative {
            required.checked_add(self.delta_base)
        } else if required > self.delta_base {
            Some(required - self.delta_base - 1)
        } else {
            None
        };
        match base {
            Some(base) => Ok((required, base)),
            None => Err(
                ParseError::InvalidBase {
                    required_insert_count: required,
                    sign_negative: self.sign_negative,
                    delta_base: self.delta_base,
                },
            ),
        }
    }

    /// The prefix at the front of `s`, and the bytes that are left.
    pub open spec fn decode_spec(s: Seq<u8>) -> (Result<HeaderPrefix, ParseError>, Seq<u8>) {
        let (count, rest) = prefix_int::decode_spec(8, s);
        match count {
            Err(error) => (Err(ParseError::Integer(error)), rest),
            Ok((_, count)) => {
                let (delta, rest) = prefix_int::decode_spec(7, rest);
                match delta {
                    Err(error) => (Err(ParseError::Integer(error)), rest),
                    Ok((sign, delta)) => if count > usize::MAX || delta > usize::MAX {
                        (Err(ParseError::Integer(prefix_int::Error::Overflow)), rest)
                    } else {
                        (
                            Ok(
                                HeaderPrefix {
                                    encoded_insert_count: count as usize,
                                    sign_negative: sign == 1,
                                    delta_base: delta as usize,
                                },
                            ),
                            rest,
                        )
                    },
                }
            },
        }
    }

    /// The bytes of the prefix.
    ///
    /// ```text
    ///   0   1   2   3   4   5   6   7
    /// +---+---+---+---+---+---+---+---+
    /// |   Required Insert Count (8+)  |
    /// +---+---------------------------+
    /// | S |      Delta Base (7+)      |
    /// +---+---------------------------+
    /// ```
    pub open spec fn encode_spec(self) -> Seq<u8> {
        prefix_int::encode_spec(8, 0, self.encoded_insert_count as u64) + prefix_int::encode_spec(
            7,
            if self.sign_negative {
                1
            } else {
                0
            },
            self.delta_base as u64,
        )
    }

    pub fn decode(buf: &mut Reader) -> (result: Result<Self, ParseError>)
        ensures
            (result, final(buf)@) == Self::decode_spec(old(buf)@),
    {
        let count: u64 = match prefix_int::decode(8, buf) {
            Ok((_, count)) => count,
            Err(error) => return Err(ParseError::Integer(error)),
        };
        let (sign, delta): (u8, u64) = match prefix_int::decode(7, buf) {
            Ok(delta) => delta,
            Err(error) => return Err(ParseError::Integer(error)),
        };
        if count > usize::MAX as u64 || delta > usize::MAX as u64 {
            return Err(ParseError::Integer(prefix_int::Error::Overflow));
        }
        Ok(
            HeaderPrefix {
                encoded_insert_count: count as usize,
                sign_negative: sign == 1,
                delta_base: delta as usize,
            },
        )
    }

    pub fn encode(&self, buf: &mut Vec<u8>)
        ensures
            final(buf)@ == old(buf)@ + self.encode_spec(),
    {
        prefix_int::encode(8, 0, self.encoded_insert_count as u64, buf);
        let sign: u8 = if self.sign_negative { 1 } else { 0 };
        prefix_int::encode(7, sign, self.delta_base as u64, buf);
        assert(buf@ =~= old(buf)@ + self.encode_spec());
    }
}

/// A decoder that is at most as many insertions behind or ahead of what the section
/// requires as the table holds entries reconstructs what was encoded.
pub proof fn prefix_round_trip(
    required: usize,
    base: usize,
    total_inserted: usize,
    max_table_size: usize,
)
    requires
        required > 0,
        max_table_size >= 32,
        total_inserted - max_table_size as int / 32 < required,
        required <= total_inserted + max_table_size as int / 32,
        total_inserted + 3 * (max_table_size as int / 32) <= usize::MAX,
    ensures
        prefix_of(required, base, max_table_size).get_spec(total_inserted, max_table_size) == Ok::<
            (usize, usize),
            ParseError,
        >((required, base)),
{
    let entries = max_table_size as int / 32;
    let full = 2 * entries;
    let max_value = total_inserted + entries;
    let prefix = prefix_of(required, base, max_table_size);
    let encoded = prefix.encoded_insert_count as int;
    let m = required as int % full;
    vstd::arithmetic::div_mod::lemma_mod_bound(required as int, full);
    vstd::arithmetic::div_mod::lemma_fundamental_div_mod(required as int, full);
    vstd::arithmetic::div_mod::lemma_fundamental_div_mod(max_value, full);
    vstd::arithmetic::div_mod::lemma_mod_bound(max_value, full);
    let q = required as int / full;
    let p = max_value / full;
    vstd::arithmetic::mul::lemma_mul_is_commutative(full, q);
    vstd::arithmetic::mul::lemma_mul_is_commutative(full, p);
    assert(encoded == m + 1);
    let candidate = p * full + encoded - 1;
    // The candidate differs from the count by a multiple of the range, and lies
    // less than a range away from the largest value.
    assert(p == q || p == q + 1) by (nonlinear_arith)
        requires
            q * full + m == required,
            0 <= m < full,
            p * full <= max_value < p * full + full,
            required <= max_value < required + full,
            full > 0,
    ;
    if p == q {
        assert(candidate == required);
    } else {
        assert((q + 1) * full == q * full + full) by (nonlinear_arith);
        assert(candidate == required + full);
    }
}

/// A section that requires no insertion is encoded without a Base.
pub proof fn empty_prefix_round_trip(base: usize, total_inserted: usize, max_table_size: usize)
    ensures
        prefix_of(0, base, max_table_size).get_spec(total_inserted, max_table_size) == Ok::<
            (usize, usize),
            ParseError,
        >((0, 0)),
{
}

/// Reading back a prefix that was written gives the prefix.
pub proof fn prefix_bytes_round_trip(prefix: HeaderPrefix, rest: Seq<u8>)
    ensures
        HeaderPrefix::decode_spec(prefix.encode_spec() + rest) == (
            Ok::<HeaderPrefix, ParseError>(prefix),
            rest,
        ),
{
    lemma2_to64();
    let count = prefix_int::encode_spec(8, 0, prefix.encoded_insert_count as u64);
    let sign = if prefix.sign_negative {
        1u8
    } else {
        0u8
    };
    let delta = prefix_int::encode_spec(7, sign, prefix.delta_base as u64);
    assert(prefix.encode_spec() + rest =~= count + (delta + rest));
    prefix_int::round_trip(8, 0, prefix.encoded_insert_count as u64, delta + rest);
    prefix_int::round_trip(7, sign, prefix.delta_base as u64, rest);
}

/// An index as it was read, where it can be one.
pub open spec fn index_spec(index: u64) -> Result<usize, ParseError> {
    if index > usize::MAX {
        Err(ParseError::Integer(prefix_int::Error::Overflow))
    } else {
        Ok(index as usize)
    }
}

fn read_index(index: u64) -> (result: Result<usize, ParseError>)
    ensures
        result == index_spec(index),
{
    if index > usize::MAX as u64 {
        Err(ParseError::Integer(prefix_int::Error::Overflow))
    } else {
        Ok(index as usize)
    }
}

/// A value string, as it follows an index or a name. With it come the bytes that
/// are left.
pub open spec fn value_spec(s: Seq<u8>, limit: usize) -> (Result<Seq<u8>, ParseError>, Seq<u8>) {
    let (value, rest) = prefix_string::decode_limited_spec(8, s, limit);
    match value {
        Ok(value) => (Ok(value), rest),
        Err(error) => (Err(ParseError::String(error)), rest),
    }
}

fn read_value(buf: &mut Reader, limit: usize) -> (result: Result<Vec<u8>, ParseError>)
    ensures
        (view_ok(result), final(buf)@) == value_spec(old(buf)@, limit),
{
    match prefix_string::decode_limited(8, buf, limit) {
        Ok(value) => Ok(value),
        Err(error) => Err(ParseError::String(error)),
    }
}

/// An entry of the static table, or of the dynamic table before the Base.
#[derive(Debug, Clone, Copy, PartialEq, Eq, Structural)]
pub enum Indexed {
    Static(usize),
    Dynamic(usize),
}

impl Indexed {
    pub open spec fn decode_spec(s: Seq<u8>) -> (Result<Indexed, ParseError>, Seq<u8>) {
        let (prefix, rest) = prefix_int::decode_spec(6, s);
        match prefix {
            Err(error) => (Err(ParseError::Integer(error)), rest),
            Ok((flags, index)) => if flags == 3 || flags == 2 {
                match index_spec(index) {
                    Err(error) => (Err(error), rest),
                    Ok(index) => if flags == 3 {
                        (Ok(Indexed::Static(index)), rest)
                    } else {
                        (Ok(Indexed::Dynamic(index)), rest)
                    },
                }
            } else {
                (Err(ParseError::InvalidPrefix(flags)), rest)
            },
        }
    }

    pub open spec fn encode_spec(self) -> Seq<u8> {
        match self {
            Indexed::Static(index) => prefix_int::encode_spec(6, 3, index as u64),
            Indexed::Dynamic(index) => prefix_int::encode_spec(6, 2, index as u64),
        }
    }

    pub fn decode(buf: &mut Reader) -> (result: Result<Self, ParseError>)
        ensures
            (result, final(buf)@) == Self::decode_spec(old(buf)@),
    {
        match prefix_int::decode(6, buf) {
            Ok((3, index)) => match read_index(index) {
                Ok(index) => Ok(Indexed::Static(index)),
                Err(error) => Err(error),
            },
            Ok((2, index)) => match read_index(index) {
                Ok(index) => Ok(Indexed::Dynamic(index)),
                Err(error) => Err(error),
            },
            Ok((flags, _)) => Err(ParseError::InvalidPrefix(flags)),
            Err(error) => Err(ParseError::Integer(error)),
        }
    }

    pub fn encode(&self, buf: &mut Vec<u8>)
        ensures
            final(buf)@ == old(buf)@ + self.encode_spec(),
    {
        match self {
            Indexed::Static(index) => prefix_int::encode(6, 3, *index as u64, buf),
            Indexed::Dynamic(index) => prefix_int::encode(6, 2, *index as u64, buf),
        }
    }
}

/// An entry of the dynamic table from the Base on.
#[derive(Debug, Clone, Copy, PartialEq, Eq, Structural)]
pub struct IndexedWithPostBase(pub usize);

impl IndexedWithPostBase {
    pub open spec fn decode_spec(s: Seq<u8>) -> (
        Result<IndexedWithPostBase, ParseError>,
        Seq<u8>,
    ) {
        let (prefix, rest) = prefix_int::decode_spec(4, s);
        match prefix {
            Err(error) => (Err(ParseError::Integer(error)), rest),
            Ok((flags, index)) => if flags == 1 {
                match index_spec(index) {
                    Err(error) => (Err(error), rest),
                    Ok(index) => (Ok(IndexedWithPostBase(index)), rest),
                }
            } else {
                (Err(ParseError::InvalidPrefix(flags)), rest)
            },
        }
    }

    pub open spec fn encode_spec(self) -> Seq<u8> {
        prefix_int::encode_spec(4, 1, self.0 as u64)
    }

    pub fn decode(buf: &mut Reader) -> (result: Result<Self, ParseError>)
        ensures
            (result, final(buf)@) == Self::decode_spec(old(buf)@),
    {
        match prefix_int::decode(4, buf) {
            Ok((1, index)) => match read_index(index) {
                Ok(index) => Ok(IndexedWithPostBase(index)),
                Err(error) => Err(error),
            },
            Ok((flags, _)) => Err(ParseError::InvalidPrefix(flags)),
            Err(error) => Err(ParseError::Integer(error)),
        }
    }

    pub fn encode(&self, buf: &mut Vec<u8>)
        ensures
            final(buf)@ == old(buf)@ + self.encode_spec(),
    {
        prefix_int::encode(4, 1, self.0 as u64, buf);
    }
}

/// The name of an entry of the static table, or of the dynamic table before the
/// Base, and a value, which may be marked never to be indexed.
#[derive(Debug, PartialEq, Eq)]
pub enum LiteralWithNameRef {
    Static { index: usize, value: Vec<u8>, never_indexed: bool },
    Dynamic { index: usize, value: Vec<u8>, never_indexed: bool },
}

/// What a literal with a name reference says.
#[verifier::ext_equal]
pub struct NameRefView {
    pub is_static: bool,
    pub index: usize,
    pub value: Seq<u8>,
    pub never_indexed: bool,
}

impl View for LiteralWithNameRef {
    type V = NameRefView;

    open spec fn view(&self) -> NameRefView {
        match self {
            LiteralWithNameRef::Static { index, value, never_indexed } => NameRefView {
                is_static: true,
                index: *index,
                value: value@,
                never_indexed: *never_indexed,
            },
            LiteralWithNameRef::Dynamic { index, value, never_indexed } => NameRefView {
                is_static: false,
                index: *index,
                value: value@,
                never_indexed: *never_indexed,
            },
        }
    }
}

impl NameRefView {
    pub open spec fn decode_spec(s: Seq<u8>, limit: usize) -> (
        Result<NameRefView, ParseError>,
        Seq<u8>,
    ) {
        let (prefix, rest) = prefix_int::decode_spec(4, s);
        match prefix {
            Err(error) => (Err(ParseError::Integer(error)), rest),
            Ok((flags, index)) => if flags / 4 == 1 {
                match index_spec(index) {
                    Err(error) => (Err(error), rest),
                    Ok(index) => {
                        let (value, rest) = value_spec(rest, limit);
                        match value {
                            Err(error) => (Err(error), rest),
                            Ok(value) => (
                                Ok(
                                    NameRefView {
                                        is_static: flags % 2 == 1,
                                        index,
                                        value,
                                        never_indexed: (flags / 2) % 2 == 1,
                                    },
                                ),
                                rest,
                            ),
                        }
                    },
                }
            } else {
                (Err(ParseError::InvalidPrefix(flags)), rest)
            },
        }
    }

    pub open spec fn encode_spec(self) -> Seq<u8> {
        prefix_int::encode_spec(
            4,
            name_ref_flags(self.never_indexed, self.is_static),
            self.index as u64,
        ) + prefix_string::encode_spec(8, 0, self.value)
    }
}

/// The bits above the index of a literal with a name reference.
pub open spec fn name_ref_flags(never_indexed: bool, is_static: bool) -> u8 {
    match (never_indexed, is_static) {
        (false, false) => 4,
        (false, true) => 5,
        (true, false) => 6,
        (true, true) => 7,
    }
}

impl LiteralWithNameRef {
    pub fn new_static(index: usize, value: &[u8]) -> (literal: Self)
        ensures
            literal@ == (NameRefView {
                is_static: true,
                index,
                value: value@,
                never_indexed: false,
            }),
    {
        LiteralWithNameRef::Static { index, value: to_vec(value), never_indexed: false }
    }

    pub fn new_dynamic(index: usize, value: &[u8]) -> (literal: Self)
        ensures
            literal@ == (NameRefView {
                is_static: false,
                index,
                value: value@,
                never_indexed: false,
            }),
    {
        LiteralWithNameRef::Dynamic { index, value: to_vec(value), never_indexed: false }
    }

    /// The same literal, marked never to be indexed.
    pub fn with_never_indexed(self) -> (literal: Self)
        ensures
            literal@ == (NameRefView { never_indexed: true, ..self@ }),
    {
        match self {
            LiteralWithNameRef::Static { index, value, never_indexed: _ } => {
                LiteralWithNameRef::Static { index, value, never_indexed: true }
            },
            LiteralWithNameRef::Dynamic { index, value, never_indexed: _ } => {
                LiteralWithNameRef::Dynamic { index, value, never_indexed: true }
            },
        }
    }

    pub fn decode(buf: &mut Reader) -> (result: Result<Self, ParseError>)
        ensures
            (view_ok(result), final(buf)@) == NameRefView::decode_spec(old(buf)@, usize::MAX),
    {
        Self::decode_limited(buf, usize::MAX)
    }

    pub fn decode_limited(buf: &mut Reader, max_encoded_string_size: usize) -> (result: Result<
        Self,
        ParseError,
    >)
        ensures
            (view_ok(result), final(buf)@) == NameRefView::decode_spec(
                old(buf)@,
                max_encoded_string_size,
            ),
    {
        let (flags, index): (u8, u64) = match prefix_int::decode(4, buf) {
            Ok(prefix) => prefix,
            Err(error) => return Err(ParseError::Integer(error)),
        };
        if flags / 4 != 1 {
            return Err(ParseError::InvalidPrefix(flags));
        }
        let index: usize = match read_index(index) {
            Ok(index) => index,
            Err(error) => return Err(error),
        };
        let value: Vec<u8> = match read_value(buf, max_encoded_string_size) {
            Ok(value) => value,
            Err(error) => return Err(error),
        };
        let never_indexed: bool = (flags / 2) % 2 == 1;
        if flags % 2 == 1 {
            Ok(LiteralWithNameRef::Static { index, value, never_indexed })
        } else {
            Ok(LiteralWithNameRef::Dynamic { index, value, never_indexed })
        }
    }

    pub fn encode(&self, buf: &mut Vec<u8>) -> (result: Result<(), prefix_string::Error>)
        ensures
            result is Ok,
            final(buf)@ == old(buf)@ + self@.encode_spec(),
    {
        match self {
            LiteralWithNameRef::Static { index, value, never_indexed } => {
                Self::encode_parts(*index, value.as_slice(), *never_indexed, true, buf)
            },
            LiteralWithNameRef::Dynamic { index, value, never_indexed } => {
                Self::encode_parts(*index, value.as_slice(), *never_indexed, false, buf)
            },
        }
    }

    /// Writes a literal from its parts.
    pub fn encode_parts(
        index: usize,
        value: &[u8],
        never_indexed: bool,
        is_static: bool,
        buf: &mut Vec<u8>,
    ) -> (result: Result<(), prefix_string::Error>)
        ensures
            result is Ok,
            final(buf)@ == old(buf)@ + (NameRefView {
                is_static,
                index,
                value: value@,
                never_indexed,
            }).encode_spec(),
    {
        let flags: u8 = 4 + (if never_indexed { 2 } else { 0 }) + (if is_static { 1 } else { 0 });
        prefix_int::encode(4, flags, index as u64, buf);
        let result = prefix_string::encode(8, 0, value, buf);
        assert(buf@ =~= old(buf)@ + (NameRefView {
            is_static,
            index,
            value: value@,
            never_indexed,
        }).encode_spec());
        result
    }
}

/// The name of an entry of the dynamic table from the Base on, and a value, which
/// may be marked never to be indexed.
#[derive(Debug, PartialEq, Eq)]
pub struct LiteralWithPostBaseNameRef {
    pub index: usize,
    pub value: Vec<u8>,
    pub never_indexed: bool,
}

/// What a literal with a post-base name reference says.
#[verifier::ext_equal]
pub struct PostBaseNameRefView {
    pub index: usize,
    pub value: Seq<u8>,
    pub never_indexed: bool,
}

impl View for LiteralWithPostBaseNameRef {
    type V = PostBaseNameRefView;

    open spec fn view(&self) -> PostBaseNameRefView {
        PostBaseNameRefView {
            index: self.index,
            value: self.value@,
            never_indexed: self.never_indexed,
        }
    }
}

impl PostBaseNameRefView {
    pub open spec fn decode_spec(s: Seq<u8>, limit: usize) -> (
        Result<PostBaseNameRefView, ParseError>,
        Seq<u8>,
    ) {
        let (prefix, rest) = prefix_int::decode_spec(3, s);
        match prefix {
            Err(error) => (Err(ParseError::Integer(error)), rest),
            Ok((flags, index)) => if flags < 2 {
                match index_spec(index) {
                    Err(error) => (Err(error), rest),
                    Ok(index) => {
                        let (value, rest) = value_spec(rest, limit);
                        match value {
                            Err(error) => (Err(error), rest),
                            Ok(value) => (
                                Ok(
                                    PostBaseNameRefView {
                                        index,
                                        value,
                                        never_indexed: flags % 2 == 1,
                                    },
                                ),
                                rest,
                            ),
                        }
                    },
                }
            } else {
                (Err(ParseError::InvalidPrefix(flags)), rest)
            },
        }
    }

    pub open spec fn encode_spec(self) -> Seq<u8> {
        prefix_int::encode_spec(
            3,
            if self.never_indexed {
                1
            } else {
                0
            },
            self.index as u64,
        ) + prefix_string::encode_spec(8, 0, self.value)
    }
}

impl LiteralWithPostBaseNameRef {
    pub fn new(index: usize, value: &[u8]) -> (literal: Self)
        ensures
            literal@ == (PostBaseNameRefView { index, value: value@, never_indexed: false }),
    {
        LiteralWithPostBaseNameRef { index, value: to_vec(value), never_indexed: false }
    }

    /// The same literal, marked never to be indexed.
    pub fn with_never_indexed(self) -> (literal: Self)
        ensures
            literal@ == (PostBaseNameRefView { never_indexed: true, ..self@ }),
    {
        LiteralWithPostBaseNameRef { index: self.index, value: self.value, never_indexed: true }
    }

    pub fn decode(buf: &mut Reader) -> (result: Result<Self, ParseError>)
        ensures
            (view_ok(result), final(buf)@) == PostBaseNameRefView::decode_spec(
                old(buf)@,
                usize::MAX,
            ),
    {
        Self::decode_limited(buf, usize::MAX)
    }

    pub fn decode_limited(buf: &mut Reader, max_encoded_string_size: usize) -> (result: Result<
        Self,
        ParseError,
    >)
        ensures
            (view_ok(result), final(buf)@) == PostBaseNameRefView::decode_spec(
                old(buf)@,
                max_encoded_string_size,
            ),
    {
        let (flags, index): (u8, u64) = match prefix_int::decode(3, buf) {
            Ok(prefix) => prefix,
            Err(error) => return Err(ParseError::Integer(error)),
        };
        if flags >= 2 {
            return Err(ParseError::InvalidPrefix(flags));
        }
        let index: usize = match read_index(index) {
            Ok(index) => index,
            Err(error) => return Err(error),
        };
        match read_value(buf, max_encoded_string_size) {
            Ok(value) => Ok(
                LiteralWithPostBaseNameRef { index, value, never_indexed: flags % 2 == 1 },
            ),
            Err(error) => Err(error),
        }
    }

    pub fn encode(&self, buf: &mut Vec<u8>) -> (result: Result<(), prefix_string::Error>)
        ensures
            result is Ok,
            final(buf)@ == old(buf)@ + self@.encode_spec(),
    {
        let flags: u8 = if self.never_indexed { 1 } else { 0 };
        prefix_int::encode(3, flags, self.index as u64, buf);
        let result = prefix_string::encode(8, 0, self.value.as_slice(), buf);
        assert(buf@ =~= old(buf)@ + self@.encode_spec());
        result
    }
}

/// A name and a value, which may be marked never to be indexed.
#[derive(Debug, PartialEq, Eq)]
pub struct Literal {
    pub name: Vec<u8>,
    pub value: Vec<u8>,
    pub never_indexed: bool,
}

/// What a literal says.
#[verifier::ext_equal]
pub struct LiteralView {
    pub name: Seq<u8>,
    pub value: Seq<u8>,
    pub never_indexed: bool,
}

impl View for Literal {
    type V = LiteralView;

    open spec fn view(&self) -> LiteralView {
        LiteralView { name: self.name@, value: self.value@, never_indexed: self.never_indexed }
    }
}

impl LiteralView {
    pub open spec fn decode_spec(s: Seq<u8>, limit: usize) -> (
        Result<LiteralView, ParseError>,
        Seq<u8>,
    ) {
        if s.len() == 0 {
            (Err(ParseError::Integer(prefix_int::Error::UnexpectedEnd)), s)
        } else if s[0] / 32 != 1 {
            (Err(ParseError::InvalidPrefix(s[0])), s)
        } else {
            let (name, rest) = prefix_string::decode_limited_spec(4, s, limit);
            match name {
                Err(error) => (Err(ParseError::String(error)), rest),
                Ok(name) => {
                    let (value, rest) = value_spec(rest, limit);
                    match value {
                        Err(error) => (Err(error), rest),
                        Ok(value) => (
                            Ok(LiteralView { name, value, never_indexed: (s[0] / 16) % 2 == 1 }),
                            rest,
                        ),
                    }
                },
            }
        }
    }

    pub open spec fn encode_spec(self) -> Seq<u8> {
        prefix_string::encode_spec(
            4,
            if self.never_indexed {
                3
            } else {
                2
            },
            self.name,
        ) + prefix_string::encode_spec(8, 0, self.value)
    }
}

impl Literal {
    pub fn new(name: &[u8], value: &[u8]) -> (literal: Self)
        ensures
            literal@ == (LiteralView { name: name@, value: value@, never_indexed: false }),
    {
        Literal { name: to_vec(name), value: to_vec(value), never_indexed: false }
    }

    /// The same literal, marked never to be indexed.
    pub fn with_never_indexed(self) -> (literal: Self)
        ensures
            literal@ == (LiteralView { never_indexed: true, ..self@ }),
    {
        Literal { name: self.name, value: self.value, never_indexed: true }
    }

    pub fn decode(buf: &mut Reader) -> (result: Result<Self, ParseError>)
        ensures
            (view_ok(result), final(buf)@) == LiteralView::decode_spec(old(buf)@, usize::MAX),
    {
        Self::decode_limited(buf, usize::MAX)
    }

    pub fn decode_limited(buf: &mut Reader, max_encoded_string_size: usize) -> (result: Result<
        Self,
        ParseError,
    >)
        ensures
            (view_ok(result), final(buf)@) == LiteralView::decode_spec(
                old(buf)@,
                max_encoded_string_size,
            ),
    {
        let first: u8 = match buf.peek() {
            Some(first) => first,
            None => return Err(ParseError::Integer(prefix_int::Error::UnexpectedEnd)),
        };
        if first / 32 != 1 {
            return Err(ParseError::InvalidPrefix(first));
        }
        let name: Vec<u8> = match prefix_string::decode_limited(4, buf, max_encoded_string_size) {
            Ok(name) => name,
            Err(error) => return Err(ParseError::String(error)),
        };
        match read_value(buf, max_encoded_string_size) {
            Ok(value) => Ok(Literal { name, value, never_indexed: (first / 16) % 2 == 1 }),
            Err(error) => Err(error),
        }
    }

    pub fn encode(&self, buf: &mut Vec<u8>) -> (result: Result<(), prefix_string::Error>)
        ensures
            result is Ok,
            final(buf)@ == old(buf)@ + self@.encode_spec(),
    {
        Self::encode_parts(self.name.as_slice(), self.value.as_slice(), self.never_indexed, buf)
    }

    /// Writes a literal from its parts.
    pub fn encode_parts(name: &[u8], value: &[u8], never_indexed: bool, buf: &mut Vec<u8>) -> (result:
        Result<(), prefix_string::Error>)
        ensures
            result is Ok,
            final(buf)@ == old(buf)@ + (LiteralView {
                name: name@,
                value: value@,
                never_indexed,
            }).encode_spec(),
    {
        let flags: u8 = if never_indexed { 3 } else { 2 };
        if let Err(error) = prefix_string::encode(4, flags, name, buf) {
            return Err(error);
        }
        let result = prefix_string::encode(8, 0, value, buf);
        assert(buf@ =~= old(buf)@ + (LiteralView {
            name: name@,
            value: value@,
            never_indexed,
        }).encode_spec());
        result
    }
}

/// Whether a string is encoded in at most `limit` bytes.
pub open spec fn encodable(value: Seq<u8>, limit: usize) -> bool {
    prefix_string::encode::encode_spec(value).len() <= limit
}

proof fn lemma_value_round_trip(value: Seq<u8>, rest: Seq<u8>, limit: usize)
    requires
        encodable(value, limit),
    ensures
        value_spec(prefix_string::encode_spec(8, 0, value) + rest, limit) == (
            Ok::<Seq<u8>, ParseError>(value),
            rest,
        ),
{
    prefix_string::round_trip(8, 0, value, rest, limit);
}

/// The first byte of an integer holds its flags above the prefix.
pub proof fn lemma_first_byte(size: u8, flags: u8, value: u64, rest: Seq<u8>)
    requires
        size <= 8,
        flags * pow2(size as nat) < 256,
    ensures
        prefix_int::encode_spec(size, flags, value).len() > 0,
        (prefix_int::encode_spec(size, flags, value) + rest)[0] as int / pow2(size as nat) as int
            == flags,
{
    prefix_int::round_trip(size, flags, value, rest);
    prefix_int::flags_round_trip(size, flags);
    let s = prefix_int::encode_spec(size, flags, value) + rest;
    vstd::arithmetic::power2::lemma_pow2_pos(size as nat);
    assert(s[0] as int / pow2(size as nat) as int <= s[0]) by (nonlinear_arith)
        requires
            pow2(size as nat) >= 1,
            s[0] >= 0,
    ;
    assert(s[0] as int / pow2(size as nat) as int >= 0) by (nonlinear_arith)
        requires
            pow2(size as nat) >= 1,
            s[0] >= 0,
    ;
}

/// Reading back an index that was written gives the index, and its first byte tells
/// what it is.
pub proof fn indexed_round_trip(line: Indexed, rest: Seq<u8>)
    ensures
        Indexed::decode_spec(line.encode_spec() + rest) == (Ok::<Indexed, ParseError>(line), rest),
        line.encode_spec().len() > 0,
        field_kind((line.encode_spec() + rest)[0]) == HeaderBlockField::Indexed,
{
    lemma2_to64();
    let (flags, index) = match line {
        Indexed::Static(index) => (3u8, index),
        Indexed::Dynamic(index) => (2u8, index),
    };
    prefix_int::round_trip(6, flags, index as u64, rest);
    prefix_int::flags_round_trip(6, flags);
    lemma_first_byte(6, flags, index as u64, rest);
}

/// Reading back a post-base index that was written gives the index, and its first
/// byte tells what it is.
pub proof fn indexed_with_post_base_round_trip(line: IndexedWithPostBase, rest: Seq<u8>)
    ensures
        IndexedWithPostBase::decode_spec(line.encode_spec() + rest) == (
            Ok::<IndexedWithPostBase, ParseError>(line),
            rest,
        ),
        line.encode_spec().len() > 0,
        field_kind((line.encode_spec() + rest)[0]) == HeaderBlockField::IndexedWithPostBase,
{
    lemma2_to64();
    prefix_int::round_trip(4, 1, line.0 as u64, rest);
    prefix_int::flags_round_trip(4, 1);
    lemma_first_byte(4, 1, line.0 as u64, rest);
}

/// Reading back a literal with a name reference that was written gives the literal,
/// marked as it was, and its first byte tells what it is.
pub proof fn literal_with_name_ref_round_trip(line: NameRefView, rest: Seq<u8>, limit: usize)
    requires
        encodable(line.value, limit),
    ensures
        NameRefView::decode_spec(line.encode_spec() + rest, limit) == (
            Ok::<NameRefView, ParseError>(line),
            rest,
        ),
        line.encode_spec().len() > 0,
        field_kind((line.encode_spec() + rest)[0]) == HeaderBlockField::LiteralWithNameRef,
{
    lemma2_to64();
    let flags = name_ref_flags(line.never_indexed, line.is_static);
    let head = prefix_int::encode_spec(4, flags, line.index as u64);
    let tail = prefix_string::encode_spec(8, 0, line.value) + rest;
    assert(line.encode_spec() + rest =~= head + tail);
    prefix_int::round_trip(4, flags, line.index as u64, tail);
    prefix_int::flags_round_trip(4, flags);
    lemma_first_byte(4, flags, line.index as u64, tail);
    lemma_value_round_trip(line.value, rest, limit);
}

/// Reading back a literal with a post-base name reference that was written gives the
/// literal, marked as it was, and its first byte tells what it is.
pub proof fn literal_with_post_base_name_ref_round_trip(line: PostBaseNameRefView, rest: Seq<u8>, limit: usize)
    requires
        encodable(line.value, limit),
    ensures
        PostBaseNameRefView::decode_spec(line.encode_spec() + rest, limit) == (
            Ok::<PostBaseNameRefView, ParseError>(line),
            rest,
        ),
        line.encode_spec().len() > 0,
        field_kind((line.encode_spec() + rest)[0])
            == HeaderBlockField::LiteralWithPostBaseNameRef,
{
    lemma2_to64();
    let flags = if line.never_indexed {
        1u8
    } else {
        0u8
    };
    let head = prefix_int::encode_spec(3, flags, line.index as u64);
    let tail = prefix_string::encode_spec(8, 0, line.value) + rest;
    assert(line.encode_spec() + rest =~= head + tail);
    prefix_int::round_trip(3, flags, line.index as u64, tail);
    prefix_int::flags_round_trip(3, flags);
    lemma_first_byte(3, flags, line.index as u64, tail);
    lemma_value_round_trip(line.value, rest, limit);
}

/// The first byte of a literal tells what it is and how it is marked.
#[verifier::spinoff_prover]
proof fn lemma_literal_first_byte(line: LiteralView, rest: Seq<u8>, limit: usize)
    requires
        encodable(line.name, limit),
    ensures
        line.encode_spec().len() > 0,
        (line.encode_spec() + rest)[0] / 32 == 1,
        ((line.encode_spec() + rest)[0] / 16) % 2 == 1 <==> line.never_indexed,
        field_kind((line.encode_spec() + rest)[0]) == HeaderBlockField::Literal,
{
    lemma2_to64();
    let flags = if line.never_indexed {
        3u8
    } else {
        2u8
    };
    let tail = prefix_string::encode_spec(8, 0, line.value) + rest;
    let encoded = prefix_string::encode::encode_spec(line.name);
    let marked = (2 * flags + 1) as u8;
    lemma_first_byte(3, marked, encoded.len() as u64, encoded + tail);
    assert(line.encode_spec() + rest =~= prefix_int::encode_spec(
        3,
        marked,
        encoded.len() as u64,
    ) + (encoded + tail));
}

/// Reading back a literal that was written gives the literal, marked as it was, and
/// its first byte tells what it is.
#[verifier::spinoff_prover]
pub proof fn literal_round_trip(line: LiteralView, rest: Seq<u8>, limit: usize)
    requires
        encodable(line.name, limit),
        encodable(line.value, limit),
    ensures
        LiteralView::decode_spec(line.encode_spec() + rest, limit) == (
            Ok::<LiteralView, ParseError>(line),
            rest,
        ),
        line.encode_spec().len() > 0,
        field_kind((line.encode_spec() + rest)[0]) == HeaderBlockField::Literal,
{
    lemma_literal_first_byte(line, rest, limit);
    let flags = if line.never_indexed {
        3u8
    } else {
        2u8
    };
    let tail = prefix_string::encode_spec(8, 0, line.value) + rest;
    assert(line.encode_spec() + rest =~= prefix_string::encode_spec(4, flags, line.name) + tail);
    assert(flags < vstd::arithmetic::power2::pow2(4)) by {
        lemma2_to64();
    }
    prefix_string::round_trip(4, flags, line.name, tail, limit);
    lemma_value_round_trip(line.value, rest, limit);
}

} // verus!
