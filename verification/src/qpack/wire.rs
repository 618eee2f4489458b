//! What an encoder may write, and what a decoder makes of it.
//!
//! An encoder has a choice: strings may be Huffman encoded or not, and a line may be an index
//! or a literal. Whatever it chooses, the decoder gives back the lines that were meant. See
//! <https://www.rfc-editor.org/rfc/rfc9204.html#section-4>.
use vstd::prelude::*;
use vstd::arithmetic::power2::{lemma2_to64, pow2};
use super::block::{
    empty_prefix_round_trip, lemma_first_byte, prefix_bytes_round_trip, prefix_of,
    prefix_round_trip, field_kind, HeaderBlockField, Indexed, IndexedWithPostBase, LiteralView,
    NameRefView, PostBaseNameRefView,
};
use super::decoder::{
    decode_lines, instruction_spec, line_spec, run_spec, section_lines, section_prefix,
    section_spec, stateless_line_spec, stateless_lines, stateless_spec, DecodedView, DecoderError,
    FieldSectionPrefix, InstructionView,
};
use super::dynamic::{
    evictions, insert_result, inserted_view, lemma_evictions, lemma_lines_size_nonneg,
    lemma_lines_size_push, lines_size, resized, TableView,
};
use super::field::FieldView;
use super::parse_error::ParseError;
use super::prefix_int;
use super::prefix_string;
use super::prefix_string::encode::encode_spec as huffman_encode;
use super::static_::{static_entry, STATIC_ENTRIES};
use super::stream::{
    encoder_instruction, Duplicate, DynamicTableSizeUpdate, EncoderInstruction, InsertView,
    InsertWithNameRefView,
};

verus! {

/// A string, and how it is written.
pub enum Text {
    Plain(Seq<u8>),
    Huffman(Seq<u8>),
}

/// The string that is meant.
pub open spec fn text_value(text: Text) -> Seq<u8> {
    match text {
        Text::Plain(value) => value,
        Text::Huffman(value) => value,
    }
}

/// The bytes of a string behind its length.
pub open spec fn text_payload(text: Text) -> Seq<u8> {
    match text {
        Text::Plain(value) => value,
        Text::Huffman(value) => huffman_encode(value),
    }
}

/// The bytes of a string with a `size` bit prefix below `flags`.
pub open spec fn text_bytes(size: u8, flags: u8, text: Text) -> Seq<u8> {
    prefix_int::encode_spec(
        (size - 1) as u8,
        (2 * flags + if text is Huffman {
            1int
        } else {
            0
        }) as u8,
        text_payload(text).len() as u64,
    ) + text_payload(text)
}

/// Whether the decoder's limit admits a string.
pub open spec fn text_fits(text: Text, limit: usize) -> bool {
    text_payload(text).len() <= limit
}

/// A string is read as it is meant, however it is written.
pub proof fn texts_are_read(size: u8, flags: u8, text: Text, rest: Seq<u8>, limit: usize)
    requires
        1 <= size <= 8,
        flags * pow2(size as nat) < 256,
        text_fits(text, limit),
    ensures
        prefix_string::decode_limited_spec(size, text_bytes(size, flags, text) + rest, limit) == (
            Ok::<Seq<u8>, prefix_string::Error>(text_value(text)),
            rest,
        ),
        text_bytes(size, flags, text).len() > 0,
        (text_bytes(size, flags, text) + rest)[0] as int / pow2(size as nat) as int == flags,
{
    let payload = text_payload(text);
    let h = if text is Huffman {
        1int
    } else {
        0
    };
    let marked = (2 * flags + h) as u8;
    vstd::arithmetic::power2::lemma_pow2_pos((size - 1) as nat);
    vstd::arithmetic::power2::lemma_pow2_unfold(size as nat);
    let half = pow2((size - 1) as nat) as int;
    assert(pow2(size as nat) == 2 * half);
    assert(half == 1 || half == 2 || half == 4 || half == 8 || half == 16 || half == 32 || half
        == 64 || half == 128) by {
        lemma2_to64();
        let n = size - 1;
        assert(n == 0 || n == 1 || n == 2 || n == 3 || n == 4 || n == 5 || n == 6 || n == 7);
    }
    assert(2 * flags < 256) by (nonlinear_arith)
        requires
            flags * (2 * half) < 256,
            half >= 1,
            flags >= 0,
    ;
    assert((2 * flags) % 256 == 2 * flags);
    assert(marked * half < 256) by (nonlinear_arith)
        requires
            flags * (2 * half) < 256,
            half >= 1,
            half == 1 || half == 2 || half == 4 || half == 8 || half == 16 || half == 32 || half == 64
                || half == 128,
            marked == 2 * flags + h,
            h <= 1,
    ;
    match text {
        Text::Plain(value) => {
            prefix_string::plain_round_trip(size, flags, value, rest, limit);
            assert(text_bytes(size, flags, text) + rest =~= prefix_int::encode_spec(
                (size - 1) as u8,
                ((2 * flags) % 256) as u8,
                value.len() as u64,
            ) + value + rest);
        },
        Text::Huffman(value) => {
            prefix_string::round_trip(size, flags, value, rest, limit);
            assert(text_bytes(size, flags, text) =~= prefix_string::encode_spec(
                size,
                flags,
                value,
            ));
        },
    }
    lemma_first_byte((size - 1) as u8, marked, payload.len() as u64, payload + rest);
    let s = text_bytes(size, flags, text) + rest;
    assert(s =~= prefix_int::encode_spec((size - 1) as u8, marked, payload.len() as u64) + (payload
        + rest));
    let first = s[0] as int;
    assert(first / half == marked);
    assert(first / (2 * half) == (first / half) / 2) by {
        vstd::arithmetic::div_mod::lemma_div_denominator(first, half, 2);
        vstd::arithmetic::mul::lemma_mul_is_commutative(half, 2);
    }
}

/// A field line, and how it is written. An entry of the dynamic table is told by the number of
/// its insertion.
pub enum Line {
    /// An entry of the static table.
    Static(usize),
    /// An entry of the dynamic table.
    Dynamic(usize),
    /// The name of an entry of the static table, with a value.
    StaticName { index: usize, value: Text, never_indexed: bool },
    /// The name of an entry of the dynamic table, with a value.
    DynamicName { absolute: usize, value: Text, never_indexed: bool },
    /// A name and a value.
    Literal { name: Text, value: Text, never_indexed: bool },
}

/// The field line that is meant.
pub open spec fn line_meaning(table: TableView, line: Line) -> FieldView {
    match line {
        Line::Static(index) => static_entry(index as int),
        Line::Dynamic(absolute) => table.entry(absolute as int),
        Line::StaticName { index, value, never_indexed } => FieldView {
            name: static_entry(index as int).name,
            value: text_value(value),
            sensitive: never_indexed,
        },
        Line::DynamicName { absolute, value, never_indexed } => FieldView {
            name: table.entry(absolute as int).name,
            value: text_value(value),
            sensitive: never_indexed,
        },
        Line::Literal { name, value, never_indexed } => FieldView {
            name: text_value(name),
            value: text_value(value),
            sensitive: never_indexed,
        },
    }
}

/// The bit that marks a line never to be indexed.
pub open spec fn never_bit(never_indexed: bool) -> int {
    if never_indexed {
        1
    } else {
        0
    }
}

/// The bytes of a line in a section that counts from `base`.
///
/// See <https://www.rfc-editor.org/rfc/rfc9204.html#section-4.5.2> and on.
pub open spec fn line_bytes(base: usize, line: Line) -> Seq<u8> {
    match line {
        Line::Static(index) => prefix_int::encode_spec(6, 3, index as u64),
        Line::Dynamic(absolute) => if absolute <= base {
            prefix_int::encode_spec(6, 2, (base - absolute) as u64)
        } else {
            prefix_int::encode_spec(4, 1, (absolute - base - 1) as u64)
        },
        Line::StaticName { index, value, never_indexed } => prefix_int::encode_spec(
            4,
            (5 + 2 * never_bit(never_indexed)) as u8,
            index as u64,
        ) + text_bytes(8, 0, value),
        Line::DynamicName { absolute, value, never_indexed } => if absolute <= base {
            prefix_int::encode_spec(
                4,
                (4 + 2 * never_bit(never_indexed)) as u8,
                (base - absolute) as u64,
            ) + text_bytes(8, 0, value)
        } else {
            prefix_int::encode_spec(
                3,
                never_bit(never_indexed) as u8,
                (absolute - base - 1) as u64,
            ) + text_bytes(8, 0, value)
        },
        Line::Literal { name, value, never_indexed } => text_bytes(
            4,
            (2 + never_bit(never_indexed)) as u8,
            name,
        ) + text_bytes(8, 0, value),
    }
}

/// Whether a line can be read: what it refers to is there and required, and the decoder's
/// limit admits its strings.
pub open spec fn line_readable(table: TableView, required: usize, limit: usize, line: Line) -> bool {
    match line {
        Line::Static(index) => index < STATIC_ENTRIES,
        Line::Dynamic(absolute) => absolute <= required && table.holds(absolute as int),
        Line::StaticName { index, value, .. } => index < STATIC_ENTRIES && text_fits(value, limit),
        Line::DynamicName { absolute, value, .. } => absolute <= required && table.holds(
            absolute as int,
        ) && text_fits(value, limit),
        Line::Literal { name, value, .. } => text_fits(name, limit) && text_fits(value, limit),
    }
}

/// Whether a line refers to the dynamic table.
pub open spec fn is_dynamic(line: Line) -> bool {
    line is Dynamic || line is DynamicName
}

/// An index is read, and its first byte tells what it is.
proof fn lemma_index_read(index: usize, rest: Seq<u8>)
    ensures
        ({
            let s = prefix_int::encode_spec(6, 3, index as u64) + rest;
            &&& Indexed::decode_spec(s) == (Ok::<Indexed, ParseError>(Indexed::Static(index)), rest)
            &&& field_kind(s[0]) == HeaderBlockField::Indexed
        }),
        ({
            let s = prefix_int::encode_spec(6, 2, index as u64) + rest;
            &&& Indexed::decode_spec(s) == (Ok::<Indexed, ParseError>(Indexed::Dynamic(index)), rest)
            &&& field_kind(s[0]) == HeaderBlockField::Indexed
        }),
        ({
            let s = prefix_int::encode_spec(4, 1, index as u64) + rest;
            &&& IndexedWithPostBase::decode_spec(s) == (
                Ok::<IndexedWithPostBase, ParseError>(IndexedWithPostBase(index)),
                rest,
            )
            &&& field_kind(s[0]) == HeaderBlockField::IndexedWithPostBase
        }),
        prefix_int::encode_spec(6, 3, index as u64).len() > 0,
        prefix_int::encode_spec(6, 2, index as u64).len() > 0,
        prefix_int::encode_spec(4, 1, index as u64).len() > 0,
{
    lemma2_to64();
    lemma_int_read(6, 3, index as u64, rest);
    lemma_int_read(6, 2, index as u64, rest);
    lemma_int_read(4, 1, index as u64, rest);
}

/// A literal with a name reference is read, and its first byte tells what it is.
proof fn lemma_name_ref_read(
    is_static: bool,
    index: usize,
    value: Text,
    never_indexed: bool,
    rest: Seq<u8>,
    limit: usize,
)
    requires
        text_fits(value, limit),
    ensures
        ({
            let flags = (4 + 2 * never_bit(never_indexed) + if is_static {
                1int
            } else {
                0
            }) as u8;
            let bytes = prefix_int::encode_spec(4, flags, index as u64) + text_bytes(8, 0, value);
            let s = bytes + rest;
            &&& bytes.len() > 0
            &&& NameRefView::decode_spec(s, limit) == (
                Ok::<NameRefView, ParseError>(
                    NameRefView { is_static, index, value: text_value(value), never_indexed },
                ),
                rest,
            )
            &&& field_kind(s[0]) == HeaderBlockField::LiteralWithNameRef
        }),
{
    lemma2_to64();
    let flags = (4 + 2 * never_bit(never_indexed) + if is_static {
        1int
    } else {
        0
    }) as u8;
    let head = prefix_int::encode_spec(4, flags, index as u64);
    let tail = text_bytes(8, 0, value) + rest;
    assert(head + text_bytes(8, 0, value) + rest =~= head + tail);
    lemma_int_read(4, flags, index as u64, tail);
    texts_are_read(8, 0, value, rest, limit);
}

/// A literal with a post-base name reference is read, and its first byte tells what it is.
proof fn lemma_post_base_name_ref_read(
    index: usize,
    value: Text,
    never_indexed: bool,
    rest: Seq<u8>,
    limit: usize,
)
    requires
        text_fits(value, limit),
    ensures
        ({
            let bytes = prefix_int::encode_spec(3, never_bit(never_indexed) as u8, index as u64)
                + text_bytes(8, 0, value);
            let s = bytes + rest;
            &&& bytes.len() > 0
            &&& PostBaseNameRefView::decode_spec(s, limit) == (
                Ok::<PostBaseNameRefView, ParseError>(
                    PostBaseNameRefView { index, value: text_value(value), never_indexed },
                ),
                rest,
            )
            &&& field_kind(s[0]) == HeaderBlockField::LiteralWithPostBaseNameRef
        }),
{
    lemma2_to64();
    let flags = never_bit(never_indexed) as u8;
    let head = prefix_int::encode_spec(3, flags, index as u64);
    let tail = text_bytes(8, 0, value) + rest;
    assert(head + text_bytes(8, 0, value) + rest =~= head + tail);
    lemma_int_read(3, flags, index as u64, tail);
    texts_are_read(8, 0, value, rest, limit);
}

/// A literal is read, and its first byte tells what it is.
proof fn lemma_literal_read(
    name: Text,
    value: Text,
    never_indexed: bool,
    rest: Seq<u8>,
    limit: usize,
)
    requires
        text_fits(name, limit),
        text_fits(value, limit),
    ensures
        ({
            let bytes = text_bytes(4, (2 + never_bit(never_indexed)) as u8, name) + text_bytes(
                8,
                0,
                value,
            );
            let s = bytes + rest;
            &&& bytes.len() > 0
            &&& LiteralView::decode_spec(s, limit) == (
                Ok::<LiteralView, ParseError>(
                    LiteralView { name: text_value(name), value: text_value(value), never_indexed },
                ),
                rest,
            )
            &&& field_kind(s[0]) == HeaderBlockField::Literal
        }),
{
    lemma2_to64();
    let flags = (2 + never_bit(never_indexed)) as u8;
    let tail = text_bytes(8, 0, value) + rest;
    let s = text_bytes(4, flags, name) + text_bytes(8, 0, value) + rest;
    assert(s =~= text_bytes(4, flags, name) + tail);
    texts_are_read(4, flags, name, tail, limit);
    texts_are_read(8, 0, value, rest, limit);
    let first = s[0];
    assert(first as int / 16 == flags);
    assert(first / 32 == 1);
}

/// A line is read as it is meant, whichever way it is written, and no byte of what follows is
/// taken. Where the dynamic table is not to be used, a reference to it is an error.
#[verifier::spinoff_prover]
pub proof fn lines_are_read(
    table: TableView,
    base: usize,
    required: usize,
    limit: usize,
    line: Line,
    rest: Seq<u8>,
)
    requires
        0 <= table.dropped,
        line_readable(table, required, limit, line),
    ensures
        line_bytes(base, line).len() > 0,
        line_spec(table, base as int, required as int, limit, line_bytes(base, line) + rest) == (
            Ok::<FieldView, DecoderError>(line_meaning(table, line)),
            rest,
        ),
        !is_dynamic(line) ==> stateless_line_spec(limit, line_bytes(base, line) + rest) == (
            Ok::<FieldView, DecoderError>(line_meaning(table, line)),
            rest,
        ),
        is_dynamic(line) ==> stateless_line_spec(limit, line_bytes(base, line) + rest).0 == Err::<
            FieldView,
            DecoderError,
        >(DecoderError::MissingRefs(0)),
{
    reveal(line_spec);
    reveal(stateless_line_spec);
    match line {
        Line::Static(index) => lemma_index_read(index, rest),
        Line::Dynamic(absolute) => if absolute <= base {
            lemma_index_read((base - absolute) as usize, rest);
        } else {
            lemma_index_read((absolute - base - 1) as usize, rest);
        },
        Line::StaticName { index, value, never_indexed } => {
            lemma_name_ref_read(true, index, value, never_indexed, rest, limit);
        },
        Line::DynamicName { absolute, value, never_indexed } => if absolute <= base {
            lemma_name_ref_read(
                false,
                (base - absolute) as usize,
                value,
                never_indexed,
                rest,
                limit,
            );
        } else {
            lemma_post_base_name_ref_read(
                (absolute - base - 1) as usize,
                value,
                never_indexed,
                rest,
                limit,
            );
        },
        Line::Literal { name, value, never_indexed } => {
            lemma_literal_read(name, value, never_indexed, rest, limit);
        },
    }
}

/// An integer is read with its flags, and its first byte begins with them.
proof fn lemma_int_read(size: u8, flags: u8, value: u64, rest: Seq<u8>)
    requires
        size <= 8,
        flags * pow2(size as nat) < 256,
    ensures
        prefix_int::decode_spec(size, prefix_int::encode_spec(size, flags, value) + rest) == (
            Ok::<(u8, u64), prefix_int::Error>((flags, value)),
            rest,
        ),
        prefix_int::encode_spec(size, flags, value).len() > 0,
        (prefix_int::encode_spec(size, flags, value) + rest)[0] as int / pow2(size as nat) as int
            == flags,
{
    prefix_int::round_trip(size, flags, value, rest);
    prefix_int::flags_round_trip(size, flags);
    lemma_first_byte(size, flags, value, rest);
}

/// The field lines that are meant.
pub open spec fn meanings(table: TableView, lines: Seq<Line>) -> Seq<FieldView> {
    lines.map_values(|line: Line| line_meaning(table, line))
}

/// The bytes of lines, one after the other.
pub open spec fn lines_bytes(base: usize, lines: Seq<Line>) -> Seq<u8>
    decreases lines.len(),
{
    if lines.len() == 0 {
        Seq::empty()
    } else {
        line_bytes(base, lines[0]) + lines_bytes(base, lines.skip(1))
    }
}

/// Whether all lines can be read.
pub open spec fn lines_readable(
    table: TableView,
    required: usize,
    limit: usize,
    lines: Seq<Line>,
) -> bool {
    forall|i: int| 0 <= i < lines.len() ==> line_readable(table, required, limit, #[trigger] lines[i])
}

proof fn lemma_rest(table: TableView, required: usize, limit: usize, lines: Seq<Line>)
    requires
        lines.len() > 0,
        lines_readable(table, required, limit, lines),
    ensures
        line_readable(table, required, limit, lines[0]),
        lines_readable(table, required, limit, lines.skip(1)),
        meanings(table, lines)[0] == line_meaning(table, lines[0]),
        meanings(table, lines).skip(1) == meanings(table, lines.skip(1)),
        meanings(table, lines) == seq![line_meaning(table, lines[0])] + meanings(
            table,
            lines.skip(1),
        ),
{
    assert forall|i: int| 0 <= i < lines.skip(1).len() implies line_readable(
        table,
        required,
        limit,
        #[trigger] lines.skip(1)[i],
    ) by {
        assert(lines.skip(1)[i] == lines[i + 1]);
    }
    assert(meanings(table, lines).skip(1) =~= meanings(table, lines.skip(1)));
    assert(meanings(table, lines) =~= seq![line_meaning(table, lines[0])] + meanings(
        table,
        lines.skip(1),
    ));
}

/// Either way of reading lines.
spec fn reading(
    table: TableView,
    base: usize,
    required: usize,
    limit: usize,
    stateless: bool,
) -> spec_fn(Seq<u8>) -> (Result<FieldView, DecoderError>, Seq<u8>) {
    if stateless {
        stateless_lines(limit)
    } else {
        section_lines(table, base as int, required as int, limit)
    }
}

proof fn lemma_lines_read(
    table: TableView,
    base: usize,
    required: usize,
    limit: usize,
    stateless: bool,
    max_size: u64,
    mem_size: int,
    lines: Seq<Line>,
)
    requires
        0 <= table.dropped,
        lines_readable(table, required, limit, lines),
        stateless ==> forall|i: int| 0 <= i < lines.len() ==> !is_dynamic(#[trigger] lines[i]),
        0 <= mem_size,
        mem_size + lines_size(meanings(table, lines)) <= max_size,
    ensures
        decode_lines(
            reading(table, base, required, limit, stateless),
            max_size,
            mem_size,
            lines_bytes(base, lines),
        ) == (
            Ok::<(Seq<FieldView>, int), DecoderError>(
                (meanings(table, lines), mem_size + lines_size(meanings(table, lines))),
            ),
            Seq::<u8>::empty(),
        ),
    decreases lines.len(),
{
    let fields = meanings(table, lines);
    if lines.len() == 0 {
        assert(fields =~= Seq::<FieldView>::empty());
    } else {
        let rest = lines_bytes(base, lines.skip(1));
        lemma_rest(table, required, limit, lines);
        lines_are_read(table, base, required, limit, lines[0], rest);
        lemma_lines_size_nonneg(fields.skip(1));
        assert(stateless ==> forall|i: int|
            0 <= i < lines.skip(1).len() ==> !is_dynamic(#[trigger] lines.skip(1)[i])) by {
            assert forall|i: int| 0 <= i < lines.skip(1).len() && stateless implies !is_dynamic(
                #[trigger] lines.skip(1)[i],
            ) by {
                assert(lines.skip(1)[i] == lines[i + 1]);
            }
        }
        lemma_lines_read(
            table,
            base,
            required,
            limit,
            stateless,
            max_size,
            mem_size + fields[0].size(),
            lines.skip(1),
        );
    }
}

/// The line that goes beyond the limit is refused with the size up to it.
proof fn lemma_lines_refused(
    table: TableView,
    base: usize,
    required: usize,
    limit: usize,
    stateless: bool,
    max_size: u64,
    mem_size: int,
    lines: Seq<Line>,
    n: int,
)
    requires
        0 <= table.dropped,
        lines_readable(table, required, limit, lines),
        stateless ==> forall|i: int| 0 <= i < lines.len() ==> !is_dynamic(#[trigger] lines[i]),
        0 <= mem_size,
        0 <= n < lines.len(),
        mem_size + lines_size(meanings(table, lines).take(n)) <= max_size,
        max_size < mem_size + lines_size(meanings(table, lines).take(n + 1)) <= u64::MAX,
    ensures
        decode_lines(
            reading(table, base, required, limit, stateless),
            max_size,
            mem_size,
            lines_bytes(base, lines),
        ).0 == Err::<(Seq<FieldView>, int), DecoderError>(
            DecoderError::HeaderTooLong(
                (mem_size + lines_size(meanings(table, lines).take(n + 1))) as u64,
            ),
        ),
    decreases lines.len(),
{
    let fields = meanings(table, lines);
    let rest = lines_bytes(base, lines.skip(1));
    lemma_rest(table, required, limit, lines);
    lines_are_read(table, base, required, limit, lines[0], rest);
    assert(lines_size(Seq::<FieldView>::empty()) == 0);
    assert(fields.take(n + 1)[0] == fields[0]);
    assert(fields.take(0) =~= Seq::<FieldView>::empty());
    if n == 0 {
        assert(fields.take(1).skip(1) =~= Seq::<FieldView>::empty());
    } else {
        assert(fields.take(n)[0] == fields[0]);
        assert(fields.take(n).skip(1) =~= fields.skip(1).take(n - 1));
        assert(fields.take(n + 1).skip(1) =~= fields.skip(1).take(n));
        lemma_lines_size_nonneg(fields.skip(1).take(n - 1));
        assert(stateless ==> forall|i: int|
            0 <= i < lines.skip(1).len() ==> !is_dynamic(#[trigger] lines.skip(1)[i])) by {
            assert forall|i: int| 0 <= i < lines.skip(1).len() && stateless implies !is_dynamic(
                #[trigger] lines.skip(1)[i],
            ) by {
                assert(lines.skip(1)[i] == lines[i + 1]);
            }
        }
        lemma_lines_refused(
            table,
            base,
            required,
            limit,
            stateless,
            max_size,
            mem_size + fields[0].size(),
            lines.skip(1),
            n - 1,
        );
    }
}

/// A field section is decoded to the lines that are meant, all of them and in their order,
/// however each of them is written; its size is the size of the lines.
pub proof fn sections_are_read(
    table: TableView,
    base: usize,
    required: usize,
    limit: usize,
    max_size: u64,
    lines: Seq<Line>,
)
    requires
        0 <= table.dropped,
        required <= table.inserted(),
        lines_readable(table, required, limit, lines),
        lines_size(meanings(table, lines)) <= max_size,
    ensures
        section_spec(
            table,
            FieldSectionPrefix { required_ref: required, base },
            limit,
            max_size,
            lines_bytes(base, lines),
        ) == (
            Ok::<DecodedView, DecoderError>(
                DecodedView {
                    fields: meanings(table, lines),
                    dyn_ref: required > 0,
                    mem_size: lines_size(meanings(table, lines)) as u64,
                },
            ),
            Seq::<u8>::empty(),
        ),
{
    lemma_lines_read(table, base, required, limit, false, max_size, 0, lines);
    lemma_lines_size_nonneg(meanings(table, lines));
}

/// A field section that requires insertions which have not arrived waits for them, and none of
/// it is read.
pub proof fn sections_wait_for_insertions(
    table: TableView,
    base: usize,
    required: usize,
    limit: usize,
    max_size: u64,
    s: Seq<u8>,
)
    requires
        required > table.inserted(),
    ensures
        section_spec(
            table,
            FieldSectionPrefix { required_ref: required, base },
            limit,
            max_size,
            s,
        ) == (Err::<DecodedView, DecoderError>(DecoderError::MissingRefs(required)), s),
{
}

/// A field section that is larger than permitted is refused with its size up to the line that
/// goes beyond the limit.
pub proof fn large_sections_are_refused(
    table: TableView,
    base: usize,
    required: usize,
    limit: usize,
    max_size: u64,
    lines: Seq<Line>,
    n: int,
)
    requires
        0 <= table.dropped,
        required <= table.inserted(),
        lines_readable(table, required, limit, lines),
        0 <= n < lines.len(),
        lines_size(meanings(table, lines).take(n)) <= max_size,
        max_size < lines_size(meanings(table, lines).take(n + 1)) <= u64::MAX,
    ensures
        section_spec(
            table,
            FieldSectionPrefix { required_ref: required, base },
            limit,
            max_size,
            lines_bytes(base, lines),
        ).0 == Err::<DecodedView, DecoderError>(
            DecoderError::HeaderTooLong(
                lines_size(meanings(table, lines).take(n + 1)) as u64,
            ),
        ),
        (forall|i: int| 0 <= i < lines.len() ==> !is_dynamic(#[trigger] lines[i]))
            ==> stateless_spec(limit, max_size, seq![0u8, 0u8] + lines_bytes(base, lines)).0
            == Err::<DecodedView, DecoderError>(
            DecoderError::HeaderTooLong(
                lines_size(meanings(table, lines).take(n + 1)) as u64,
            ),
        ),
{
    lemma_lines_refused(table, base, required, limit, false, max_size, 0, lines, n);
    if forall|i: int| 0 <= i < lines.len() ==> !is_dynamic(#[trigger] lines[i]) {
        lemma_lines_refused(table, base, required, limit, true, max_size, 0, lines, n);
        lemma_empty_prefix(lines_bytes(base, lines));
    }
}

/// Two zero bytes are the prefix of a section that requires no insertion.
proof fn lemma_empty_prefix(rest: Seq<u8>)
    ensures
        section_prefix(0, 0, None, seq![0u8, 0u8] + rest) == (
            Ok::<FieldSectionPrefix, DecoderError>(
                FieldSectionPrefix { required_ref: 0, base: 0 },
            ),
            rest,
        ),
{
    lemma2_to64();
    let s = seq![0u8, 0u8] + rest;
    assert(s.skip(1) =~= seq![0u8] + rest);
    assert(s.skip(1).skip(1) =~= rest);
}

/// A field section that does not refer to the dynamic table is decoded, without one, to the
/// lines that are meant, all of them and in their order, however each of them is written.
pub proof fn stateless_sections_are_read(
    table: TableView,
    limit: usize,
    max_size: u64,
    lines: Seq<Line>,
)
    requires
        0 <= table.dropped,
        lines_readable(table, 0, limit, lines),
        forall|i: int| 0 <= i < lines.len() ==> !is_dynamic(#[trigger] lines[i]),
        lines_size(meanings(table, lines)) <= max_size,
    ensures
        stateless_spec(limit, max_size, seq![0u8, 0u8] + lines_bytes(0, lines)) == (
            Ok::<DecodedView, DecoderError>(
                DecodedView {
                    fields: meanings(table, lines),
                    dyn_ref: false,
                    mem_size: lines_size(meanings(table, lines)) as u64,
                },
            ),
            Seq::<u8>::empty(),
        ),
{
    lemma_empty_prefix(lines_bytes(0, lines));
    lemma_lines_read(table, 0, 0, limit, true, max_size, 0, lines);
    lemma_lines_size_nonneg(meanings(table, lines));
}

/// The prefix of a section gives the decoder the insertions that it requires and the Base that
/// it counts from, as long as the decoder is not further away from them than its table holds
/// entries.
pub proof fn prefixes_are_read(
    required: usize,
    base: usize,
    total_inserted: usize,
    max_table_capacity: usize,
    rest: Seq<u8>,
)
    requires
        required > 0 ==> max_table_capacity >= 32 && total_inserted - max_table_capacity as int / 32
            < required <= total_inserted + max_table_capacity as int / 32 && total_inserted + 3 * (
        max_table_capacity as int / 32) <= usize::MAX,
    ensures
        section_prefix(
            total_inserted as int,
            max_table_capacity,
            None,
            prefix_of(required, base, max_table_capacity).encode_spec() + rest,
        ) == (
            Ok::<FieldSectionPrefix, DecoderError>(
                FieldSectionPrefix {
                    required_ref: required,
                    base: if required == 0 {
                        0
                    } else {
                        base
                    },
                },
            ),
            rest,
        ),
{
    prefix_bytes_round_trip(prefix_of(required, base, max_table_capacity), rest);
    if required == 0 {
        empty_prefix_round_trip(base, total_inserted, max_table_capacity);
    } else {
        prefix_round_trip(required, base, total_inserted, max_table_capacity);
    }
}

/// Whatever is decoded is within the limit, its size is that of its lines, and nothing of it is
/// left.
pub proof fn decoded_sections_are_within_the_limit(
    table: TableView,
    prefix: FieldSectionPrefix,
    limit: usize,
    max_size: u64,
    s: Seq<u8>,
)
    ensures
        section_spec(table, prefix, limit, max_size, s).0 matches Ok(decoded) ==> {
            &&& decoded.mem_size == lines_size(decoded.fields)
            &&& decoded.mem_size <= max_size
            &&& prefix.required_ref <= table.inserted()
            &&& decoded.dyn_ref == (prefix.required_ref > 0)
        },
        stateless_spec(limit, max_size, s).0 matches Ok(decoded) ==> {
            &&& decoded.mem_size == lines_size(decoded.fields)
            &&& decoded.mem_size <= max_size
            &&& !decoded.dyn_ref
        },
{
    lemma_decoded_size(
        section_lines(table, prefix.base as int, prefix.required_ref as int, limit),
        max_size,
        0,
        s,
    );
    lemma_decoded_size(stateless_lines(limit), max_size, 0, section_prefix(0, 0, None, s).1);
}

proof fn lemma_decoded_size(
    line: spec_fn(Seq<u8>) -> (Result<FieldView, DecoderError>, Seq<u8>),
    max_size: u64,
    mem_size: int,
    s: Seq<u8>,
)
    requires
        0 <= mem_size <= max_size,
    ensures
        decode_lines(line, max_size, mem_size, s).0 matches Ok((fields, total)) ==> total
            == mem_size + lines_size(fields) && mem_size <= total <= max_size,
    decreases s.len(),
{
    assert(lines_size(Seq::<FieldView>::empty()) == 0);
    if s.len() > 0 {
        let (field, rest) = line(s);
        if let Ok(field) = field {
            let total = mem_size + field.size();
            if total <= max_size {
                if rest.len() < s.len() {
                    lemma_decoded_size(line, max_size, total, rest);
                    if let Ok((others, end)) = decode_lines(line, max_size, total, rest).0 {
                        let all = seq![field] + others;
                        assert(all.skip(1) =~= others);
                        assert(all[0] == field);
                        assert(lines_size(all) == field.size() + lines_size(others));
                    }
                } else {
                    assert(seq![field].skip(1) =~= Seq::<FieldView>::empty());
                    assert(lines_size(seq![field]) == field.size() + lines_size(
                        Seq::<FieldView>::empty(),
                    ));
                }
            }
        }
    }
}

/// Entries that can go are counted one by one, oldest first.
proof fn lemma_evictions_least(fields: Seq<FieldView>, room: int, n: int)
    requires
        0 <= n <= fields.len(),
        room >= 0,
        lines_size(fields.skip(n)) <= room,
        n > 0 ==> lines_size(fields.skip(n - 1)) > room,
    ensures
        evictions(fields, room) == n,
    decreases fields.len(),
{
    assert(fields.skip(0) =~= fields);
    if n > 0 {
        lemma_size_of_rest(fields, n - 1);
        assert(fields.skip(1).skip(n - 1) =~= fields.skip(n));
        if n > 1 {
            assert(fields.skip(1).skip(n - 2) =~= fields.skip(n - 1));
        }
        lemma_evictions_least(fields.skip(1), room, n - 1);
    }
}

/// What remains is no larger than all.
proof fn lemma_size_of_rest(fields: Seq<FieldView>, n: int)
    requires
        0 <= n <= fields.len(),
    ensures
        lines_size(fields.skip(n)) <= lines_size(fields),
    decreases n,
{
    assert(fields.skip(0) =~= fields);
    if n > 0 {
        lemma_size_of_rest(fields.skip(1), n - 1);
        assert(fields.skip(1).skip(n - 1) =~= fields.skip(n));
    }
}

/// A run of lines takes the sizes of its lines: the bytes of each name and each value, and an
/// overhead of 32 for each line.
pub proof fn sizes_add_up(fields: Seq<FieldView>, field: FieldView)
    ensures
        lines_size(Seq::<FieldView>::empty()) == 0,
        lines_size(fields.push(field)) == lines_size(fields) + field.name.len() + field.value.len()
            + 32,
{
    lemma_lines_size_push(fields, field);
}

/// An insertion goes behind the entries that are there, under the next number, and evicts the
/// oldest entries: as many as it has to, and no more. Everything else stays as it was.
pub proof fn insertions_evict_the_oldest(table: TableView, field: FieldView, n: int)
    requires
        table.max_size > 0,
        0 <= table.dropped,
        table.inserted() < usize::MAX,
        0 <= n <= table.fields.len(),
        forall|i: int| 0 <= i < n ==> !#[trigger] table.is_tracked(table.dropped + 1 + i),
        lines_size(table.fields.skip(n)) + field.name.len() + field.value.len() + 32
            <= table.max_size,
        n > 0 ==> lines_size(table.fields.skip(n - 1)) + field.name.len() + field.value.len() + 32
            > table.max_size,
    ensures
        insert_result(table, field) == Ok::<Option<usize>, super::dynamic::Error>(
            Some((table.inserted() + 1) as usize),
        ),
        ({
            let after = inserted_view(table, field);
            &&& after.fields == table.fields.skip(n).push(field)
            &&& after.dropped == table.dropped + n
            &&& after.inserted() == table.inserted() + 1
            &&& after.entry(table.inserted() + 1) == field
            &&& after.size() <= after.max_size
            &&& after.max_size == table.max_size
            &&& after.ref_counts == table.ref_counts
            &&& after.streams == table.streams
            &&& after.known_received == table.known_received
            &&& after.blocked_max == table.blocked_max
        }),
{
    lemma_lines_size_nonneg(table.fields.skip(n));
    lemma_evictions_least(table.fields, table.max_size - field.size(), n);
    lemma_lines_size_push(table.fields.skip(n), field);
}

/// An insertion that is larger than the table, or that an entry which is referred to would have
/// to make room for, does not change the table.
pub proof fn insertions_without_room_change_nothing(table: TableView, field: FieldView, n: int)
    requires
        table.max_size > 0,
        field.name.len() + field.value.len() + 32 > table.max_size || {
            &&& 0 < n <= table.fields.len()
            &&& lines_size(table.fields.skip(n - 1)) + field.name.len() + field.value.len() + 32
                > table.max_size
            &&& table.is_tracked(table.dropped + n)
        },
    ensures
        inserted_view(table, field) == table,
        field.name.len() + field.value.len() + 32 > table.max_size ==> insert_result(table, field)
            == Err::<Option<usize>, super::dynamic::Error>(
            super::dynamic::Error::MaxTableSizeReached,
        ),
        field.name.len() + field.value.len() + 32 <= table.max_size ==> insert_result(table, field)
            == Ok::<Option<usize>, super::dynamic::Error>(None),
{
    if field.size() <= table.max_size {
        let room = table.max_size - field.size();
        let k = evictions(table.fields, room) as int;
        lemma_evictions(table.fields, room);
        if k < n {
            lemma_size_of_rest(table.fields.skip(k), n - 1 - k);
            assert(table.fields.skip(k).skip(n - 1 - k) =~= table.fields.skip(n - 1));
        }
        assert(table.is_tracked(table.dropped + 1 + (n - 1)));
    }
}

/// A smaller capacity evicts the oldest entries, as many as it has to and no more; a larger one
/// evicts none.
pub proof fn capacities_evict_the_oldest(table: TableView, size: usize, n: int)
    requires
        table.size() <= table.max_size,
        0 <= n <= table.fields.len(),
        forall|i: int| 0 <= i < n ==> !#[trigger] table.is_tracked(table.dropped + 1 + i),
        lines_size(table.fields.skip(n)) <= size,
        n > 0 ==> lines_size(table.fields.skip(n - 1)) > size,
    ensures
        ({
            let after = resized(table, size);
            &&& after.max_size == size
            &&& after.fields == table.fields.skip(n)
            &&& after.dropped == table.dropped + n
            &&& after.ref_counts == table.ref_counts
            &&& after.streams == table.streams
            &&& after.known_received == table.known_received
            &&& after.blocked_max == table.blocked_max
        }),
{
    if n > 0 {
        lemma_size_of_rest(table.fields, n - 1);
    }
    assert(table.fields.skip(0) =~= table.fields);
    if size < table.max_size {
        lemma_evictions_least(table.fields, size as int, n);
    }
}

/// An instruction of the encoder stream, and how it is written. An entry of the dynamic table
/// is told by the number of its insertion.
pub enum Told {
    /// Insert a name and a value.
    Insert { name: Text, value: Text },
    /// Insert a value under the name of an entry of the static table.
    InsertStaticName { index: usize, value: Text },
    /// Insert a value under the name of an entry of the dynamic table.
    InsertDynamicName { absolute: usize, value: Text },
    /// Insert an entry again.
    Duplicate { absolute: usize },
    /// Set the capacity.
    Capacity(usize),
}

/// What is inserted, where something is.
pub open spec fn told_field(table: TableView, told: Told) -> Option<FieldView> {
    match told {
        Told::Insert { name, value } => Some(
            FieldView { name: text_value(name), value: text_value(value), sensitive: false },
        ),
        Told::InsertStaticName { index, value } => Some(
            FieldView {
                name: static_entry(index as int).name,
                value: text_value(value),
                sensitive: false,
            },
        ),
        Told::InsertDynamicName { absolute, value } => Some(
            FieldView { value: text_value(value), ..table.entry(absolute as int) },
        ),
        Told::Duplicate { absolute } => Some(table.entry(absolute as int)),
        Told::Capacity(_) => None,
    }
}

/// The bytes of an instruction.
///
/// See <https://www.rfc-editor.org/rfc/rfc9204.html#section-4.3>.
pub open spec fn told_bytes(table: TableView, told: Told) -> Seq<u8> {
    match told {
        Told::Insert { name, value } => text_bytes(6, 1, name) + text_bytes(8, 0, value),
        Told::InsertStaticName { index, value } => prefix_int::encode_spec(6, 3, index as u64)
            + text_bytes(8, 0, value),
        Told::InsertDynamicName { absolute, value } => prefix_int::encode_spec(
            6,
            2,
            (table.inserted() - absolute) as u64,
        ) + text_bytes(8, 0, value),
        Told::Duplicate { absolute } => prefix_int::encode_spec(
            5,
            0,
            (table.inserted() - absolute) as u64,
        ),
        Told::Capacity(size) => prefix_int::encode_spec(5, 1, size as u64),
    }
}

/// Whether an instruction can be read.
pub open spec fn told_readable(table: TableView, limit: usize, told: Told) -> bool {
    match told {
        Told::Insert { name, value } => text_fits(name, limit) && text_fits(value, limit),
        Told::InsertStaticName { index, value } => index < STATIC_ENTRIES && text_fits(value, limit),
        Told::InsertDynamicName { absolute, value } => table.holds(absolute as int) && text_fits(
            value,
            limit,
        ),
        Told::Duplicate { absolute } => table.holds(absolute as int),
        Told::Capacity(_) => true,
    }
}

/// An insertion is read, and its first byte tells what it is.
proof fn lemma_insert_read(name: Text, value: Text, rest: Seq<u8>, limit: usize)
    requires
        text_fits(name, limit),
        text_fits(value, limit),
    ensures
        ({
            let bytes = text_bytes(6, 1, name) + text_bytes(8, 0, value);
            let s = bytes + rest;
            &&& bytes.len() > 0
            &&& InsertView::decode_spec(s, limit) == (
                Ok::<Option<InsertView>, ParseError>(
                    Some(InsertView { name: text_value(name), value: text_value(value) }),
                ),
                rest,
            )
            &&& encoder_instruction(s[0]) == EncoderInstruction::InsertWithoutNameRef
        }),
{
    lemma2_to64();
    let tail = text_bytes(8, 0, value) + rest;
    let s = text_bytes(6, 1, name) + text_bytes(8, 0, value) + rest;
    assert(s =~= text_bytes(6, 1, name) + tail);
    texts_are_read(6, 1, name, tail, limit);
    texts_are_read(8, 0, value, rest, limit);
}

/// An insertion with a name reference is read, and its first byte tells what it is.
proof fn lemma_insert_name_ref_read(
    is_static: bool,
    index: usize,
    value: Text,
    rest: Seq<u8>,
    limit: usize,
)
    requires
        text_fits(value, limit),
    ensures
        ({
            let flags = if is_static {
                3u8
            } else {
                2u8
            };
            let bytes = prefix_int::encode_spec(6, flags, index as u64) + text_bytes(8, 0, value);
            let s = bytes + rest;
            &&& bytes.len() > 0
            &&& InsertWithNameRefView::decode_spec(s, limit) == (
                Ok::<Option<InsertWithNameRefView>, ParseError>(
                    Some(InsertWithNameRefView { is_static, index, value: text_value(value) }),
                ),
                rest,
            )
            &&& encoder_instruction(s[0]) == EncoderInstruction::InsertWithNameRef
        }),
{
    lemma2_to64();
    let flags = if is_static {
        3u8
    } else {
        2u8
    };
    let head = prefix_int::encode_spec(6, flags, index as u64);
    let tail = text_bytes(8, 0, value) + rest;
    assert(head + text_bytes(8, 0, value) + rest =~= head + tail);
    lemma_int_read(6, flags, index as u64, tail);
    texts_are_read(8, 0, value, rest, limit);
}

/// The short instructions are read, and their first bytes tell what they are.
proof fn lemma_short_read(n: usize, rest: Seq<u8>)
    ensures
        ({
            let s = prefix_int::encode_spec(5, 0, n as u64) + rest;
            &&& Duplicate::decode_spec(s) == (
                Ok::<Option<Duplicate>, ParseError>(Some(Duplicate(n))),
                rest,
            )
            &&& encoder_instruction(s[0]) == EncoderInstruction::Duplicate
        }),
        ({
            let s = prefix_int::encode_spec(5, 1, n as u64) + rest;
            &&& DynamicTableSizeUpdate::decode_spec(s) == (
                Ok::<Option<DynamicTableSizeUpdate>, ParseError>(Some(DynamicTableSizeUpdate(n))),
                rest,
            )
            &&& encoder_instruction(s[0]) == EncoderInstruction::DynamicTableSizeUpdate
        }),
        prefix_int::encode_spec(5, 0, n as u64).len() > 0,
        prefix_int::encode_spec(5, 1, n as u64).len() > 0,
{
    lemma2_to64();
    lemma_int_read(5, 0, n as u64, rest);
    lemma_int_read(5, 1, n as u64, rest);
}

/// An instruction is read as it is meant, whichever way it is written.
#[verifier::spinoff_prover]
proof fn lemma_told(table: TableView, limit: usize, told: Told, rest: Seq<u8>)
    requires
        0 <= table.dropped,
        table.inserted() <= usize::MAX,
        told_readable(table, limit, told),
    ensures
        told_bytes(table, told).len() > 0,
        instruction_spec(table, limit, told_bytes(table, told) + rest) == (
            Ok::<Option<InstructionView>, DecoderError>(
                Some(
                    match told_field(table, told) {
                        Some(field) => InstructionView::Insert(field),
                        None => InstructionView::TableSizeUpdate(told->Capacity_0),
                    },
                ),
            ),
            rest,
        ),
{
    reveal(instruction_spec);
    match told {
        Told::Insert { name, value } => lemma_insert_read(name, value, rest, limit),
        Told::InsertStaticName { index, value } => {
            lemma_insert_name_ref_read(true, index, value, rest, limit);
        },
        Told::InsertDynamicName { absolute, value } => {
            let index = (table.inserted() - absolute) as usize;
            lemma_insert_name_ref_read(false, index, value, rest, limit);
        },
        Told::Duplicate { absolute } => {
            lemma_short_read((table.inserted() - absolute) as usize, rest);
        },
        Told::Capacity(size) => lemma_short_read(size, rest),
    }
}

/// An instruction takes effect, whichever way it is written: what is inserted is the line that
/// is meant, and a capacity is the one that is meant where it is permitted. What follows is
/// followed in the table that comes of it.
pub proof fn instructions_are_followed(
    table: TableView,
    max_table_capacity: usize,
    limit: usize,
    told: Told,
    rest: Seq<u8>,
)
    requires
        0 <= table.dropped,
        table.inserted() <= usize::MAX,
        told_readable(table, limit, told),
    ensures
        ({
            let s = told_bytes(table, told) + rest;
            match told_field(table, told) {
                Some(field) => (insert_result(table, field) matches Ok(Some(_))) ==> run_spec(
                    table,
                    max_table_capacity,
                    limit,
                    s,
                ) == run_spec(inserted_view(table, field), max_table_capacity, limit, rest),
                None => if told->Capacity_0 <= max_table_capacity {
                    run_spec(table, max_table_capacity, limit, s) == run_spec(
                        resized(table, told->Capacity_0),
                        max_table_capacity,
                        limit,
                        rest,
                    )
                } else {
                    run_spec(table, max_table_capacity, limit, s).0 is Err && run_spec(
                        table,
                        max_table_capacity,
                        limit,
                        s,
                    ).1 == table
                },
            }
        }),
        ({
            let s = told_bytes(table, told) + rest;
            told_field(table, told) matches Some(field) && !(insert_result(table, field) matches Ok(
                Some(_),
            )) ==> run_spec(table, max_table_capacity, limit, s).0 is Err && run_spec(
                table,
                max_table_capacity,
                limit,
                s,
            ).1 == table
        }),
{
    lemma_told(table, limit, told, rest);
}

} // verus!
