//! Decoding of field sections, and of the instructions of the encoder stream.
use vstd::prelude::*;
use crate::buf::{view_ok, Reader};
use super::block::{
    field_kind, HeaderBlockField, HeaderPrefix, Indexed, IndexedWithPostBase, Literal, LiteralView,
    LiteralWithNameRef, LiteralWithPostBaseNameRef, NameRefView, PostBaseNameRefView,
};
use super::dynamic::{
    insert_result, inserted_view, postbase_spec, relative_spec, resized,
    unreferenced_table_shrinks, DynamicTable, DynamicTableDecoder, Error as DynamicTableError,
    SectionView, TableView,
};
use super::field::{field_view, FieldView, HeaderField};
use super::parse_error::ParseError;
use super::static_::{static_entry, Error as StaticError, StaticTable, STATIC_ENTRIES};
use super::stream::{
    encoder_instruction, Duplicate, DynamicTableSizeUpdate, EncoderInstruction, HeaderAck,
    InsertCountIncrement, InsertView, InsertWithNameRef, InsertWithNameRefView,
    InsertWithoutNameRef, StreamCancel,
};
use super::{prefix_int, prefix_string, vas};

verus! {

#[derive(Debug, Clone, Copy, PartialEq, Eq)]
pub enum DecoderError {
    InvalidInteger(prefix_int::Error),
    InvalidString(prefix_string::Error),
    InvalidIndex(vas::Error),
    DynamicTable(DynamicTableError),
    InvalidStaticIndex(usize),
    UnknownPrefix(u8),
    MissingRefs(usize),
    BadBaseIndex { required_insert_count: usize, sign_negative: bool, delta_base: usize },
    InvalidRequiredInsertCount(usize),
    TooManyBlockedStreams,
    UnexpectedEnd,
    HeaderTooLong(u64),
    BufSize,
    Internal(&'static str),
}

/// How a parse error is reported.
pub open spec fn parse_error(error: ParseError) -> DecoderError {
    match error {
        ParseError::Integer(error) => DecoderError::InvalidInteger(error),
        ParseError::String(error) => DecoderError::InvalidString(error),
        ParseError::InvalidPrefix(prefix) => DecoderError::UnknownPrefix(prefix),
        ParseError::InvalidBase { required_insert_count, sign_negative, delta_base } => {
            DecoderError::BadBaseIndex { required_insert_count, sign_negative, delta_base }
        },
        ParseError::InvalidRequiredInsertCount(count) => {
            DecoderError::InvalidRequiredInsertCount(count)
        },
    }
}

impl DecoderError {
    /// Whether the failure is this endpoint's own, and not the peer's.
    pub fn is_internal(&self) -> (internal: bool)
        ensures
            internal == (*self is Internal),
    {
        match self {
            DecoderError::Internal(_) => true,
            _ => false,
        }
    }

    pub fn from_parse_error(error: ParseError) -> (mapped: Self)
        ensures
            mapped == parse_error(error),
    {
        match error {
            ParseError::Integer(error) => DecoderError::InvalidInteger(error),
            ParseError::String(error) => DecoderError::InvalidString(error),
            ParseError::InvalidPrefix(prefix) => DecoderError::UnknownPrefix(prefix),
            ParseError::InvalidBase { required_insert_count, sign_negative, delta_base } => {
                DecoderError::BadBaseIndex { required_insert_count, sign_negative, delta_base }
            },
            ParseError::InvalidRequiredInsertCount(count) => {
                DecoderError::InvalidRequiredInsertCount(count)
            },
        }
    }
}

/// Tells the encoder that a field section of the stream was decoded.
pub fn ack_header(stream_id: u64, decoder: &mut Vec<u8>)
    ensures
        final(decoder)@ == old(decoder)@ + HeaderAck(stream_id).encode_spec(),
{
    HeaderAck(stream_id).encode(decoder);
}

/// Tells the encoder that the stream is no longer read.
pub fn stream_canceled(stream_id: u64, decoder: &mut Vec<u8>)
    ensures
        final(decoder)@ == old(decoder)@ + StreamCancel(stream_id).encode_spec(),
{
    StreamCancel(stream_id).encode(decoder);
}

#[derive(Debug, PartialEq, Eq)]
pub struct Decoded {
    /// The decoded field lines.
    pub fields: Vec<HeaderField>,
    /// Whether the section required insertions.
    pub dyn_ref: bool,
    /// The size of the field lines.
    pub mem_size: u64,
}

/// What a field section says.
#[verifier::ext_equal]
pub struct DecodedView {
    pub fields: Seq<FieldView>,
    pub dyn_ref: bool,
    pub mem_size: u64,
}

impl View for Decoded {
    type V = DecodedView;

    open spec fn view(&self) -> DecodedView {
        DecodedView {
            fields: self.fields@.map_values(|field: HeaderField| field@),
            dyn_ref: self.dyn_ref,
            mem_size: self.mem_size,
        }
    }
}

/// The Required Insert Count and the Base of a field section, as they were when its
/// prefix arrived.
#[derive(Debug, Clone, Copy, PartialEq, Eq, Structural)]
pub struct FieldSectionPrefix {
    pub required_ref: usize,
    pub base: usize,
}

/// A number that is reported as at most the largest.
pub open spec fn saturated(n: int) -> u64 {
    if n > u64::MAX {
        u64::MAX
    } else {
        n as u64
    }
}

/// An entry of the static table.
pub open spec fn static_spec(index: usize) -> Result<FieldView, DecoderError> {
    if index < STATIC_ENTRIES {
        Ok(static_entry(index as int))
    } else {
        Err(DecoderError::InvalidStaticIndex(index))
    }
}

/// A result of the dynamic table.
pub open spec fn table_result(result: Result<FieldView, DynamicTableError>) -> Result<
    FieldView,
    DecoderError,
> {
    match result {
        Ok(field) => Ok(field),
        Err(error) => Err(DecoderError::DynamicTable(error)),
    }
}

/// A field line with the name of another.
pub open spec fn renamed(
    entry: Result<FieldView, DecoderError>,
    value: Seq<u8>,
    never_indexed: bool,
) -> Result<FieldView, DecoderError> {
    match entry {
        Ok(entry) => Ok(FieldView { name: entry.name, value, sensitive: never_indexed }),
        Err(error) => Err(error),
    }
}

/// The field line at the front of `s`, in a section that requires `required`
/// insertions and counts from `base`. With it come the bytes that are left.
#[verifier::opaque]
pub open spec fn line_spec(
    table: TableView,
    base: int,
    required: int,
    limit: usize,
    s: Seq<u8>,
) -> (Result<FieldView, DecoderError>, Seq<u8>) {
    match field_kind(s[0]) {
        HeaderBlockField::Indexed => {
            let (line, rest) = Indexed::decode_spec(s);
            match line {
                Err(error) => (Err(parse_error(error)), rest),
                Ok(Indexed::Static(index)) => (static_spec(index), rest),
                Ok(Indexed::Dynamic(index)) => (
                    table_result(relative_spec(table, base, required, index)),
                    rest,
                ),
            }
        },
        HeaderBlockField::IndexedWithPostBase => {
            let (line, rest) = IndexedWithPostBase::decode_spec(s);
            match line {
                Err(error) => (Err(parse_error(error)), rest),
                Ok(line) => (table_result(postbase_spec(table, base, required, line.0)), rest),
            }
        },
        HeaderBlockField::LiteralWithNameRef => {
            let (line, rest) = NameRefView::decode_spec(s, limit);
            match line {
                Err(error) => (Err(parse_error(error)), rest),
                Ok(line) => (
                    renamed(
                        if line.is_static {
                            static_spec(line.index)
                        } else {
                            table_result(relative_spec(table, base, required, line.index))
                        },
                        line.value,
                        line.never_indexed,
                    ),
                    rest,
                ),
            }
        },
        HeaderBlockField::LiteralWithPostBaseNameRef => {
            let (line, rest) = PostBaseNameRefView::decode_spec(s, limit);
            match line {
                Err(error) => (Err(parse_error(error)), rest),
                Ok(line) => (
                    renamed(
                        table_result(postbase_spec(table, base, required, line.index)),
                        line.value,
                        line.never_indexed,
                    ),
                    rest,
                ),
            }
        },
        _ => {
            let (line, rest) = LiteralView::decode_spec(s, limit);
            match line {
                Err(error) => (Err(parse_error(error)), rest),
                Ok(line) => (
                    Ok(
                        FieldView {
                            name: line.name,
                            value: line.value,
                            sensitive: line.never_indexed,
                        },
                    ),
                    rest,
                ),
            }
        },
    }
}

/// The field line at the front of `s`, in a section that may not refer to the
/// dynamic table. With it come the bytes that are left.
#[verifier::opaque]
pub open spec fn stateless_line_spec(limit: usize, s: Seq<u8>) -> (
    Result<FieldView, DecoderError>,
    Seq<u8>,
) {
    match field_kind(s[0]) {
        HeaderBlockField::IndexedWithPostBase => (Err(DecoderError::MissingRefs(0)), s),
        HeaderBlockField::LiteralWithPostBaseNameRef => (Err(DecoderError::MissingRefs(0)), s),
        HeaderBlockField::Indexed => {
            let (line, rest) = Indexed::decode_spec(s);
            match line {
                Err(error) => (Err(parse_error(error)), rest),
                Ok(Indexed::Static(index)) => (static_spec(index), rest),
                Ok(Indexed::Dynamic(_)) => (Err(DecoderError::MissingRefs(0)), rest),
            }
        },
        HeaderBlockField::LiteralWithNameRef => {
            let (line, rest) = NameRefView::decode_spec(s, limit);
            match line {
                Err(error) => (Err(parse_error(error)), rest),
                Ok(line) => if line.is_static {
                    (renamed(static_spec(line.index), line.value, line.never_indexed), rest)
                } else {
                    (Err(DecoderError::MissingRefs(0)), rest)
                },
            }
        },
        _ => {
            let (line, rest) = LiteralView::decode_spec(s, limit);
            match line {
                Err(error) => (Err(parse_error(error)), rest),
                Ok(line) => (
                    Ok(
                        FieldView {
                            name: line.name,
                            value: line.value,
                            sensitive: line.never_indexed,
                        },
                    ),
                    rest,
                ),
            }
        },
    }
}

/// How the field lines of a section are read.
pub open spec fn section_lines(table: TableView, base: int, required: int, limit: usize) -> spec_fn(
    Seq<u8>,
) -> (Result<FieldView, DecoderError>, Seq<u8>) {
    |s: Seq<u8>| line_spec(table, base, required, limit, s)
}

/// How the field lines of a section without dynamic references are read.
pub open spec fn stateless_lines(limit: usize) -> spec_fn(Seq<u8>) -> (
    Result<FieldView, DecoderError>,
    Seq<u8>,
) {
    |s: Seq<u8>| stateless_line_spec(limit, s)
}

/// The field lines of `s` to its end, after lines of size `mem_size`, together of at
/// most `max_size`. With them come their size and the bytes that are left.
pub open spec fn decode_lines(
    line: spec_fn(Seq<u8>) -> (Result<FieldView, DecoderError>, Seq<u8>),
    max_size: u64,
    mem_size: int,
    s: Seq<u8>,
) -> (Result<(Seq<FieldView>, int), DecoderError>, Seq<u8>)
    decreases s.len(),
{
    if s.len() == 0 {
        (Ok((Seq::empty(), mem_size)), s)
    } else {
        let (field, rest) = line(s);
        match field {
            Err(error) => (Err(error), rest),
            Ok(field) => {
                let total = mem_size + field.size();
                if total > max_size {
                    (Err(DecoderError::HeaderTooLong(saturated(total))), rest)
                } else if rest.len() < s.len() {
                    let (others, rest) = decode_lines(line, max_size, total, rest);
                    match others {
                        Err(error) => (Err(error), rest),
                        Ok((fields, total)) => (Ok((seq![field] + fields, total)), rest),
                    }
                } else {
                    (Ok((seq![field], total)), rest)
                }
            },
        }
    }
}

/// A decoded section.
pub open spec fn decoded_spec(
    lines: Result<(Seq<FieldView>, int), DecoderError>,
    dyn_ref: bool,
) -> Result<DecodedView, DecoderError> {
    match lines {
        Ok((fields, mem_size)) => Ok(
            DecodedView { fields, dyn_ref, mem_size: mem_size as u64 },
        ),
        Err(error) => Err(error),
    }
}

/// The prefix of the section at the front of `s`, unless it is known already.
pub open spec fn section_prefix(
    total_inserted: int,
    max_table_capacity: usize,
    known: Option<FieldSectionPrefix>,
    s: Seq<u8>,
) -> (Result<FieldSectionPrefix, DecoderError>, Seq<u8>) {
    match known {
        Some(prefix) => (Ok(prefix), s),
        None => {
            let (prefix, rest) = HeaderPrefix::decode_spec(s);
            match prefix {
                Err(error) => (Err(parse_error(error)), rest),
                Ok(prefix) => match prefix.get_spec(total_inserted as usize, max_table_capacity) {
                    Err(error) => (Err(parse_error(error)), rest),
                    Ok((required_ref, base)) => (Ok(FieldSectionPrefix { required_ref, base }), rest),
                },
            }
        },
    }
}

/// The field section at the front of `s`, given its prefix. With it come the bytes
/// that are left.
pub open spec fn section_spec(
    table: TableView,
    prefix: FieldSectionPrefix,
    limit: usize,
    max_size: u64,
    s: Seq<u8>,
) -> (Result<DecodedView, DecoderError>, Seq<u8>) {
    if prefix.required_ref > table.inserted() {
        (Err(DecoderError::MissingRefs(prefix.required_ref)), s)
    } else {
        let (lines, rest) = decode_lines(
            section_lines(table, prefix.base as int, prefix.required_ref as int, limit),
            max_size,
            0,
            s,
        );
        (decoded_spec(lines, prefix.required_ref > 0), rest)
    }
}

/// The field section at the front of `s`, where none of it may refer to the dynamic
/// table. With it come the bytes that are left.
pub open spec fn stateless_spec(limit: usize, max_size: u64, s: Seq<u8>) -> (
    Result<DecodedView, DecoderError>,
    Seq<u8>,
) {
    let (prefix, rest) = section_prefix(0, 0, None, s);
    match prefix {
        Err(error) => (Err(error), rest),
        Ok(_) => {
            let (lines, rest) = decode_lines(stateless_lines(limit), max_size, 0, rest);
            (decoded_spec(lines, false), rest)
        },
    }
}

/// Reading a field line takes at least one byte.
proof fn lemma_line_consumes(
    table: TableView,
    base: int,
    required: int,
    limit: usize,
    s: Seq<u8>,
)
    requires
        s.len() > 0,
    ensures
        line_spec(table, base, required, limit, s).0 is Ok ==> line_spec(
            table,
            base,
            required,
            limit,
            s,
        ).1.len() < s.len(),
        stateless_line_spec(limit, s).0 is Ok ==> stateless_line_spec(limit, s).1.len() < s.len(),
{
    reveal(line_spec);
    reveal(stateless_line_spec);
    prefix_int::lemma_consumes(6, s);
    prefix_int::lemma_consumes(4, s);
    prefix_int::lemma_consumes(3, s);
    prefix_string::lemma_consumes(4, s, limit);
    prefix_string::lemma_consumes(8, prefix_int::decode_spec(4, s).1, limit);
    prefix_string::lemma_consumes(8, prefix_int::decode_spec(3, s).1, limit);
    prefix_string::lemma_consumes(8, prefix_string::decode_limited_spec(4, s, limit).1, limit);
}

fn read_static(index: usize) -> (field: Result<HeaderField, DecoderError>)
    ensures
        view_ok(field) == static_spec(index),
{
    match StaticTable::get(index) {
        Ok(field) => Ok(field),
        Err(StaticError::Unknown(index)) => Err(DecoderError::InvalidStaticIndex(index)),
    }
}

fn read_table(entry: Result<&HeaderField, DynamicTableError>) -> (field: Result<
    HeaderField,
    DecoderError,
>)
    ensures
        view_ok(field) == table_result(crate::buf::view_ref(entry)),
{
    match entry {
        Ok(field) => Ok(field.clone()),
        Err(error) => Err(DecoderError::DynamicTable(error)),
    }
}

fn rename(entry: Result<HeaderField, DecoderError>, value: Vec<u8>, never_indexed: bool) -> (field:
    Result<HeaderField, DecoderError>)
    ensures
        view_ok(field) == renamed(view_ok(entry), value@, never_indexed),
{
    match entry {
        Ok(entry) => Ok(HeaderField { name: entry.name, value, sensitive: never_indexed }),
        Err(error) => Err(error),
    }
}

/// Adds the size of a field line, unless the sum is above `max_size`.
fn add_size(mem_size: u64, field: &HeaderField, max_size: u64) -> (result: Result<u64, DecoderError>)
    requires
        mem_size <= max_size,
    ensures
        result == if mem_size + field@.size() > max_size {
            Err::<u64, DecoderError>(DecoderError::HeaderTooLong(
                saturated(mem_size + field@.size()),
            ))
        } else {
            Ok((mem_size + field@.size()) as u64)
        },
{
    let total: u128 = mem_size as u128 + field.name.len() as u128 + field.value.len() as u128 + 32;
    if total <= max_size as u128 {
        Ok(total as u64)
    } else if total <= 0xffff_ffff_ffff_ffff {
        Err(DecoderError::HeaderTooLong(total as u64))
    } else {
        Err(DecoderError::HeaderTooLong(0xffff_ffff_ffff_ffff))
    }
}

/// Reads the field line that comes next in a section.
pub fn parse_header_field(table: &DynamicTableDecoder, buf: &mut Reader, limit: usize) -> (field:
    Result<HeaderField, DecoderError>)
    requires
        table.wf(),
        old(buf)@.len() > 0,
    ensures
        (view_ok(field), final(buf)@) == line_spec(
            table.table(),
            table.base(),
            table.required_ref(),
            limit,
            old(buf)@,
        ),
{
    reveal(line_spec);
    let first: u8 = match buf.peek() {
        Some(first) => first,
        None => return Err(DecoderError::UnexpectedEnd),
    };
    match HeaderBlockField::decode(first) {
        HeaderBlockField::Indexed => match Indexed::decode(buf) {
            Ok(Indexed::Static(index)) => read_static(index),
            Ok(Indexed::Dynamic(index)) => read_table(table.get_relative(index)),
            Err(error) => Err(DecoderError::from_parse_error(error)),
        },
        HeaderBlockField::IndexedWithPostBase => match IndexedWithPostBase::decode(buf) {
            Ok(line) => read_table(table.get_postbase(line.0)),
            Err(error) => Err(DecoderError::from_parse_error(error)),
        },
        HeaderBlockField::LiteralWithNameRef => match LiteralWithNameRef::decode_limited(
            buf,
            limit,
        ) {
            Ok(LiteralWithNameRef::Static { index, value, never_indexed }) => {
                rename(read_static(index), value, never_indexed)
            },
            Ok(LiteralWithNameRef::Dynamic { index, value, never_indexed }) => {
                rename(read_table(table.get_relative(index)), value, never_indexed)
            },
            Err(error) => Err(DecoderError::from_parse_error(error)),
        },
        HeaderBlockField::LiteralWithPostBaseNameRef => {
            match LiteralWithPostBaseNameRef::decode_limited(buf, limit) {
                Ok(line) => rename(
                    read_table(table.get_postbase(line.index)),
                    line.value,
                    line.never_indexed,
                ),
                Err(error) => Err(DecoderError::from_parse_error(error)),
            }
        },
        HeaderBlockField::Literal => match Literal::decode_limited(buf, limit) {
            Ok(line) => Ok(
                HeaderField { name: line.name, value: line.value, sensitive: line.never_indexed },
            ),
            Err(error) => Err(DecoderError::from_parse_error(error)),
        },
        HeaderBlockField::Unknown => Err(DecoderError::UnknownPrefix(first)),
    }
}

/// Reads the field line that comes next in a section without dynamic references.
fn parse_stateless_field(buf: &mut Reader, limit: usize) -> (field: Result<
    HeaderField,
    DecoderError,
>)
    requires
        old(buf)@.len() > 0,
    ensures
        (view_ok(field), final(buf)@) == stateless_line_spec(limit, old(buf)@),
{
    reveal(stateless_line_spec);
    let first: u8 = match buf.peek() {
        Some(first) => first,
        None => return Err(DecoderError::UnexpectedEnd),
    };
    match HeaderBlockField::decode(first) {
        HeaderBlockField::IndexedWithPostBase => Err(DecoderError::MissingRefs(0)),
        HeaderBlockField::LiteralWithPostBaseNameRef => Err(DecoderError::MissingRefs(0)),
        HeaderBlockField::Indexed => match Indexed::decode(buf) {
            Ok(Indexed::Static(index)) => read_static(index),
            Ok(Indexed::Dynamic(_)) => Err(DecoderError::MissingRefs(0)),
            Err(error) => Err(DecoderError::from_parse_error(error)),
        },
        HeaderBlockField::LiteralWithNameRef => match LiteralWithNameRef::decode_limited(
            buf,
            limit,
        ) {
            Ok(LiteralWithNameRef::Static { index, value, never_indexed }) => {
                rename(read_static(index), value, never_indexed)
            },
            Ok(LiteralWithNameRef::Dynamic { .. }) => Err(DecoderError::MissingRefs(0)),
            Err(error) => Err(DecoderError::from_parse_error(error)),
        },
        HeaderBlockField::Literal => match Literal::decode_limited(buf, limit) {
            Ok(line) => Ok(
                HeaderField { name: line.name, value: line.value, sensitive: line.never_indexed },
            ),
            Err(error) => Err(DecoderError::from_parse_error(error)),
        },
        HeaderBlockField::Unknown => Err(DecoderError::UnknownPrefix(first)),
    }
}

/// The views of a list of field lines.
pub open spec fn views(fields: Seq<HeaderField>) -> Seq<FieldView> {
    fields.map_values(|field: HeaderField| field@)
}

/// Decodes a field section that may not refer to the dynamic table.
pub fn decode_stateless(buf: &mut Reader, max_size: u64) -> (result: Result<Decoded, DecoderError>)
    ensures
        (view_ok(result), final(buf)@) == stateless_spec(usize::MAX, max_size, old(buf)@),
{
    decode_stateless_limited(buf, max_size, usize::MAX)
}

/// Decodes a field section that may not refer to the dynamic table, and whose
/// encoded strings are limited.
pub fn decode_stateless_limited(
    buf: &mut Reader,
    max_size: u64,
    max_encoded_string_size: usize,
) -> (result: Result<Decoded, DecoderError>)
    ensures
        (view_ok(result), final(buf)@) == stateless_spec(
            max_encoded_string_size,
            max_size,
            old(buf)@,
        ),
{
    let prefix = match HeaderPrefix::decode(buf) {
        Ok(prefix) => prefix,
        Err(error) => return Err(DecoderError::from_parse_error(error)),
    };
    if let Err(error) = prefix.get(0, 0) {
        return Err(DecoderError::from_parse_error(error));
    }
    let mut mem_size: u64 = 0;
    let mut fields: Vec<HeaderField> = Vec::new();
    let ghost lines = stateless_lines(max_encoded_string_size);
    let ghost goal = decode_lines(lines, max_size, 0, buf@);
    assert(views(fields@) =~= Seq::<FieldView>::empty());
    assert(match goal {
        (Ok((all, total)), rest) => goal == (
            Ok::<(Seq<FieldView>, int), DecoderError>((views(fields@) + all, total)),
            rest,
        ),
        _ => true,
    }) by {
        if let (Ok((all, total)), rest) = goal {
            assert(views(fields@) + all =~= all);
        }
    }
    while buf.has_remaining()
        invariant
            mem_size <= max_size,
            lines == stateless_lines(max_encoded_string_size),
            match decode_lines(lines, max_size, mem_size as int, buf@) {
                (Ok((all, total)), rest) => goal == (
                    Ok::<(Seq<FieldView>, int), DecoderError>((views(fields@) + all, total)),
                    rest,
                ),
                (Err(error), rest) => goal == (
                    Err::<(Seq<FieldView>, int), DecoderError>(error),
                    rest,
                ),
            },
            stateless_spec(max_encoded_string_size, max_size, old(buf)@) == (
                decoded_spec(goal.0, false),
                goal.1,
            ),
        decreases buf@.len(),
    {
        let ghost s = buf@;
        let ghost before = views(fields@);
        proof {
            lemma_line_consumes(
                super::dynamic::empty_table(),
                0,
                0,
                max_encoded_string_size,
                s,
            );
        }
        let field: HeaderField = match parse_stateless_field(buf, max_encoded_string_size) {
            Ok(field) => field,
            Err(error) => return Err(error),
        };
        mem_size = match add_size(mem_size, &field, max_size) {
            Ok(total) => total,
            Err(error) => return Err(error),
        };
        let ghost added = field@;
        fields.push(field);
        proof {
            assert(views(fields@) =~= before.push(added));
            if let (Ok((all, total)), rest) = decode_lines(lines, max_size, mem_size as int, buf@) {
                assert(before + (seq![added] + all) =~= views(fields@) + all);
            }
        }
    }
    assert(views(fields@) + Seq::<FieldView>::empty() =~= views(fields@));
    Ok(Decoded { fields, mem_size, dyn_ref: false })
}

/// What an instruction of the encoder stream does to the table.
#[derive(Debug, PartialEq, Eq)]
pub enum Instruction {
    Insert(HeaderField),
    TableSizeUpdate(usize),
}

/// What an instruction says.
pub enum InstructionView {
    Insert(FieldView),
    TableSizeUpdate(usize),
}

impl View for Instruction {
    type V = InstructionView;

    open spec fn view(&self) -> InstructionView {
        match self {
            Instruction::Insert(field) => InstructionView::Insert(field@),
            Instruction::TableSizeUpdate(size) => InstructionView::TableSizeUpdate(*size),
        }
    }
}

/// The entry that is `index` before the latest.
pub open spec fn latest_spec(table: TableView, index: usize) -> Result<FieldView, DecoderError> {
    if index < table.fields.len() {
        Ok(table.entry(table.inserted() - index))
    } else {
        Err(DecoderError::DynamicTable(DynamicTableError::BadRelativeIndex(index)))
    }
}

/// An insertion, where its entry was found.
pub open spec fn insertion(field: Result<FieldView, DecoderError>) -> Result<
    Option<InstructionView>,
    DecoderError,
> {
    match field {
        Ok(field) => Ok(Some(InstructionView::Insert(field))),
        Err(error) => Err(error),
    }
}

/// An entry with another value.
pub open spec fn with_value_spec(field: Result<FieldView, DecoderError>, value: Seq<u8>) -> Result<
    FieldView,
    DecoderError,
> {
    match field {
        Ok(field) => Ok(FieldView { value, ..field }),
        Err(error) => Err(error),
    }
}

/// The instruction at the front of `s`, or nothing where it has not arrived whole.
/// With it come the bytes that are left.
#[verifier::opaque]
pub open spec fn instruction_spec(table: TableView, limit: usize, s: Seq<u8>) -> (
    Result<Option<InstructionView>, DecoderError>,
    Seq<u8>,
) {
    match encoder_instruction(s[0]) {
        EncoderInstruction::DynamicTableSizeUpdate => {
            let (update, rest) = DynamicTableSizeUpdate::decode_spec(s);
            match update {
                Err(error) => (Err(parse_error(error)), rest),
                Ok(None) => (Ok(None), rest),
                Ok(Some(update)) => (Ok(Some(InstructionView::TableSizeUpdate(update.0))), rest),
            }
        },
        EncoderInstruction::InsertWithoutNameRef => {
            let (insert, rest) = InsertView::decode_spec(s, limit);
            match insert {
                Err(error) => (Err(parse_error(error)), rest),
                Ok(None) => (Ok(None), rest),
                Ok(Some(insert)) => (
                    Ok(Some(InstructionView::Insert(field_view(insert.name, insert.value)))),
                    rest,
                ),
            }
        },
        EncoderInstruction::InsertWithNameRef => {
            let (insert, rest) = InsertWithNameRefView::decode_spec(s, limit);
            match insert {
                Err(error) => (Err(parse_error(error)), rest),
                Ok(None) => (Ok(None), rest),
                Ok(Some(insert)) => (
                    insertion(
                        with_value_spec(
                            if insert.is_static {
                                static_spec(insert.index)
                            } else {
                                latest_spec(table, insert.index)
                            },
                            insert.value,
                        ),
                    ),
                    rest,
                ),
            }
        },
        _ => {
            let (duplicate, rest) = Duplicate::decode_spec(s);
            match duplicate {
                Err(error) => (Err(parse_error(error)), rest),
                Ok(None) => (Ok(None), rest),
                Ok(Some(duplicate)) => (insertion(latest_spec(table, duplicate.0)), rest),
            }
        },
    }
}

/// The table after an instruction, given the largest capacity.
///
/// Where the instruction is in error, the table is as it was.
pub open spec fn apply_spec(
    table: TableView,
    max_table_capacity: usize,
    instruction: InstructionView,
) -> (Result<(), DecoderError>, TableView) {
    match instruction {
        InstructionView::Insert(field) => (
            match insert_result(table, field) {
                Ok(Some(_)) => Ok(()),
                Ok(None) => Err(DecoderError::DynamicTable(DynamicTableError::MaxTableSizeReached)),
                Err(error) => Err(DecoderError::DynamicTable(error)),
            },
            inserted_view(table, field),
        ),
        InstructionView::TableSizeUpdate(size) => if size > max_table_capacity {
            (
                Err(DecoderError::DynamicTable(DynamicTableError::MaximumTableSizeTooLarge)),
                table,
            )
        } else {
            (Ok(()), resized(table, size))
        },
    }
}

/// The table after all the instructions that have arrived whole, and the bytes that
/// are left: those of an instruction that has not, or, after an error, those that
/// were not read.
pub open spec fn run_spec(table: TableView, max_table_capacity: usize, limit: usize, s: Seq<u8>) -> (
    Result<(), DecoderError>,
    TableView,
    Seq<u8>,
)
    decreases s.len(),
{
    if s.len() == 0 {
        (Ok(()), table, s)
    } else {
        let (instruction, rest) = instruction_spec(table, limit, s);
        match instruction {
            Err(error) => (Err(error), table, s),
            Ok(None) => (Ok(()), table, s),
            Ok(Some(instruction)) => {
                let (result, next) = apply_spec(table, max_table_capacity, instruction);
                match result {
                    Err(error) => (Err(error), next, rest),
                    Ok(()) => if rest.len() < s.len() {
                        run_spec(next, max_table_capacity, limit, rest)
                    } else {
                        (Ok(()), next, rest)
                    },
                }
            },
        }
    }
}

/// Reading an instruction takes at least one byte.
pub(super) proof fn lemma_instruction_consumes(table: TableView, limit: usize, s: Seq<u8>)
    requires
        s.len() > 0,
    ensures
        instruction_spec(table, limit, s).0 matches Ok(Some(_)) ==> instruction_spec(
            table,
            limit,
            s,
        ).1.len() < s.len(),
        instruction_spec(table, limit, s).1.len() <= s.len(),
{
    reveal(instruction_spec);
    prefix_int::lemma_consumes(5, s);
    prefix_int::lemma_consumes(6, s);
    prefix_string::lemma_consumes(6, s, limit);
    prefix_string::lemma_consumes(8, prefix_int::decode_spec(6, s).1, limit);
    prefix_string::lemma_consumes(8, prefix_string::decode_limited_spec(6, s, limit).1, limit);
}

/// Decodes the field sections and follows the encoder stream of a peer.
pub struct Decoder {
    pub table: DynamicTable,
    /// The advertised limit on the capacity; the capacity itself starts at zero.
    pub max_table_capacity: usize,
    pub max_blocked_streams: u64,
    pub max_encoded_string_size: usize,
}

impl Decoder {
    /// The table is in order, within the advertised limit, and nothing in it is
    /// referred to by a section of this endpoint.
    pub open spec fn wf(&self) -> bool {
        &&& self.table.wf()
        &&& self.table.fits()
        &&& self.table@.ref_counts == Map::<usize, usize>::empty()
        &&& self.table@.streams == Map::<u64, Seq<SectionView>>::empty()
        &&& self.table@.max_size <= self.max_table_capacity
    }

    pub fn new(max_table_capacity: u64, max_blocked_streams: u64) -> (result: Result<
        Self,
        DecoderError,
    >)
        ensures
            match result {
                Ok(decoder) => {
                    &&& max_table_capacity <= usize::MAX
                    &&& decoder.wf()
                    &&& decoder.table@ == super::dynamic::empty_table()
                    &&& decoder.max_table_capacity == max_table_capacity
                    &&& decoder.max_blocked_streams == max_blocked_streams
                    &&& decoder.max_encoded_string_size == usize::MAX
                },
                Err(error) => max_table_capacity > usize::MAX && error == DecoderError::BufSize,
            },
    {
        if max_table_capacity > usize::MAX as u64 {
            return Err(DecoderError::BufSize);
        }
        Ok(
            Decoder {
                table: DynamicTable::new(),
                max_table_capacity: max_table_capacity as usize,
                max_blocked_streams,
                max_encoded_string_size: usize::MAX,
            },
        )
    }

    /// A decoder with a table that is filled already.
    pub fn from_table(table: DynamicTable) -> (decoder: Self)
        requires
            table.wf(),
            table.fits(),
            table@.ref_counts == Map::<usize, usize>::empty(),
            table@.streams == Map::<u64, Seq<SectionView>>::empty(),
        ensures
            decoder.wf(),
            decoder.table@ == table@,
            decoder.max_table_capacity == table@.max_size,
            decoder.max_blocked_streams == 0,
            decoder.max_encoded_string_size == usize::MAX,
    {
        let max_table_capacity: usize = table.max_mem_size();
        Decoder {
            table,
            max_table_capacity,
            max_blocked_streams: 0,
            max_encoded_string_size: usize::MAX,
        }
    }

    /// Limits the encoded length of each string.
    pub fn set_max_encoded_string_size(&mut self, size: usize)
        ensures
            *final(self) == (Decoder { max_encoded_string_size: size, ..*old(self) }),
    {
        self.max_encoded_string_size = size;
    }

    pub fn max_encoded_string_size(&self) -> (size: usize)
        ensures
            size == self.max_encoded_string_size,
    {
        self.max_encoded_string_size
    }

    /// Whether the peer may use the dynamic table.
    ///
    /// See <https://www.rfc-editor.org/rfc/rfc9204.html#section-3.2.3>.
    pub fn dynamic_table_enabled(&self) -> (enabled: bool)
        ensures
            enabled == (self.max_table_capacity > 0),
    {
        self.max_table_capacity > 0
    }

    /// The advertised limit on blocked streams.
    ///
    /// See <https://www.rfc-editor.org/rfc/rfc9204.html#section-2.1.2>.
    pub fn max_blocked_streams(&self) -> (n: u64)
        ensures
            n == self.max_blocked_streams,
    {
        self.max_blocked_streams
    }

    /// Decodes a field section.
    pub fn decode_header(&self, buf: &mut Reader) -> (result: Result<Decoded, DecoderError>)
        requires
            self.wf(),
        ensures
            match section_prefix(
                self.table@.inserted(),
                self.max_table_capacity,
                None,
                old(buf)@,
            ) {
                (Ok(prefix), rest) => (view_ok(result), final(buf)@) == section_spec(
                    self.table@,
                    prefix,
                    self.max_encoded_string_size,
                    u64::MAX,
                    rest,
                ),
                (Err(error), rest) => (view_ok(result), final(buf)@) == (
                    Err::<DecodedView, DecoderError>(error),
                    rest,
                ),
            },
    {
        let mut prefix: Option<FieldSectionPrefix> = None;
        self.decode_header_limited(buf, u64::MAX, &mut prefix)
    }

    /// Decodes a field section of at most `max_size`.
    ///
    /// The Required Insert Count is reconstructed when the prefix first arrives, and
    /// kept in `prefix`: a section that has to wait for insertions is decoded again
    /// with it, from the bytes after the prefix.
    ///
    /// See <https://www.rfc-editor.org/rfc/rfc9204.html#section-4.5.1.1>.
    pub fn decode_header_limited(
        &self,
        buf: &mut Reader,
        max_size: u64,
        prefix: &mut Option<FieldSectionPrefix>,
    ) -> (result: Result<Decoded, DecoderError>)
        requires
            self.wf(),
        ensures
            match section_prefix(
                self.table@.inserted(),
                self.max_table_capacity,
                *old(prefix),
                old(buf)@,
            ) {
                (Ok(found), rest) => {
                    &&& *final(prefix) == Some(found)
                    &&& (view_ok(result), final(buf)@) == section_spec(
                        self.table@,
                        found,
                        self.max_encoded_string_size,
                        max_size,
                        rest,
                    )
                },
                (Err(error), rest) => {
                    &&& *final(prefix) == *old(prefix)
                    &&& (view_ok(result), final(buf)@) == (
                        Err::<DecodedView, DecoderError>(error),
                        rest,
                    )
                },
            },
    {
        let total_inserted: usize = self.table.total_inserted();
        let found: FieldSectionPrefix = match *prefix {
            Some(found) => found,
            None => match HeaderPrefix::decode(buf) {
                Err(error) => return Err(DecoderError::from_parse_error(error)),
                Ok(encoded) => match encoded.get(total_inserted, self.max_table_capacity) {
                    Err(error) => return Err(DecoderError::from_parse_error(error)),
                    Ok((required_ref, base)) => FieldSectionPrefix { required_ref, base },
                },
            },
        };
        *prefix = Some(found);
        if found.required_ref > total_inserted {
            return Err(DecoderError::MissingRefs(found.required_ref));
        }
        let decoder_table = self.table.decoder(found.base, found.required_ref);
        let limit: usize = self.max_encoded_string_size;
        let mut mem_size: u64 = 0;
        let mut fields: Vec<HeaderField> = Vec::new();
        let ghost lines = section_lines(
            self.table@,
            found.base as int,
            found.required_ref as int,
            limit,
        );
        let ghost start = buf@;
        let ghost goal = decode_lines(lines, max_size, 0, start);
        proof {
            if let (Ok((all, total)), rest) = goal {
                assert(views(fields@) + all =~= all);
            }
        }
        while buf.has_remaining()
            invariant
                mem_size <= max_size,
                self.wf(),
                limit == self.max_encoded_string_size,
                found.required_ref <= self.table@.inserted(),
                decoder_table.wf(),
                decoder_table.table() == self.table@,
                decoder_table.base() == found.base,
                decoder_table.required_ref() == found.required_ref,
                lines == section_lines(
                    self.table@,
                    found.base as int,
                    found.required_ref as int,
                    limit,
                ),
                goal == decode_lines(lines, max_size, 0, start),
                *prefix == Some(found),
                section_prefix(
                    self.table@.inserted(),
                    self.max_table_capacity,
                    *old(prefix),
                    old(buf)@,
                ) == (Ok::<FieldSectionPrefix, DecoderError>(found), start),
                match decode_lines(lines, max_size, mem_size as int, buf@) {
                    (Ok((all, total)), rest) => goal == (
                        Ok::<(Seq<FieldView>, int), DecoderError>((views(fields@) + all, total)),
                        rest,
                    ),
                    (Err(error), rest) => goal == (
                        Err::<(Seq<FieldView>, int), DecoderError>(error),
                        rest,
                    ),
                },
            decreases buf@.len(),
        {
            let ghost s = buf@;
            let ghost before = views(fields@);
            proof {
                lemma_line_consumes(
                    self.table@,
                    found.base as int,
                    found.required_ref as int,
                    limit,
                    s,
                );
            }
            let field: HeaderField = match parse_header_field(&decoder_table, buf, limit) {
                Ok(field) => field,
                Err(error) => return Err(error),
            };
            mem_size = match add_size(mem_size, &field, max_size) {
                Ok(total) => total,
                Err(error) => return Err(error),
            };
            let ghost added = field@;
            fields.push(field);
            proof {
                assert(views(fields@) =~= before.push(added));
                if let (Ok((all, total)), rest) = decode_lines(
                    lines,
                    max_size,
                    mem_size as int,
                    buf@,
                ) {
                    assert(before + (seq![added] + all) =~= views(fields@) + all);
                }
            }
        }
        assert(views(fields@) + Seq::<FieldView>::empty() =~= views(fields@));
        Ok(Decoded { fields, mem_size, dyn_ref: found.required_ref > 0 })
    }

    /// Follows the instructions that were received on the encoder stream, and tells
    /// the encoder how many insertions they made.
    ///
    /// An instruction that has not arrived whole is left unread.
    ///
    /// See <https://www.rfc-editor.org/rfc/rfc9204.html#section-4.3>.
    pub fn on_encoder_recv(&mut self, read: &mut Reader, write: &mut Vec<u8>) -> (result: Result<
        usize,
        DecoderError,
    >)
        requires
            old(self).wf(),
        ensures
            final(self).wf(),
            final(self).max_table_capacity == old(self).max_table_capacity,
            final(self).max_blocked_streams == old(self).max_blocked_streams,
            final(self).max_encoded_string_size == old(self).max_encoded_string_size,
            ({
                let (outcome, table, rest) = run_spec(
                    old(self).table@,
                    old(self).max_table_capacity,
                    old(self).max_encoded_string_size,
                    old(read)@,
                );
                &&& final(self).table@ == table
                &&& final(read)@ == rest
                &&& match outcome {
                    Ok(_) => {
                        &&& result == Ok::<usize, DecoderError>(table.inserted() as usize)
                        &&& final(write)@ == old(write)@ + if table.inserted() != old(self).table@.inserted() {
                            InsertCountIncrement(
                                (table.inserted() - old(self).table@.inserted()) as usize,
                            ).encode_spec()
                        } else {
                            Seq::<u8>::empty()
                        }
                    },
                    Err(error) => {
                        &&& result == Err::<usize, DecoderError>(error)
                        &&& final(write)@ == old(write)@
                    },
                }
            }),
    {
        let inserted_on_start: usize = self.table.total_inserted();
        let ghost goal = run_spec(
            self.table@,
            self.max_table_capacity,
            self.max_encoded_string_size,
            read@,
        );
        loop
            invariant
                self.wf(),
                self.max_table_capacity == old(self).max_table_capacity,
                self.max_blocked_streams == old(self).max_blocked_streams,
                self.max_encoded_string_size == old(self).max_encoded_string_size,
                inserted_on_start == old(self).table@.inserted(),
                self.table@.inserted() >= inserted_on_start,
                write@ == old(write)@,
                goal == run_spec(
                    old(self).table@,
                    old(self).max_table_capacity,
                    old(self).max_encoded_string_size,
                    old(read)@,
                ),
                goal == run_spec(
                    self.table@,
                    self.max_table_capacity,
                    self.max_encoded_string_size,
                    read@,
                ),
            ensures
                goal == (Ok::<(), DecoderError>(()), self.table@, read@),
            decreases read@.len(),
        {
            proof {
                if read@.len() > 0 {
                    lemma_instruction_consumes(self.table@, self.max_encoded_string_size, read@);
                }
            }
            match self.parse_instruction(read) {
                Ok(None) => break,
                Err(error) => return Err(error),
                Ok(Some(instruction)) => {
                    if let Err(error) = self.apply(instruction) {
                        return Err(error);
                    }
                },
            }
        }
        let total: usize = self.table.total_inserted();
        if total != inserted_on_start {
            InsertCountIncrement(total - inserted_on_start).encode(write);
        } else {
            assert(write@ =~= old(write)@ + Seq::<u8>::empty());
        }
        Ok(total)
    }

    /// Does what an instruction says.
    fn apply(&mut self, instruction: Instruction) -> (result: Result<(), DecoderError>)
        requires
            old(self).wf(),
        ensures
            final(self).wf(),
            *final(self) == (Decoder { table: final(self).table, ..*old(self) }),
            (result, final(self).table@) == apply_spec(
                old(self).table@,
                old(self).max_table_capacity,
                instruction@,
            ),
            final(self).table@.inserted() >= old(self).table@.inserted(),
    {
        match instruction {
            Instruction::Insert(field) => {
                proof {
                    if insert_result(self.table@, field@) matches Ok(Some(_)) {
                        super::dynamic::lemma_inserted(self.table@, field@);
                    }
                }
                match self.table.put_decoder(field) {
                    Ok(()) => Ok(()),
                    Err(error) => Err(DecoderError::DynamicTable(error)),
                }
            },
            Instruction::TableSizeUpdate(size) => {
                if size > self.max_table_capacity {
                    return Err(
                        DecoderError::DynamicTable(DynamicTableError::MaximumTableSizeTooLarge),
                    );
                }
                proof {
                    unreferenced_table_shrinks(self.table@, size);
                    super::dynamic::lemma_resized(self.table@, size);
                }
                match self.table.set_max_size(size) {
                    Ok(()) => Ok(()),
                    Err(error) => Err(DecoderError::DynamicTable(error)),
                }
            },
        }
    }

    /// Takes the next instruction, where it has arrived whole.
    pub fn parse_instruction(&self, read: &mut Reader) -> (result: Result<
        Option<Instruction>,
        DecoderError,
    >)
        requires
            self.wf(),
        ensures
            if old(read)@.len() == 0 {
                result == Ok::<Option<Instruction>, DecoderError>(None) && final(read)@ == old(read)@
            } else {
                let (instruction, rest) = instruction_spec(
                    self.table@,
                    self.max_encoded_string_size,
                    old(read)@,
                );
                &&& super::stream::view_some(result) == instruction
                &&& final(read)@ == if instruction matches Ok(Some(_)) {
                    rest
                } else {
                    old(read)@
                }
            },
    {
        if !read.has_remaining() {
            return Ok(None);
        }
        let mut buf = read.fork();
        let instruction = self.decode_instruction(&mut buf);
        if let Ok(Some(_)) = &instruction {
            *read = buf;
        }
        instruction
    }

    fn decode_instruction(&self, buf: &mut Reader) -> (result: Result<
        Option<Instruction>,
        DecoderError,
    >)
        requires
            self.wf(),
            old(buf)@.len() > 0,
        ensures
            (super::stream::view_some(result), final(buf)@) == instruction_spec(
                self.table@,
                self.max_encoded_string_size,
                old(buf)@,
            ),
    {
        reveal(instruction_spec);
        let limit: usize = self.max_encoded_string_size;
        let first: u8 = match buf.peek() {
            Some(first) => first,
            None => return Err(DecoderError::UnexpectedEnd),
        };
        match EncoderInstruction::decode(first) {
            EncoderInstruction::Unknown => Err(DecoderError::UnknownPrefix(first)),
            EncoderInstruction::DynamicTableSizeUpdate => match DynamicTableSizeUpdate::decode(
                buf,
            ) {
                Ok(Some(update)) => Ok(Some(Instruction::TableSizeUpdate(update.0))),
                Ok(None) => Ok(None),
                Err(error) => Err(DecoderError::from_parse_error(error)),
            },
            EncoderInstruction::InsertWithoutNameRef => match InsertWithoutNameRef::decode_limited(
                buf,
                limit,
            ) {
                Ok(Some(insert)) => Ok(
                    Some(
                        Instruction::Insert(
                            HeaderField { name: insert.name, value: insert.value, sensitive: false },
                        ),
                    ),
                ),
                Ok(None) => Ok(None),
                Err(error) => Err(DecoderError::from_parse_error(error)),
            },
            EncoderInstruction::Duplicate => match Duplicate::decode(buf) {
                Ok(Some(duplicate)) => match self.table.get_relative(duplicate.0) {
                    Ok(field) => Ok(Some(Instruction::Insert(field.clone()))),
                    Err(error) => Err(DecoderError::DynamicTable(error)),
                },
                Ok(None) => Ok(None),
                Err(error) => Err(DecoderError::from_parse_error(error)),
            },
            EncoderInstruction::InsertWithNameRef => match InsertWithNameRef::decode_limited(
                buf,
                limit,
            ) {
                Ok(Some(InsertWithNameRef::Static { index, value })) => match read_static(index) {
                    Ok(field) => Ok(Some(Instruction::Insert(field.with_value(value.as_slice())))),
                    Err(error) => Err(error),
                },
                Ok(Some(InsertWithNameRef::Dynamic { index, value })) => {
                    match self.table.get_relative(index) {
                        Ok(field) => Ok(
                            Some(Instruction::Insert(field.with_value(value.as_slice()))),
                        ),
                        Err(error) => Err(DecoderError::DynamicTable(error)),
                    }
                },
                Ok(None) => Ok(None),
                Err(error) => Err(DecoderError::from_parse_error(error)),
            },
        }
    }
}

} // verus!
