//! Encoding of field sections, and the instructions of the decoder stream.
use vstd::prelude::*;
use crate::buf::{put_slice, Reader};
use crate::quic::{StreamId, MAX_VARINT};
use super::block::{
    prefix_of, HeaderPrefix, Indexed, IndexedWithPostBase, Literal, LiteralView, LiteralWithNameRef,
    LiteralWithPostBaseNameRef, NameRefView, PostBaseNameRefView,
};
use super::decoder::{stateless_spec, views, DecodedView, DecoderError};
use super::dynamic::encoder::{
    after_ref, counts_after, encoder_insertion, find_name_result, found_line, has_headroom, indexed,
    insertion_mapped, insertion_ref, insertion_spec, lookup_ref, lookup_spec, referred,
};
use super::dynamic::{
    acknowledge_result, acknowledged, bumped, cancel_result, canceled, count_of, inserted_view,
    lemma_inserted, lemma_lines_size_nonneg, lemma_lines_size_push, lines_size, released, resized, sent, DynamicInsertionResult,
    DynamicLookupResult, DynamicTable, DynamicTableEncoder, Error as DynamicTableError,
    SectionView, TableView,
};
use super::field::{FieldView, HeaderField};
use super::laws::stateless_round_trip;
use super::parse_error::ParseError;
use super::prefix_int::Error as IntError;
use super::prefix_string::Error as StringError;
use super::static_::{find_name_spec, find_spec, StaticTable};
use super::stream::{
    decoder_instruction, DecoderInstruction, Duplicate, DynamicTableSizeUpdate, HeaderAck,
    InsertCountIncrement, InsertView, InsertWithNameRef, InsertWithNameRefView,
    InsertWithoutNameRef, StreamCancel,
};

verus! {

#[derive(Debug, Clone, Copy, PartialEq, Eq, Structural)]
pub enum EncoderError {
    Insertion(DynamicTableError),
    InvalidString(StringError),
    InvalidInteger(IntError),
    InvalidStreamId(u64),
    MalformedDecoderInstruction,
    UnknownDecoderInstruction(u8),
}

/// How a parse error is reported.
pub open spec fn encoder_parse_error(error: ParseError) -> EncoderError {
    match error {
        ParseError::Integer(error) => EncoderError::InvalidInteger(error),
        ParseError::String(error) => EncoderError::InvalidString(error),
        ParseError::InvalidPrefix(prefix) => EncoderError::UnknownDecoderInstruction(prefix),
        ParseError::InvalidBase { .. } => EncoderError::MalformedDecoderInstruction,
        ParseError::InvalidRequiredInsertCount(_) => EncoderError::MalformedDecoderInstruction,
    }
}

impl EncoderError {
    pub fn from_parse_error(error: ParseError) -> (mapped: Self)
        ensures
            mapped == encoder_parse_error(error),
    {
        match error {
            ParseError::Integer(error) => EncoderError::InvalidInteger(error),
            ParseError::String(error) => EncoderError::InvalidString(error),
            ParseError::InvalidPrefix(prefix) => EncoderError::UnknownDecoderInstruction(prefix),
            ParseError::InvalidBase { .. } => EncoderError::MalformedDecoderInstruction,
            ParseError::InvalidRequiredInsertCount(_) => EncoderError::MalformedDecoderInstruction,
        }
    }
}

/// How a literal field line is written, with a reference to its name where there is
/// one.
pub open spec fn literal_bytes(
    name: DynamicLookupResult,
    field: FieldView,
    never_indexed: bool,
) -> Seq<u8> {
    match name {
        DynamicLookupResult::Static(index) => NameRefView {
            is_static: true,
            index,
            value: field.value,
            never_indexed,
        }.encode_spec(),
        DynamicLookupResult::Relative { index, absolute } => NameRefView {
            is_static: false,
            index,
            value: field.value,
            never_indexed,
        }.encode_spec(),
        DynamicLookupResult::PostBase { index, absolute } => PostBaseNameRefView {
            index,
            value: field.value,
            never_indexed,
        }.encode_spec(),
        DynamicLookupResult::NotFound => LiteralView {
            name: field.name,
            value: field.value,
            never_indexed,
        }.encode_spec(),
    }
}

/// How an insertion is told to the decoder.
pub open spec fn insertion_bytes(insertion: DynamicInsertionResult, field: FieldView) -> Seq<u8> {
    match insertion {
        DynamicInsertionResult::Duplicated { relative, postbase, absolute } => {
            Duplicate(relative).encode_spec()
        },
        DynamicInsertionResult::Inserted { postbase, absolute } => {
            InsertView { name: field.name, value: field.value }.encode_spec()
        },
        DynamicInsertionResult::InsertedWithStaticNameRef { postbase, index, absolute } => {
            InsertWithNameRefView { is_static: true, index, value: field.value }.encode_spec()
        },
        DynamicInsertionResult::InsertedWithNameRef { postbase, relative, absolute } => {
            InsertWithNameRefView { is_static: false, index: relative, value: field.value }.encode_spec()
        },
        DynamicInsertionResult::NotInserted(_) => Seq::empty(),
    }
}

/// What has become of a field section so far.
#[verifier::ext_equal]
pub struct SectionState {
    pub table: TableView,
    /// The references of the section.
    pub refs: Map<usize, usize>,
    /// The field lines.
    pub block: Seq<u8>,
    /// The instructions for the decoder.
    pub instructions: Seq<u8>,
    /// The number of insertions that the section requires.
    pub required: usize,
    pub error: Option<DynamicTableError>,
}

/// The section with one field line more, and a reference, if any.
pub open spec fn with_line(state: SectionState, line: Seq<u8>, reference: Option<usize>) -> SectionState {
    SectionState {
        table: after_ref(state.table, reference),
        refs: counts_after(state.refs, reference),
        block: state.block + line,
        required: match reference {
            Some(r) => if r > state.required {
                r
            } else {
                state.required
            },
            None => state.required,
        },
        ..state
    }
}

/// The section with a literal field line more.
pub open spec fn with_literal(
    state: SectionState,
    base: usize,
    allow_blocking: bool,
    field: FieldView,
    never_indexed: bool,
) -> SectionState {
    let name = find_name_result(state.table, field.name, base, allow_blocking);
    with_line(state, literal_bytes(name, field, never_indexed), lookup_ref(name))
}

/// The section with `field` inserted as number `absolute` and referred to, and with
/// what the insertion builds on referred to.
pub open spec fn with_insertion(
    state: SectionState,
    base: usize,
    field: FieldView,
    absolute: usize,
) -> SectionState {
    let inserted = inserted_view(state.table, field);
    let insertion = insertion_spec(inserted, field, base, absolute);
    let earlier = insertion_ref(inserted, field);
    SectionState {
        table: after_ref(
            referred(insertion_mapped(inserted, field, absolute), absolute),
            earlier,
        ),
        refs: counts_after(bumped(state.refs, absolute), earlier),
        block: state.block + IndexedWithPostBase((absolute - base - 1) as usize).encode_spec(),
        instructions: state.instructions + insertion_bytes(insertion, field),
        required: if absolute > state.required {
            absolute
        } else {
            state.required
        },
        error: state.error,
    }
}

/// The section after a lookup that may have counted a reference.
pub open spec fn looked_up(state: SectionState, found: DynamicLookupResult) -> SectionState {
    SectionState {
        table: after_ref(state.table, lookup_ref(found)),
        refs: counts_after(state.refs, lookup_ref(found)),
        ..state
    }
}

/// The section with `field` more.
///
/// A marked field is always a literal. Another is an index into the static table
/// where that has it, an index into the dynamic table where that had it before the
/// section, or else an insertion, or a literal where it cannot be inserted.
#[verifier::opaque]
pub open spec fn field_step(
    state: SectionState,
    base: usize,
    allow_blocking: bool,
    field: FieldView,
) -> SectionState {
    if field.sensitive {
        with_literal(state, base, allow_blocking, field, true)
    } else {
        match find_spec(field.name, field.value) {
            Some(index) => with_line(state, Indexed::Static(index).encode_spec(), None),
            None => {
                let found = lookup_spec(
                    found_line(state.table, field),
                    base,
                    state.table.known_received,
                    allow_blocking,
                );
                match found {
                    DynamicLookupResult::Relative { index, absolute } => with_line(
                        state,
                        Indexed::Dynamic(index).encode_spec(),
                        Some(absolute),
                    ),
                    _ => {
                        let state = looked_up(state, found);
                        match encoder_insertion(state.table, field, allow_blocking) {
                            Err(error) => SectionState { error: Some(error), ..state },
                            Ok(Some(absolute)) => with_insertion(state, base, field, absolute),
                            Ok(None) => with_literal(state, base, allow_blocking, field, false),
                        }
                    },
                }
            },
        }
    }
}

/// The section with all of `fields`, up to an error.
pub open spec fn fields_step(
    state: SectionState,
    base: usize,
    allow_blocking: bool,
    fields: Seq<FieldView>,
) -> SectionState
    decreases fields.len(),
{
    if fields.len() == 0 || state.error is Some {
        state
    } else {
        fields_step(
            field_step(state, base, allow_blocking, fields[0]),
            base,
            allow_blocking,
            fields.skip(1),
        )
    }
}

/// A section that starts.
pub open spec fn section_start(table: TableView) -> SectionState {
    SectionState {
        table: indexed(table),
        refs: Map::empty(),
        block: Seq::empty(),
        instructions: Seq::empty(),
        required: 0,
        error: None,
    }
}

/// Whether a section of the stream may refer to insertions that the decoder is not
/// known to have received.
pub open spec fn may_block(table: TableView, stream_id: u64) -> bool {
    table.is_blocked(stream_id) || table.blocked().len() < table.blocked_max
}

/// The section of all of `fields`.
pub open spec fn section_of(table: TableView, stream_id: u64, fields: Seq<FieldView>) -> SectionState {
    fields_step(
        section_start(table),
        table.fields.len() as usize,
        may_block(table, stream_id),
        fields,
    )
}

/// The table after a section was encoded: outstanding, or, after an error, given up.
pub open spec fn after_section(state: SectionState, stream_id: u64) -> TableView {
    if state.error is Some {
        TableView { ref_counts: released(state.table.ref_counts, state.refs), ..state.table }
    } else if state.required != 0 {
        sent(state.table, stream_id, SectionView { required: state.required, refs: state.refs })
    } else {
        state.table
    }
}

/// One count less of headroom after a reference.
proof fn lemma_headroom_ref(table: TableView, reference: Option<usize>, n: int)
    requires
        n >= 1,
        has_headroom(table, n),
    ensures
        has_headroom(after_ref(table, reference), n - 1),
{
    assert forall|r: usize| #[trigger] count_of(after_ref(table, reference).ref_counts, r) + (n - 1)
        <= usize::MAX by {
        assert(count_of(table.ref_counts, r) + n <= usize::MAX);
    }
}

/// Entries are at least as large as their overhead, so a table with entries has that
/// capacity.
proof fn lemma_capacity(table: TableView, absolute: usize)
    requires
        table.holds(absolute as int),
        0 <= table.dropped,
    ensures
        table.size() <= table.max_size ==> table.max_size >= 32,
        absolute > 0,
{
    lemma_lines_size_nonneg(table.fields);
}

/// Encodes the field sections of a connection, and follows the decoder stream of the
/// peer.
pub struct Encoder {
    pub table: DynamicTable,
    /// The largest capacity that the peer permits, which the encoding of the Required
    /// Insert Count depends on.
    pub max_table_capacity: usize,
}

impl Default for Encoder {
    fn default() -> (encoder: Self)
        ensures
            encoder.wf(),
            encoder.table@ == super::dynamic::empty_table(),
            encoder.max_table_capacity == 0,
    {
        Encoder { table: DynamicTable::new(), max_table_capacity: 0 }
    }
}

impl Encoder {
    pub open spec fn wf(&self) -> bool {
        &&& self.table.wf()
        &&& self.table.fits()
        &&& self.table@.max_size <= self.max_table_capacity
    }

    /// An encoder with a table that is filled already.
    pub fn from_table(table: DynamicTable) -> (encoder: Self)
        requires
            table.wf(),
            table.fits(),
        ensures
            encoder.wf(),
            encoder.table@ == table@,
            encoder.max_table_capacity == table@.max_size,
    {
        let max_table_capacity: usize = table.max_mem_size();
        Encoder { table, max_table_capacity }
    }

    /// Encodes one field line.
    ///
    /// The result is the insertion that the line requires.
    pub fn encode_field(
        table: &mut DynamicTableEncoder,
        block: &mut Vec<u8>,
        encoder: &mut Vec<u8>,
        field: &HeaderField,
    ) -> (result: Result<Option<usize>, EncoderError>)
        requires
            old(table).wf(),
            old(table).can_insert(),
            has_headroom(old(table).table@, 3),
        ensures
            final(table).wf(),
            final(table).continues(old(table)),
            *final(final(table).table) == *final(old(table).table),
            encoded_as(
                field_step(
                    line_start(
                        old(table).table@,
                        old(table).block_refs@,
                        old(block)@,
                        old(encoder)@,
                    ),
                    old(table).base,
                    old(table).allow_blocking,
                    field@,
                ),
                final(table).table@,
                final(table).block_refs@,
                final(block)@,
                final(encoder)@,
                result,
            ),
    {
        reveal(field_step);
        let ghost start = line_start(table.table@, table.block_refs@, block@, encoder@);
        if field.is_sensitive() {
            let result = Self::encode_sensitive_field(table, block, field);
            assert(encoder@ =~= start.instructions);
            return result;
        }
        if let Some(index) = StaticTable::find(field) {
            Indexed::Static(index).encode(block);
            return Ok(None);
        }
        proof {
            assert(has_headroom(table.table@, 1));
            table.table.vas.lemma_bounds();
        }
        let ghost before = table.table@;
        let found = table.find(field);
        proof {
            lemma_headroom_ref(before, lookup_ref(found), 3);
        }
        if let DynamicLookupResult::Relative { index, absolute } = found {
            Indexed::Dynamic(index).encode(block);
            proof {
                lemma_capacity(before, absolute);
            }
            return Ok(Some(absolute));
        }
        let ghost state = looked_up(start, found);
        let ghost middle = table.table@;
        let insertion = match table.insert(field) {
            Ok(insertion) => insertion,
            Err(error) => return Err(EncoderError::Insertion(error)),
        };
        proof {
            if let Ok(Some(absolute)) = encoder_insertion(middle, field@, table.allow_blocking) {
                lemma_inserted(middle, field@);
                table.table.vas.lemma_bounds();
                assert(table.table@.fields == inserted_view(middle, field@).fields);
                lemma_capacity(table.table@, absolute);
            }
        }
        match insertion {
            DynamicInsertionResult::Duplicated { relative, postbase, absolute } => {
                Duplicate(relative).encode(encoder);
                IndexedWithPostBase(postbase).encode(block);
                Ok(Some(absolute))
            },
            DynamicInsertionResult::Inserted { postbase, absolute } => {
                if let Err(error) = InsertWithoutNameRef::new(
                    field.name.as_slice(),
                    field.value.as_slice(),
                ).encode(encoder) {
                    return Err(EncoderError::InvalidString(error));
                }
                IndexedWithPostBase(postbase).encode(block);
                Ok(Some(absolute))
            },
            DynamicInsertionResult::InsertedWithStaticNameRef { postbase, index, absolute } => {
                if let Err(error) = InsertWithNameRef::new_static(
                    index,
                    field.value.as_slice(),
                ).encode(encoder) {
                    return Err(EncoderError::InvalidString(error));
                }
                IndexedWithPostBase(postbase).encode(block);
                Ok(Some(absolute))
            },
            DynamicInsertionResult::InsertedWithNameRef { postbase, relative, absolute } => {
                if let Err(error) = InsertWithNameRef::new_dynamic(
                    relative,
                    field.value.as_slice(),
                ).encode(encoder) {
                    return Err(EncoderError::InvalidString(error));
                }
                IndexedWithPostBase(postbase).encode(block);
                Ok(Some(absolute))
            },
            DynamicInsertionResult::NotInserted(name) => {
                proof {
                    lemma_name_capacity(
                        middle,
                        field@.name,
                        table.base,
                        table.allow_blocking,
                    );
                }
                Self::encode_literal(name, block, field, false)
            },
        }
    }

    /// Writes a literal field line, with a reference to its name where there is one.
    ///
    /// The result is the insertion that the reference requires.
    fn encode_literal(
        name: DynamicLookupResult,
        block: &mut Vec<u8>,
        field: &HeaderField,
        never_indexed: bool,
    ) -> (result: Result<Option<usize>, EncoderError>)
        ensures
            result == Ok::<Option<usize>, EncoderError>(lookup_ref(name)),
            final(block)@ == old(block)@ + literal_bytes(name, field@, never_indexed),
    {
        let value = field.value.as_slice();
        let (written, reference): (Result<(), StringError>, Option<usize>) = match name {
            DynamicLookupResult::Static(index) => {
                (LiteralWithNameRef::encode_parts(index, value, never_indexed, true, block), None)
            },
            DynamicLookupResult::Relative { index, absolute } => {
                (
                    LiteralWithNameRef::encode_parts(index, value, never_indexed, false, block),
                    Some(absolute),
                )
            },
            DynamicLookupResult::PostBase { index, absolute } => {
                let literal = LiteralWithPostBaseNameRef::new(index, value);
                if never_indexed {
                    (literal.with_never_indexed().encode(block), Some(absolute))
                } else {
                    (literal.encode(block), Some(absolute))
                }
            },
            DynamicLookupResult::NotFound => {
                (Literal::encode_parts(field.name.as_slice(), value, never_indexed, block), None)
            },
        };
        match written {
            Ok(()) => Ok(reference),
            Err(error) => Err(EncoderError::InvalidString(error)),
        }
    }

    /// Encodes a field line that may not enter a table: as a literal, marked never to
    /// be indexed. It may still refer to an entry for its name.
    ///
    /// See <https://www.rfc-editor.org/rfc/rfc9204.html#section-4.5.4>.
    pub fn encode_sensitive_field(
        table: &mut DynamicTableEncoder,
        block: &mut Vec<u8>,
        field: &HeaderField,
    ) -> (result: Result<Option<usize>, EncoderError>)
        requires
            old(table).wf(),
            has_headroom(old(table).table@, 1),
        ensures
            final(table).wf(),
            final(table).continues(old(table)),
            *final(final(table).table) == *final(old(table).table),
            encoded_as(
                with_literal(
                    line_start(
                        old(table).table@,
                        old(table).block_refs@,
                        old(block)@,
                        Seq::empty(),
                    ),
                    old(table).base,
                    old(table).allow_blocking,
                    field@,
                    true,
                ),
                final(table).table@,
                final(table).block_refs@,
                final(block)@,
                Seq::empty(),
                result,
            ),
    {
        proof {
            table.table.vas.lemma_bounds();
            lemma_name_capacity(table.table@, field@.name, table.base, table.allow_blocking);
        }
        let name = table.find_name(field.name.as_slice());
        Self::encode_literal(name, block, field, true)
    }

    /// Encodes a field section of the stream.
    ///
    /// The result is the number of insertions that the section requires. What the
    /// decoder has to be told of insertions goes to `encoder_buf`.
    pub fn encode(
        &mut self,
        stream_id: u64,
        block: &mut Vec<u8>,
        encoder_buf: &mut Vec<u8>,
        fields: &[HeaderField],
    ) -> (result: Result<usize, EncoderError>)
        requires
            old(self).wf(),
            has_headroom(old(self).table@, 3 * (fields@.len() as int)),
        ensures
            final(self).wf(),
            final(self).max_table_capacity == old(self).max_table_capacity,
            ({
                let state = section_of(old(self).table@, stream_id, views(fields@));
                &&& final(self).table@ == after_section(state, stream_id)
                &&& final(encoder_buf)@ == old(encoder_buf)@ + state.instructions
                &&& match state.error {
                    Some(error) => {
                        &&& result == Err::<usize, EncoderError>(EncoderError::Insertion(error))
                        &&& final(block)@ == old(block)@
                    },
                    None => {
                        &&& result == Ok::<usize, EncoderError>(state.required)
                        &&& final(block)@ == old(block)@ + prefix_of(
                            state.required,
                            old(self).table@.fields.len() as usize,
                            old(self).max_table_capacity,
                        ).encode_spec() + state.block
                    },
                }
            }),
    {
        let max_table_capacity: usize = self.max_table_capacity;
        let ghost start = self.table@;
        let ghost all = views(fields@);
        let ghost goal = section_of(start, stream_id, all);
        let mut required_ref: usize = 0;
        let mut block_buf: Vec<u8> = Vec::new();
        let mut encoder = self.table.encoder(stream_id);
        let ghost end = *final(encoder.table);
        let ghost base = encoder.base;
        let ghost allow = encoder.allow_blocking;
        let ghost mut state = section_start(start);
        let mut i: usize = 0;
        let mut failure: Option<EncoderError> = None;
        let ghost sent_before = encoder_buf@;
        proof {
            assert(all.skip(0) =~= all);
            assert(encoder_buf@ =~= sent_before + state.instructions);
            assert(encoder.table@.ref_counts == start.ref_counts);
            assert forall|r: usize| #[trigger] count_of(encoder.table@.ref_counts, r) + 3
                * fields@.len() <= usize::MAX by {
                assert(count_of(start.ref_counts, r) + 3 * fields@.len() <= usize::MAX);
            }
        }
        while i < fields.len() && failure.is_none()
            invariant
                i <= fields@.len(),
                all == views(fields@),
                encoder.wf(),
                encoder.fits(),
                encoder.base == base,
                encoder.allow_blocking == allow,
                encoder.stream_id == stream_id,
                !encoder.committed,
                *final(encoder.table) == end,
                base == start.fields.len(),
                allow == may_block(start, stream_id),
                goal == section_of(start, stream_id, all),
                goal == fields_step(state, base, allow, all.skip(i as int)),
                state.table == encoder.table@,
                state.refs == encoder.block_refs@,
                state.block == block_buf@,
                encoder_buf@ == sent_before + state.instructions,
                match failure {
                    Some(error) => state.error is Some && error == EncoderError::Insertion(
                        state.error->Some_0,
                    ) && goal == state,
                    None => {
                        &&& state.error is None
                        &&& state.required == required_ref
                        &&& has_headroom(encoder.table@, 3 * (fields@.len() - i))
                        &&& required_ref <= encoder.table@.inserted()
                        &&& required_ref > 0 ==> encoder.table@.max_size >= 32
                    },
                },
                encoder.table@.max_size == start.max_size,
            decreases fields@.len() - i,
        {
            let ghost before = line_start(
                encoder.table@,
                encoder.block_refs@,
                block_buf@,
                encoder_buf@,
            );
            let ghost rest = all.skip(i as int);
            let ghost next = field_step(state, base, allow, rest[0]);
            proof {
                assert(has_headroom(encoder.table@, 3)) by {
                    assert forall|r: usize| #[trigger] count_of(encoder.table@.ref_counts, r) + 3
                        <= usize::MAX by {
                        assert(count_of(encoder.table@.ref_counts, r) + 3 * (fields@.len() - i)
                            <= usize::MAX);
                    }
                }
                assert(rest[0] == fields@[i as int]@);
                assert(rest.skip(1) =~= all.skip(i + 1));
                lemma_step_frame(state, before, sent_before, base, allow, rest[0]);
                lemma_step_keeps(before, base, allow, rest[0], 3 * (fields@.len() - i));
            }
            match Self::encode_field(&mut encoder, &mut block_buf, encoder_buf, &fields[i]) {
                Ok(Some(reference)) => {
                    if reference > required_ref {
                        required_ref = reference;
                    }
                },
                Ok(None) => {},
                Err(error) => {
                    failure = Some(error);
                },
            }
            proof {
                state = next;
            }
            i = i + 1;
        }
        if let Some(error) = failure {
            encoder.close();
            return Err(error);
        }
        proof {
            assert(goal == state);
        }
        HeaderPrefix::new(
            required_ref,
            encoder.base(),
            encoder.total_inserted(),
            max_table_capacity,
        ).encode(block);
        put_slice(block, block_buf.as_slice());
        encoder.commit(required_ref);
        encoder.close();
        Ok(required_ref)
    }

    /// Sets the capacity of the table, within what the peer permits, and the number of
    /// streams that may be blocked. The decoder has to be told of the capacity.
    pub fn configure(
        &mut self,
        pending: &mut Vec<u8>,
        max_table_capacity: usize,
        capacity: usize,
        blocked: u64,
    ) -> (result: Result<(), EncoderError>)
        requires
            old(self).wf(),
            old(self).table@.max_size <= capacity <= max_table_capacity,
        ensures
            result == Ok::<(), EncoderError>(()),
            final(self).wf(),
            final(self).max_table_capacity == max_table_capacity,
            final(self).table@ == (TableView {
                max_size: capacity,
                blocked_max: blocked,
                ..old(self).table@
            }),
            final(pending)@ == old(pending)@ + DynamicTableSizeUpdate(capacity).encode_spec(),
    {
        self.max_table_capacity = max_table_capacity;
        if let Err(error) = self.table.set_max_blocked(blocked) {
            return Err(EncoderError::Insertion(error));
        }
        set_dynamic_table_size(&mut self.table, pending, capacity)
    }

    /// Whether a section that requires so many insertions may have to wait for them.
    pub fn field_section_is_blocked(&self, required_insert_count: usize) -> (blocked: bool)
        ensures
            blocked == (required_insert_count > self.table@.known_received),
    {
        required_insert_count > self.table.largest_known_received
    }

    /// Gives back every outstanding reference of the stream.
    pub fn cancel_stream(&mut self, stream_id: u64) -> (result: Result<(), EncoderError>)
        requires
            old(self).wf(),
        ensures
            final(self).wf(),
            final(self).max_table_capacity == old(self).max_table_capacity,
            match cancel_result(old(self).table@, stream_id) {
                Ok(_) => {
                    &&& result == Ok::<(), EncoderError>(())
                    &&& final(self).table@ == canceled(old(self).table@, stream_id)
                },
                Err(error) => {
                    &&& result == Err::<(), EncoderError>(EncoderError::Insertion(error))
                    &&& final(self).table@ == old(self).table@
                },
            },
    {
        match self.table.cancel_stream(stream_id) {
            Ok(()) => Ok(()),
            Err(error) => Err(EncoderError::Insertion(error)),
        }
    }

    /// Whether the decoder is known to have received every insertion.
    pub fn has_acknowledged_all_insertions(&self) -> (all: bool)
        requires
            self.wf(),
        ensures
            all == (self.table@.known_received == self.table@.inserted()),
    {
        self.table.largest_known_received == self.table.total_inserted()
    }

    /// Whether `n` more field lines can be encoded before a count of references is
    /// at its largest.
    pub fn has_room_for(&self, n: usize) -> (room: bool)
        ensures
            room == has_headroom(self.table@, 3 * n),
    {
        let needed: u128 = 3 * n as u128;
        let mut room: bool = needed <= usize::MAX as u128;
        let ghost counts = self.table@.ref_counts;
        for pair in it: self.table.track_map.iter()
            invariant
                counts == self.table@.ref_counts,
                counts == self.table.track_map@,
                needed == 3 * n,
                room ==> needed <= usize::MAX,
                room ==> forall|i: int|
                    0 <= i < it.index() ==> *(#[trigger] it.seq()[i]).1 + needed <= usize::MAX,
                !room ==> needed > usize::MAX || exists|r: usize|
                    #![trigger counts.contains_key(r)]
                    counts.contains_key(r) && counts[r] + needed > usize::MAX,
        {
            let count: usize = *pair.1;
            if count as u128 + needed > usize::MAX as u128 {
                assert(counts.contains_key(*pair.0));
                room = false;
            }
        }
        proof {
            if room {
                assert forall|r: usize| #[trigger] count_of(counts, r) + needed <= usize::MAX by {
                    if counts.contains_key(r) {
                        assert(self.table.track_map@.contains_key(r));
                    }
                }
            } else if needed > usize::MAX {
                assert(count_of(counts, 0) + needed > usize::MAX);
            } else {
                let r = choose|r: usize|
                    #![trigger counts.contains_key(r)]
                    counts.contains_key(r) && counts[r] + needed > usize::MAX;
                assert(count_of(counts, r) + needed > usize::MAX);
            }
        }
        room
    }

    /// Follows the instructions that were received on the decoder stream.
    ///
    /// An instruction that has not arrived whole is left unread.
    ///
    /// See <https://www.rfc-editor.org/rfc/rfc9204.html#section-4.4>.
    pub fn on_decoder_recv(&mut self, read: &mut Reader) -> (result: Result<(), EncoderError>)
        requires
            old(self).wf(),
        ensures
            final(self).wf(),
            final(self).max_table_capacity == old(self).max_table_capacity,
            (result, final(self).table@, final(read)@) == follow_spec(
                old(self).table@,
                old(read)@,
            ),
    {
        let ghost goal = follow_spec(self.table@, read@);
        loop
            invariant
                self.wf(),
                self.max_table_capacity == old(self).max_table_capacity,
                goal == follow_spec(old(self).table@, old(read)@),
                goal == follow_spec(self.table@, read@),
            ensures
                goal == (Ok::<(), EncoderError>(()), self.table@, read@),
            decreases read@.len(),
        {
            proof {
                if read@.len() > 0 {
                    lemma_action_consumes(read@);
                }
            }
            match Action::parse(read) {
                Ok(None) => break,
                Err(error) => return Err(error),
                Ok(Some(action)) => {
                    if let Err(error) = self.follow(action) {
                        return Err(error);
                    }
                },
            }
        }
        Ok(())
    }

    /// Does what an instruction says.
    fn follow(&mut self, action: Action) -> (result: Result<(), EncoderError>)
        requires
            old(self).wf(),
        ensures
            final(self).wf(),
            final(self).max_table_capacity == old(self).max_table_capacity,
            (result, final(self).table@) == action_spec(old(self).table@, action),
    {
        let result = match action {
            Action::Untrack(stream_id) => self.table.acknowledge_section(stream_id.into_inner()),
            Action::StreamCancel(stream_id) => self.table.cancel_stream(stream_id.into_inner()),
            Action::ReceivedRefIncrement(increment) => self.table.update_largest_received(
                increment,
            ),
        };
        match result {
            Ok(()) => Ok(()),
            Err(error) => Err(EncoderError::Insertion(error)),
        }
    }
}

/// What an instruction of the decoder stream does to the table.
#[derive(Debug, Clone, Copy, PartialEq, Eq, Structural)]
pub enum Action {
    ReceivedRefIncrement(usize),
    Untrack(StreamId),
    StreamCancel(StreamId),
}

/// The stream that an instruction names, where it can be one.
pub open spec fn stream_spec(value: u64) -> Result<StreamId, EncoderError> {
    if value <= MAX_VARINT {
        Ok(StreamId(value))
    } else {
        Err(EncoderError::InvalidStreamId(value))
    }
}

/// The instruction at the front of `s`, or nothing where it has not arrived whole.
/// With it come the bytes that are left.
pub open spec fn parse_action(s: Seq<u8>) -> (Result<Option<Action>, EncoderError>, Seq<u8>) {
    match decoder_instruction(s[0]) {
        DecoderInstruction::InsertCountIncrement => {
            let (increment, rest) = InsertCountIncrement::decode_spec(s);
            match increment {
                Err(error) => (Err(encoder_parse_error(error)), rest),
                Ok(None) => (Ok(None), rest),
                Ok(Some(increment)) => (Ok(Some(Action::ReceivedRefIncrement(increment.0))), rest),
            }
        },
        DecoderInstruction::HeaderAck => {
            let (ack, rest) = HeaderAck::decode_spec(s);
            match ack {
                Err(error) => (Err(encoder_parse_error(error)), rest),
                Ok(None) => (Ok(None), rest),
                Ok(Some(ack)) => match stream_spec(ack.0) {
                    Ok(stream_id) => (Ok(Some(Action::Untrack(stream_id))), rest),
                    Err(error) => (Err(error), rest),
                },
            }
        },
        _ => {
            let (cancel, rest) = StreamCancel::decode_spec(s);
            match cancel {
                Err(error) => (Err(encoder_parse_error(error)), rest),
                Ok(None) => (Ok(None), rest),
                Ok(Some(cancel)) => match stream_spec(cancel.0) {
                    Ok(stream_id) => (Ok(Some(Action::StreamCancel(stream_id))), rest),
                    Err(error) => (Err(error), rest),
                },
            }
        },
    }
}

/// The table after an instruction. Where the instruction is in error, the table is as
/// it was.
pub open spec fn action_spec(table: TableView, action: Action) -> (
    Result<(), EncoderError>,
    TableView,
) {
    match action {
        Action::Untrack(stream_id) => match acknowledge_result(table, stream_id.0) {
            Ok(_) => (Ok(()), acknowledged(table, stream_id.0)),
            Err(error) => (Err(EncoderError::Insertion(error)), table),
        },
        Action::StreamCancel(stream_id) => match cancel_result(table, stream_id.0) {
            Ok(_) => (Ok(()), canceled(table, stream_id.0)),
            Err(error) => (Err(EncoderError::Insertion(error)), table),
        },
        Action::ReceivedRefIncrement(increment) => if increment > 0 && table.known_received
            + increment <= table.inserted() {
            (
                Ok(()),
                TableView {
                    known_received: (table.known_received + increment) as usize,
                    ..table
                },
            )
        } else {
            (Err(EncoderError::Insertion(DynamicTableError::InvalidInsertCountIncrement)), table)
        },
    }
}

/// The table after all the instructions that have arrived whole, and the bytes that
/// are left: those of an instruction that has not, or, after an error, those that
/// were not read.
pub open spec fn follow_spec(table: TableView, s: Seq<u8>) -> (
    Result<(), EncoderError>,
    TableView,
    Seq<u8>,
)
    decreases s.len(),
{
    if s.len() == 0 {
        (Ok(()), table, s)
    } else {
        let (action, rest) = parse_action(s);
        match action {
            Err(error) => (Err(error), table, s),
            Ok(None) => (Ok(()), table, s),
            Ok(Some(action)) => {
                let (result, next) = action_spec(table, action);
                match result {
                    Err(error) => (Err(error), next, rest),
                    Ok(_) => if rest.len() < s.len() {
                        follow_spec(next, rest)
                    } else {
                        (Ok(()), next, rest)
                    },
                }
            },
        }
    }
}

/// Reading an instruction takes at least one byte.
pub(super) proof fn lemma_action_consumes(s: Seq<u8>)
    requires
        s.len() > 0,
    ensures
        parse_action(s).0 matches Ok(Some(_)) ==> parse_action(s).1.len() < s.len(),
{
    super::prefix_int::lemma_consumes(6, s);
    super::prefix_int::lemma_consumes(7, s);
}

impl Action {
    /// The stream that an instruction names, where it can be one.
    ///
    /// See <https://www.rfc-editor.org/rfc/rfc9204.html#section-4.4.1>.
    fn stream_id(value: u64) -> (id: Result<StreamId, EncoderError>)
        ensures
            id == stream_spec(value),
    {
        match StreamId::checked(value) {
            Some(stream_id) => Ok(stream_id),
            None => Err(EncoderError::InvalidStreamId(value)),
        }
    }

    /// Takes the next instruction, where it has arrived whole.
    pub fn parse(read: &mut Reader) -> (result: Result<Option<Action>, EncoderError>)
        ensures
            if old(read)@.len() == 0 {
                result == Ok::<Option<Action>, EncoderError>(None) && final(read)@ == old(read)@
            } else {
                &&& result == parse_action(old(read)@).0
                &&& final(read)@ == if result matches Ok(Some(_)) {
                    parse_action(old(read)@).1
                } else {
                    old(read)@
                }
            },
    {
        if !read.has_remaining() {
            return Ok(None);
        }
        let mut buf = read.fork();
        let instruction = Self::decode(&mut buf);
        if let Ok(Some(_)) = &instruction {
            *read = buf;
        }
        instruction
    }

    fn decode(buf: &mut Reader) -> (result: Result<Option<Action>, EncoderError>)
        requires
            old(buf)@.len() > 0,
        ensures
            (result, final(buf)@) == parse_action(old(buf)@),
    {
        let first: u8 = match buf.peek() {
            Some(first) => first,
            None => return Ok(None),
        };
        match DecoderInstruction::decode(first) {
            DecoderInstruction::Unknown => Err(EncoderError::UnknownDecoderInstruction(first)),
            DecoderInstruction::InsertCountIncrement => match InsertCountIncrement::decode(buf) {
                Ok(Some(increment)) => Ok(Some(Action::ReceivedRefIncrement(increment.0))),
                Ok(None) => Ok(None),
                Err(error) => Err(EncoderError::from_parse_error(error)),
            },
            DecoderInstruction::HeaderAck => match HeaderAck::decode(buf) {
                Ok(Some(ack)) => match Self::stream_id(ack.0) {
                    Ok(stream_id) => Ok(Some(Action::Untrack(stream_id))),
                    Err(error) => Err(error),
                },
                Ok(None) => Ok(None),
                Err(error) => Err(EncoderError::from_parse_error(error)),
            },
            DecoderInstruction::StreamCancel => match StreamCancel::decode(buf) {
                Ok(Some(cancel)) => match Self::stream_id(cancel.0) {
                    Ok(stream_id) => Ok(Some(Action::StreamCancel(stream_id))),
                    Err(error) => Err(error),
                },
                Ok(None) => Ok(None),
                Err(error) => Err(EncoderError::from_parse_error(error)),
            },
        }
    }
}

/// Sets the capacity of an encoder's table. The decoder has to be told.
pub fn set_dynamic_table_size(table: &mut DynamicTable, encoder: &mut Vec<u8>, size: usize) -> (result:
    Result<(), EncoderError>)
    requires
        old(table).wf(),
        old(table).fits() || size >= old(table)@.max_size,
    ensures
        final(table).wf(),
        result == Ok::<(), EncoderError>(()),
        final(table)@ == resized(old(table)@, size),
        final(table).fits() == (final(table)@.size() <= size),
        final(encoder)@ == old(encoder)@ + DynamicTableSizeUpdate(size).encode_spec(),
{
    if let Err(error) = table.set_max_size(size) {
        return Err(EncoderError::Insertion(error));
    }
    DynamicTableSizeUpdate(size).encode(encoder);
    Ok(())
}

/// How a field line is written without the dynamic table.
pub open spec fn stateless_bytes(field: FieldView) -> Seq<u8> {
    let name = match find_name_spec(field.name) {
        Some(index) => DynamicLookupResult::Static(index),
        None => DynamicLookupResult::NotFound,
    };
    match find_spec(field.name, field.value) {
        Some(index) => if field.sensitive {
            literal_bytes(name, field, true)
        } else {
            Indexed::Static(index).encode_spec()
        },
        None => literal_bytes(name, field, field.sensitive),
    }
}

/// How field lines are written without the dynamic table.
pub open spec fn stateless_lines_bytes(fields: Seq<FieldView>) -> Seq<u8>
    decreases fields.len(),
{
    if fields.len() == 0 {
        Seq::empty()
    } else {
        stateless_lines_bytes(fields.drop_last()) + stateless_bytes(fields.last())
    }
}

/// How a field section is written without the dynamic table.
pub open spec fn stateless_section(fields: Seq<FieldView>) -> Seq<u8> {
    prefix_of(0, 0, 0).encode_spec() + stateless_lines_bytes(fields)
}

/// Encodes a field section without references to the dynamic table.
///
/// The result is the size of the field lines, with the overhead of each. Decoding what was
/// written gives the field lines back.
///
/// See <https://www.rfc-editor.org/rfc/rfc9114.html#section-4.2.2>.
pub fn encode_stateless(block: &mut Vec<u8>, fields: &[HeaderField]) -> (result: Result<
    u64,
    EncoderError,
>)
    requires
        lines_size(views(fields@)) <= u64::MAX,
    ensures
        result == Ok::<u64, EncoderError>(lines_size(views(fields@)) as u64),
        final(block)@ == old(block)@ + stateless_section(views(fields@)),
        stateless_spec(usize::MAX, u64::MAX, stateless_section(views(fields@))) == (
            Ok::<DecodedView, DecoderError>(
                DecodedView {
                    fields: views(fields@),
                    dyn_ref: false,
                    mem_size: lines_size(views(fields@)) as u64,
                },
            ),
            Seq::<u8>::empty(),
        ),
{
    let mut size: u64 = 0;
    HeaderPrefix::new(0, 0, 0, 0).encode(block);
    let ghost all = views(fields@);
    let ghost start = block@;
    let mut i: usize = 0;
    proof {
        assert(all.take(0) =~= Seq::<FieldView>::empty());
        assert(block@ =~= start + stateless_lines_bytes(all.take(0)));
    }
    while i < fields.len()
        invariant
            i <= fields@.len(),
            all == views(fields@),
            lines_size(all) <= u64::MAX,
            size == lines_size(all.take(i as int)),
            block@ == start + stateless_lines_bytes(all.take(i as int)),
        decreases fields@.len() - i,
    {
        let field = &fields[i];
        let ghost head = all.take(i as int);
        let ghost next = all.take(i + 1);
        proof {
            assert(field@ == all[i as int]);
            assert(next =~= head.push(field@));
            assert(next.drop_last() =~= head);
            lemma_lines_size_push(head, field@);
            lemma_lines_size_prefix(all, i + 1);
        }
        if let Err(error) = encode_stateless_parts(
            block,
            field.name.as_slice(),
            field.value.as_slice(),
            field.sensitive,
        ) {
            return Err(error);
        }
        proof {
            assert(block@ =~= start + stateless_lines_bytes(next));
        }
        size = size + field.name.len() as u64 + field.value.len() as u64 + 32;
        i = i + 1;
    }
    assert(all.take(i as int) =~= all);
    assert(block@ =~= old(block)@ + stateless_section(all));
    proof {
        assert(block@.len() == block.len());
        stateless_round_trip(all, u64::MAX, usize::MAX);
    }
    Ok(size)
}

/// Writes a field line without the dynamic table.
fn encode_stateless_parts(block: &mut Vec<u8>, name: &[u8], value: &[u8], sensitive: bool) -> (result:
    Result<(), EncoderError>)
    ensures
        result == Ok::<(), EncoderError>(()),
        final(block)@ == old(block)@ + stateless_bytes(
            FieldView { name: name@, value: value@, sensitive },
        ),
{
    if !sensitive {
        if let Some(index) = StaticTable::find_parts(name, value) {
            Indexed::Static(index).encode(block);
            return Ok(());
        }
    }
    let written = match StaticTable::find_name(name) {
        Some(index) => LiteralWithNameRef::encode_parts(index, value, sensitive, true, block),
        None => Literal::encode_parts(name, value, sensitive, block),
    };
    match written {
        Ok(()) => Ok(()),
        Err(error) => Err(EncoderError::InvalidString(error)),
    }
}

/// Part of the field lines is no larger than all of them.
proof fn lemma_lines_size_prefix(fields: Seq<FieldView>, n: int)
    requires
        0 <= n <= fields.len(),
    ensures
        lines_size(fields.take(n)) <= lines_size(fields),
    decreases fields.len() - n,
{
    if n < fields.len() {
        lemma_lines_size_prefix(fields, n + 1);
        assert(fields.take(n + 1) =~= fields.take(n).push(fields[n]));
        lemma_lines_size_push(fields.take(n), fields[n]);
    } else {
        assert(fields.take(n) =~= fields);
    }
}

/// Where a field line starts in a section.
pub open spec fn line_start(
    table: TableView,
    refs: Map<usize, usize>,
    block: Seq<u8>,
    instructions: Seq<u8>,
) -> SectionState {
    SectionState { table, refs, block, instructions, required: 0, error: None }
}

/// Whether the section is as `next` says after its first field line, with the
/// insertion that the line requires as the result.
pub open spec fn encoded_as(
    next: SectionState,
    table: TableView,
    refs: Map<usize, usize>,
    block: Seq<u8>,
    instructions: Seq<u8>,
    result: Result<Option<usize>, EncoderError>,
) -> bool {
    &&& table == next.table
    &&& refs == next.refs
    &&& block == next.block
    &&& instructions == next.instructions
    &&& match result {
        Ok(reference) => {
            &&& next.error is None
            &&& next.required == match reference {
                Some(r) => r,
                None => 0,
            }
            &&& reference matches Some(r) ==> {
                &&& 0 < r <= table.inserted()
                &&& table.size() <= table.max_size ==> table.max_size >= 32
            }
        },
        Err(error) => next.error is Some && error == EncoderError::Insertion(next.error->Some_0),
    }
}

/// A name that is found in the table is the name of an entry.
proof fn lemma_name_capacity(table: TableView, name: Seq<u8>, base: usize, allow_blocking: bool)
    requires
        table.is_sound(),
        0 <= table.dropped,
    ensures
        lookup_ref(find_name_result(table, name, base, allow_blocking)) matches Some(r) ==> {
            &&& 0 < r <= table.inserted()
            &&& table.size() <= table.max_size ==> table.max_size >= 32
        },
{
    if let Some(r) = lookup_ref(find_name_result(table, name, base, allow_blocking)) {
        assert(table.names.contains_key(name));
        lemma_capacity(table, r);
    }
}

/// A step depends on what was written and required before only by appending to it.
proof fn lemma_step_frame(
    state: SectionState,
    start: SectionState,
    sent_before: Seq<u8>,
    base: usize,
    allow_blocking: bool,
    field: FieldView,
)
    requires
        state.error is None,
        start == line_start(
            state.table,
            state.refs,
            state.block,
            sent_before + state.instructions,
        ),
    ensures
        ({
            let full = field_step(state, base, allow_blocking, field);
            let line = field_step(start, base, allow_blocking, field);
            &&& full.table == line.table
            &&& full.refs == line.refs
            &&& full.block == line.block
            &&& line.instructions == sent_before + full.instructions
            &&& full.error == line.error
            &&& full.required == if line.required > state.required {
                line.required
            } else {
                state.required
            }
        }),
{
    reveal(field_step);
    let full = field_step(state, base, allow_blocking, field);
    let line = field_step(start, base, allow_blocking, field);
    assert(line.instructions =~= sent_before + full.instructions);
}

/// A step takes at most three counts of headroom, keeps the capacity, and never takes
/// back an insertion.
pub proof fn lemma_step_keeps(
    state: SectionState,
    base: usize,
    allow_blocking: bool,
    field: FieldView,
    n: int,
)
    requires
        has_headroom(state.table, n),
        n >= 3,
    ensures
        ({
            let next = field_step(state, base, allow_blocking, field);
            &&& has_headroom(next.table, n - 3)
            &&& next.table.max_size == state.table.max_size
            &&& next.table.inserted() >= state.table.inserted()
        }),
{
    reveal(field_step);
    let next = field_step(state, base, allow_blocking, field);
    let found = lookup_spec(
        found_line(state.table, field),
        base,
        state.table.known_received,
        allow_blocking,
    );
    let middle = looked_up(state, found);
    if let Ok(Some(_)) = encoder_insertion(middle.table, field, allow_blocking) {
        lemma_inserted(middle.table, field);
    }
    assert forall|r: usize| #[trigger] count_of(next.table.ref_counts, r) + (n - 3)
        <= usize::MAX by {
        assert(count_of(state.table.ref_counts, r) + n <= usize::MAX);
    }
}

} // verus!
