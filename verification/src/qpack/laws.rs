//! What a decoder makes of what an encoder wrote.
use vstd::prelude::*;
use super::block::{
    empty_prefix_round_trip, encodable, indexed_round_trip, indexed_with_post_base_round_trip,
    literal_round_trip, literal_with_name_ref_round_trip,
    literal_with_post_base_name_ref_round_trip, prefix_bytes_round_trip, prefix_of,
    prefix_round_trip, Indexed, IndexedWithPostBase, LiteralView, NameRefView,
    PostBaseNameRefView,
};
use super::decoder::{
    decode_lines, instruction_spec, latest_spec, line_spec, run_spec, section_lines,
    section_prefix, section_spec, stateless_line_spec, stateless_lines, stateless_spec,
    static_spec, table_result, with_value_spec, DecodedView, DecoderError, InstructionView,
};
use super::dynamic::encoder::{
    after_ref, encoder_insertion, find_name_result, found_line, found_name, has_headroom,
    indexed, insertion_mapped, insertion_ref, insertion_spec, lemma_mapped, lookup_ref, lookup_spec,
    referred,
};
use super::dynamic::{
    count_of, evictions, insert_result, inserted_view, latest_lines, latest_names,
    lemma_evictions, lemma_inserted, lemma_latest_bounds, lemma_lines_size_nonneg,
    lemma_lines_size_push, line_key, lines_size, postbase_spec, relative_spec,
    DynamicInsertionResult, DynamicLookupResult, TableView,
};
use super::encoder::{
    action_spec, after_section, field_step, fields_step, follow_spec, insertion_bytes,
    lemma_step_keeps, literal_bytes, looked_up, may_block, parse_action, section_of,
    section_start, stateless_bytes, stateless_lines_bytes, stateless_section, SectionState,
};
use super::field::FieldView;
use super::static_::{find_name_spec, find_spec, lemma_static_found, static_entry};
use super::stream::{
    duplicate_round_trip, insert_with_name_ref_round_trip, insert_without_name_ref_round_trip,
    Duplicate, InsertView, InsertWithNameRefView,
};

verus! {

/// Whether a field line can be encoded.
pub open spec fn line_encodable(field: FieldView, limit: usize) -> bool {
    encodable(field.name, limit) && encodable(field.value, limit)
}

/// Whether all field lines can be encoded.
pub open spec fn lines_encodable(fields: Seq<FieldView>, limit: usize) -> bool {
    forall|i: int| 0 <= i < fields.len() ==> line_encodable(#[trigger] fields[i], limit)
}

proof fn lemma_lines_encodable_rest(fields: Seq<FieldView>, limit: usize)
    requires
        fields.len() > 0,
        lines_encodable(fields, limit),
    ensures
        line_encodable(fields[0], limit),
        lines_encodable(fields.skip(1), limit),
{
    assert forall|i: int| 0 <= i < fields.skip(1).len() implies line_encodable(
        #[trigger] fields.skip(1)[i],
        limit,
    ) by {
        assert(fields.skip(1)[i] == fields[i + 1]);
    }
}

/// The strings of a literal take no more than the literal does.
proof fn lemma_literal_within(name: DynamicLookupResult, field: FieldView, never_indexed: bool, limit: usize)
    requires
        literal_bytes(name, field, never_indexed).len() <= limit,
    ensures
        encodable(field.value, limit),
        name is NotFound ==> encodable(field.name, limit),
{
}

/// The strings of an insertion take no more than its instruction does.
proof fn lemma_insertion_within(insertion: DynamicInsertionResult, field: FieldView, limit: usize)
    requires
        insertion_bytes(insertion, field).len() <= limit,
    ensures
        insertion is Inserted ==> encodable(field.name, limit),
        insertion is Inserted || insertion is InsertedWithStaticNameRef
            || insertion is InsertedWithNameRef ==> encodable(field.value, limit),
{
}

/// A field line that was written without the dynamic table is read as it was.
proof fn lemma_stateless_line(field: FieldView, rest: Seq<u8>, limit: usize)
    requires
        line_encodable(field, limit) || stateless_bytes(field).len() <= limit,
    ensures
        stateless_bytes(field).len() > 0,
        stateless_line_spec(limit, stateless_bytes(field) + rest) == (
            Ok::<FieldView, DecoderError>(field),
            rest,
        ),
{
    reveal(stateless_line_spec);
    lemma_static_found(field.name, field.value);
    if find_spec(field.name, field.value) is None || field.sensitive {
        if !line_encodable(field, limit) {
            let name = match find_name_spec(field.name) {
                Some(index) => DynamicLookupResult::Static(index),
                None => DynamicLookupResult::NotFound,
            };
            lemma_literal_within(name, field, field.sensitive, limit);
        }
    }
    match find_spec(field.name, field.value) {
        Some(index) if !field.sensitive => {
            indexed_round_trip(Indexed::Static(index), rest);
            assert(static_entry(index as int) =~= field);
        },
        _ => match find_name_spec(field.name) {
            Some(index) => {
                literal_with_name_ref_round_trip(
                    NameRefView {
                        is_static: true,
                        index,
                        value: field.value,
                        never_indexed: field.sensitive,
                    },
                    rest,
                    limit,
                );
            },
            None => {
                literal_round_trip(
                    LiteralView {
                        name: field.name,
                        value: field.value,
                        never_indexed: field.sensitive,
                    },
                    rest,
                    limit,
                );
            },
        },
    }
}

/// The first of the field lines comes first.
proof fn lemma_stateless_lines_front(fields: Seq<FieldView>)
    requires
        fields.len() > 0,
    ensures
        stateless_lines_bytes(fields) == stateless_bytes(fields[0]) + stateless_lines_bytes(
            fields.skip(1),
        ),
    decreases fields.len(),
{
    if fields.len() == 1 {
        assert(fields.drop_last() =~= Seq::<FieldView>::empty());
        assert(fields.skip(1) =~= Seq::<FieldView>::empty());
        assert(stateless_lines_bytes(fields) =~= stateless_bytes(fields[0])
            + stateless_lines_bytes(fields.skip(1)));
    } else {
        lemma_stateless_lines_front(fields.drop_last());
        assert(fields.drop_last().skip(1) =~= fields.skip(1).drop_last());
        assert(stateless_lines_bytes(fields) =~= stateless_bytes(fields[0])
            + stateless_lines_bytes(fields.skip(1)));
    }
}

proof fn lemma_stateless_lines(fields: Seq<FieldView>, max_size: u64, mem_size: int, limit: usize)
    requires
        lines_encodable(fields, limit) || stateless_lines_bytes(fields).len() <= limit,
        0 <= mem_size,
        mem_size + lines_size(fields) <= max_size,
    ensures
        decode_lines(
            stateless_lines(limit),
            max_size,
            mem_size,
            stateless_lines_bytes(fields),
        ) == (
            Ok::<(Seq<FieldView>, int), DecoderError>((fields, mem_size + lines_size(fields))),
            Seq::<u8>::empty(),
        ),
    decreases fields.len(),
{
    let bytes = stateless_lines_bytes(fields);
    if fields.len() == 0 {
        assert(bytes =~= Seq::<u8>::empty());
        assert(fields =~= Seq::<FieldView>::empty());
    } else {
        let rest = stateless_lines_bytes(fields.skip(1));
        lemma_stateless_lines_front(fields);
        if lines_encodable(fields, limit) {
            lemma_lines_encodable_rest(fields, limit);
        }
        lemma_stateless_line(fields[0], rest, limit);
        lemma_lines_size_nonneg(fields.skip(1));
        lemma_stateless_lines(fields.skip(1), max_size, mem_size + fields[0].size(), limit);
        assert(seq![fields[0]] + fields.skip(1) =~= fields);
    }
}

/// A field section that was encoded without the dynamic table is decoded to the field
/// lines that it was made of, marked as they were, in the same order.
///
/// The decoder's limit on encoded strings has to admit every line, which it does where it
/// admits all that was written.
pub proof fn stateless_round_trip(fields: Seq<FieldView>, max_size: u64, limit: usize)
    requires
        lines_encodable(fields, limit) || stateless_section(fields).len() <= limit,
        lines_size(fields) <= max_size,
    ensures
        stateless_spec(limit, max_size, stateless_section(fields)) == (
            Ok::<DecodedView, DecoderError>(
                DecodedView { fields, dyn_ref: false, mem_size: lines_size(fields) as u64 },
            ),
            Seq::<u8>::empty(),
        ),
{
    let lines = stateless_lines_bytes(fields);
    prefix_bytes_round_trip(prefix_of(0, 0, 0), lines);
    lemma_stateless_lines(fields, max_size, 0, limit);
    lemma_lines_size_nonneg(fields);
}

/// Whether a decoder's table holds what an encoder's table holds.
pub open spec fn in_step(encoder: TableView, decoder: TableView) -> bool {
    &&& decoder.fields == encoder.fields
    &&& decoder.dropped == encoder.dropped
    &&& decoder.max_size == encoder.max_size
    &&& decoder.ref_counts == Map::<usize, usize>::empty()
}

/// Whether an encoder's table is one that a section can be encoded against: in order,
/// every entry known by its latest insertion, and none marked.
pub open spec fn encoder_ready(table: TableView, base: usize) -> bool {
    &&& 0 <= table.dropped
    &&& table.inserted() <= usize::MAX
    &&& base <= table.inserted()
    &&& table.size() <= table.max_size
    &&& table.lines == latest_lines(table.fields, table.dropped)
    &&& forall|name: Seq<u8>|
        find_name_spec(name) is None ==> #[trigger] found_name(table, name) == found_name(
            indexed(table),
            name,
        )
    &&& forall|i: int| 0 <= i < table.fields.len() ==> !(#[trigger] table.fields[i]).sensitive
}

/// Where the latest entry with the name and value of `field` is found.
spec fn line_lookup(state: SectionState, base: usize, allow: bool, field: FieldView) -> DynamicLookupResult {
    lookup_spec(found_line(state.table, field), base, state.table.known_received, allow)
}

/// Whether `field` is encoded as an index into a table, and not as an insertion or a
/// literal.
spec fn is_index(state: SectionState, base: usize, allow: bool, field: FieldView) -> bool {
    !field.sensitive && (find_spec(field.name, field.value) is Some || line_lookup(
        state,
        base,
        allow,
        field,
    ) is Relative)
}

/// The section where `field` is inserted or written as a literal.
spec fn before_literal(state: SectionState, base: usize, allow: bool, field: FieldView) -> SectionState {
    if field.sensitive {
        state
    } else {
        looked_up(state, line_lookup(state, base, allow, field))
    }
}

/// The number that `field` is inserted as.
spec fn step_insertion(state: SectionState, base: usize, allow: bool, field: FieldView) -> Option<usize> {
    if field.sensitive || is_index(state, base, allow, field) {
        None
    } else {
        match encoder_insertion(before_literal(state, base, allow, field).table, field, allow) {
            Ok(Some(absolute)) => Some(absolute),
            _ => None,
        }
    }
}

/// Where the name of a literal is found.
spec fn step_name(state: SectionState, base: usize, allow: bool, field: FieldView) -> DynamicLookupResult {
    find_name_result(before_literal(state, base, allow, field).table, field.name, base, allow)
}

/// The field line that a step writes.
#[verifier::opaque]
spec fn step_line(state: SectionState, base: usize, allow: bool, field: FieldView) -> Seq<u8> {
    match step_insertion(state, base, allow, field) {
        Some(absolute) => IndexedWithPostBase((absolute - base - 1) as usize).encode_spec(),
        None => if is_index(state, base, allow, field) {
            match find_spec(field.name, field.value) {
                Some(index) => Indexed::Static(index).encode_spec(),
                None => Indexed::Dynamic(
                    line_lookup(state, base, allow, field)->Relative_index,
                ).encode_spec(),
            }
        } else {
            literal_bytes(step_name(state, base, allow, field), field, field.sensitive)
        },
    }
}

/// The instruction that a step gives the decoder.
#[verifier::opaque]
spec fn step_instruction(state: SectionState, base: usize, allow: bool, field: FieldView) -> Seq<u8> {
    match step_insertion(state, base, allow, field) {
        Some(absolute) => insertion_bytes(
            insertion_spec(
                inserted_view(before_literal(state, base, allow, field).table, field),
                field,
                base,
                absolute,
            ),
            field,
        ),
        None => Seq::empty(),
    }
}

/// The insertion that a step's field line refers to.
#[verifier::opaque]
spec fn step_ref(state: SectionState, base: usize, allow: bool, field: FieldView) -> Option<usize> {
    match step_insertion(state, base, allow, field) {
        Some(absolute) => Some(absolute),
        None => if is_index(state, base, allow, field) {
            match find_spec(field.name, field.value) {
                Some(index) => None,
                None => lookup_ref(line_lookup(state, base, allow, field)),
            }
        } else {
            lookup_ref(step_name(state, base, allow, field))
        },
    }
}

/// A step appends its field line and its instruction, and raises what is required to
/// its reference.
proof fn lemma_step_shape(state: SectionState, base: usize, allow: bool, field: FieldView)
    requires
        state.error is None,
        field_step(state, base, allow, field).error is None,
    ensures
        ({
            let next = field_step(state, base, allow, field);
            &&& next.block == state.block + step_line(state, base, allow, field)
            &&& next.instructions == state.instructions + step_instruction(
                state,
                base,
                allow,
                field,
            )
            &&& next.required >= state.required
            &&& step_ref(state, base, allow, field) matches Some(r) ==> next.required >= r
            &&& next.required == state.required || step_ref(state, base, allow, field) == Some(
                next.required,
            )
        }),
{
    reveal(step_line);
    reveal(step_instruction);
    reveal(step_ref);
    reveal(field_step);
    let next = field_step(state, base, allow, field);
    assert(next.instructions =~= state.instructions + step_instruction(state, base, allow, field));
}

/// What an insertion leaves fits the capacity, is unmarked where it was, and is what
/// the table held that was not evicted.
proof fn lemma_insertion_kept(table: TableView, field: FieldView)
    requires
        insert_result(table, field) matches Ok(Some(_)),
    ensures
        ({
            let new = inserted_view(table, field);
            let n = evictions(table.fields, table.max_size - field.size()) as int;
            &&& n <= table.fields.len()
            &&& new.dropped == table.dropped + n
            &&& new.size() <= new.max_size
            &&& new.max_size == table.max_size
            &&& new.inserted() == table.inserted() + 1
            &&& new.entry(table.inserted() + 1) == field
            &&& forall|a: int|
                new.dropped < a <= table.inserted() ==> #[trigger] new.entry(a) == table.entry(a)
            &&& forall|a: int| #[trigger]
                table.is_tracked(a) && table.holds(a) ==> a > table.dropped + n
        }),
{
    let n = evictions(table.fields, table.max_size - field.size()) as int;
    let new = inserted_view(table, field);
    lemma_evictions(table.fields, table.max_size - field.size());
    lemma_lines_size_push(table.fields.skip(n), field);
    assert forall|a: int| #[trigger] table.is_tracked(a) && table.holds(a) implies a > table.dropped
        + n by {
        if a <= table.dropped + n {
            assert(!table.is_tracked(table.dropped + 1 + (a - table.dropped - 1)));
        }
    }
}

/// A reference keeps a table ready.
proof fn lemma_ready_ref(table: TableView, base: usize, reference: Option<usize>)
    requires
        encoder_ready(table, base),
    ensures
        encoder_ready(after_ref(table, reference), base),
{
    let next = after_ref(table, reference);
    assert(indexed(next).names == indexed(table).names);
    assert forall|name: Seq<u8>| find_name_spec(name) is None implies #[trigger] found_name(next, name)
        == found_name(indexed(next), name) by {
        assert(found_name(table, name) == found_name(indexed(table), name));
    }
}

/// An insertion keeps a table ready.
proof fn lemma_ready_insertion(table: TableView, base: usize, field: FieldView, absolute: usize)
    requires
        encoder_ready(table, base),
        !field.sensitive,
        insert_result(table, field) == Ok::<Option<usize>, super::dynamic::Error>(Some(absolute)),
    ensures
        encoder_ready(insertion_mapped(inserted_view(table, field), field, absolute), base),
{
    lemma_insertion_kept(table, field);
    lemma_mapped(table, field, absolute);
    let new = insertion_mapped(inserted_view(table, field), field, absolute);
    let n = evictions(table.fields, table.max_size - field.size()) as int;
    assert forall|i: int| 0 <= i < new.fields.len() implies !(#[trigger] new.fields[i]).sensitive by {
        if i < table.fields.len() - n {
            assert(new.fields[i] == table.fields[i + n]);
        }
    }
}

/// A step keeps the table ready.
proof fn lemma_step_ready(state: SectionState, base: usize, allow: bool, field: FieldView)
    requires
        encoder_ready(state.table, base),
        state.error is None,
        field_step(state, base, allow, field).error is None,
    ensures
        encoder_ready(field_step(state, base, allow, field).table, base),
{
    reveal(field_step);
    let found = line_lookup(state, base, allow, field);
    let middle = before_literal(state, base, allow, field);
    lemma_ready_ref(state.table, base, lookup_ref(found));
    lemma_ready_ref(middle.table, base, lookup_ref(step_name(state, base, allow, field)));
    if let Some(absolute) = step_insertion(state, base, allow, field) {
        lemma_ready_insertion(middle.table, base, field, absolute);
        let inserted = inserted_view(middle.table, field);
        let new = insertion_mapped(inserted, field, absolute);
        lemma_ready_ref(new, base, Some(absolute));
        lemma_ready_ref(referred(new, absolute), base, insertion_ref(inserted, field));
    }
}

/// Counting a reference keeps what was counted.
proof fn lemma_tracked_ref(table: TableView, reference: Option<usize>, a: int)
    requires
        table.is_tracked(a) || reference == Some(a as usize) && 0 <= a <= usize::MAX,
        forall|r: usize| #[trigger] count_of(table.ref_counts, r) < usize::MAX,
    ensures
        after_ref(table, reference).is_tracked(a),
{
    let counts = after_ref(table, reference).ref_counts;
    if table.is_tracked(a) {
        let r = choose|r: usize| r == a && #[trigger] table.ref_counts.contains_key(r)
            && table.ref_counts[r] > 0;
        assert(count_of(table.ref_counts, r) < usize::MAX);
        assert(counts.contains_key(r) && counts[r] > 0);
    } else {
        let r = a as usize;
        assert(count_of(table.ref_counts, r) < usize::MAX);
        assert(counts.contains_key(r) && counts[r] > 0);
    }
}

/// A step keeps every entry that is referred to, and the one that it refers to is
/// there.
proof fn lemma_step_preserves(state: SectionState, base: usize, allow: bool, field: FieldView)
    requires
        encoder_ready(state.table, base),
        has_headroom(state.table, 3),
        state.error is None,
        field_step(state, base, allow, field).error is None,
    ensures
        ({
            let next = field_step(state, base, allow, field).table;
            &&& forall|a: int| #[trigger]
                state.table.is_tracked(a) && state.table.holds(a) ==> next.is_tracked(a)
                    && next.holds(a) && next.entry(a) == state.table.entry(a)
            &&& step_ref(state, base, allow, field) matches Some(r) ==> next.is_tracked(r as int)
                && next.holds(r as int)
        }),
{
    reveal(step_ref);
    reveal(field_step);
    let next = field_step(state, base, allow, field).table;
    let found = line_lookup(state, base, allow, field);
    let middle = before_literal(state, base, allow, field);
    let name = step_name(state, base, allow, field);
    let insertion = step_insertion(state, base, allow, field);
    lemma_latest_bounds(state.table.fields, state.table.dropped);
    assert forall|r: usize| #[trigger] count_of(state.table.ref_counts, r) < usize::MAX by {
        assert(count_of(state.table.ref_counts, r) + 3 <= usize::MAX);
    }
    assert forall|r: usize| #[trigger] count_of(middle.table.ref_counts, r) < usize::MAX by {
        assert(count_of(state.table.ref_counts, r) + 3 <= usize::MAX);
    }
    if let Some(absolute) = insertion {
        lemma_insertion_kept(middle.table, field);
        lemma_inserted(middle.table, field);
        let new = insertion_mapped(inserted_view(middle.table, field), field, absolute);
        let earlier = insertion_ref(inserted_view(middle.table, field), field);
        assert forall|r: usize| #[trigger] count_of(new.ref_counts, r) < usize::MAX by {
            assert(count_of(state.table.ref_counts, r) + 3 <= usize::MAX);
        }
        assert forall|r: usize| #[trigger] count_of(referred(new, absolute).ref_counts, r)
            < usize::MAX by {
            assert(count_of(state.table.ref_counts, r) + 3 <= usize::MAX);
        }
        lemma_tracked_ref(new, Some(absolute), absolute as int);
        lemma_tracked_ref(referred(new, absolute), earlier, absolute as int);
        assert forall|a: int| #[trigger] state.table.is_tracked(a) && state.table.holds(a) implies next.is_tracked(
            a,
        ) && next.holds(a) && next.entry(a) == state.table.entry(a) by {
            lemma_tracked_ref(state.table, lookup_ref(found), a);
            assert(middle.table.is_tracked(a) && middle.table.holds(a));
            assert(inserted_view(middle.table, field).entry(a) == middle.table.entry(a));
            let r = choose|r: usize| r == a && #[trigger] middle.table.ref_counts.contains_key(r)
                && middle.table.ref_counts[r] > 0;
            assert(new.ref_counts.contains_key(r));
            assert(new.is_tracked(a));
            lemma_tracked_ref(new, Some(absolute), a);
            lemma_tracked_ref(referred(new, absolute), earlier, a);
        }
    } else {
        assert forall|a: int| #[trigger] state.table.is_tracked(a) && state.table.holds(a) implies next.is_tracked(
            a,
        ) && next.holds(a) && next.entry(a) == state.table.entry(a) by {
            lemma_tracked_ref(state.table, lookup_ref(found), a);
            lemma_tracked_ref(state.table, lookup_ref(name), a);
            lemma_tracked_ref(middle.table, lookup_ref(name), a);
        }
        if let Some(r) = step_ref(state, base, allow, field) {
            if is_index(state, base, allow, field) {
                lemma_tracked_ref(state.table, lookup_ref(found), r as int);
            } else {
                lemma_tracked_ref(middle.table, lookup_ref(name), r as int);
                assert(found_name(middle.table, field.name) == found_name(
                    state.table,
                    field.name,
                ));
                assert(found_name(state.table, field.name) == found_name(
                    indexed(state.table),
                    field.name,
                ));
                assert(latest_names(state.table.fields, state.table.dropped).contains_key(
                    field.name,
                ));
            }
        }
    }
}

/// The decoder inserts what the encoder inserted.
proof fn lemma_insert_in_step(encoder: TableView, decoder: TableView, field: FieldView)
    requires
        in_step(encoder, decoder),
        insert_result(encoder, field) matches Ok(Some(_)),
    ensures
        insert_result(decoder, field) == insert_result(encoder, field),
        in_step(inserted_view(encoder, field), inserted_view(decoder, field)),
{
    assert forall|a: int| !#[trigger] decoder.is_tracked(a) by {}
    let new = inserted_view(decoder, field);
    assert(new.fields =~= inserted_view(encoder, field).fields);
}

/// The decoder reads a duplication as the entry again.
proof fn lemma_read_duplicate(decoder: TableView, relative: usize, field: FieldView, tail: Seq<u8>, limit: usize)
    requires
        latest_spec(decoder, relative) == Ok::<FieldView, DecoderError>(field),
    ensures
        Duplicate(relative).encode_spec().len() > 0,
        instruction_spec(decoder, limit, Duplicate(relative).encode_spec() + tail) == (
            Ok::<Option<InstructionView>, DecoderError>(Some(InstructionView::Insert(field))),
            tail,
        ),
{
    reveal(instruction_spec);
    duplicate_round_trip(Duplicate(relative), tail);
}

/// The decoder reads an insertion with a name reference as the entry with that name.
proof fn lemma_read_name_ref(
    decoder: TableView,
    instruction: InsertWithNameRefView,
    field: FieldView,
    tail: Seq<u8>,
    limit: usize,
)
    requires
        encodable(instruction.value, limit),
        with_value_spec(
            if instruction.is_static {
                static_spec(instruction.index)
            } else {
                latest_spec(decoder, instruction.index)
            },
            instruction.value,
        ) == Ok::<FieldView, DecoderError>(field),
    ensures
        instruction.encode_spec().len() > 0,
        instruction_spec(decoder, limit, instruction.encode_spec() + tail) == (
            Ok::<Option<InstructionView>, DecoderError>(Some(InstructionView::Insert(field))),
            tail,
        ),
{
    reveal(instruction_spec);
    insert_with_name_ref_round_trip(instruction, tail, limit);
}

/// The decoder reads an insertion as the entry.
proof fn lemma_read_insert(
    decoder: TableView,
    instruction: InsertView,
    tail: Seq<u8>,
    limit: usize,
)
    requires
        encodable(instruction.name, limit),
        encodable(instruction.value, limit),
    ensures
        instruction.encode_spec().len() > 0,
        instruction_spec(decoder, limit, instruction.encode_spec() + tail) == (
            Ok::<Option<InstructionView>, DecoderError>(
                Some(
                    InstructionView::Insert(
                        super::field::field_view(instruction.name, instruction.value),
                    ),
                ),
            ),
            tail,
        ),
{
    reveal(instruction_spec);
    insert_without_name_ref_round_trip(instruction, tail, limit);
}

/// The decoder reads the instruction for an insertion as that insertion.
proof fn lemma_instruction(
    encoder: TableView,
    decoder: TableView,
    base: usize,
    field: FieldView,
    absolute: usize,
    tail: Seq<u8>,
    limit: usize,
)
    requires
        encoder_ready(encoder, base),
        in_step(encoder, decoder),
        line_encodable(field, limit) || insertion_bytes(
            insertion_spec(inserted_view(encoder, field), field, base, absolute),
            field,
        ).len() <= limit,
        !field.sensitive,
        insert_result(encoder, field) == Ok::<Option<usize>, super::dynamic::Error>(Some(absolute)),
    ensures
        ({
            let bytes = insertion_bytes(
                insertion_spec(inserted_view(encoder, field), field, base, absolute),
                field,
            );
            &&& bytes.len() > 0
            &&& instruction_spec(decoder, limit, bytes + tail) == (
                Ok::<Option<InstructionView>, DecoderError>(
                    Some(InstructionView::Insert(field)),
                ),
                tail,
            )
        }),
{
    let w = inserted_view(encoder, field);
    let key = line_key(field);
    if !line_encodable(field, limit) {
        lemma_insertion_within(insertion_spec(w, field, base, absolute), field, limit);
    }
    lemma_insertion_kept(encoder, field);
    lemma_inserted(encoder, field);
    lemma_latest_bounds(encoder.fields, encoder.dropped);
    lemma_static_found(field.name, field.value);
    match found_line(w, field) {
        Some(earlier) => {
            let relative = (absolute - earlier - 1) as usize;
            assert(encoder.lines.contains_key(key) && encoder.lines[key] == earlier);
            assert(line_key(encoder.entry(earlier as int)) == key);
            assert(!encoder.fields[earlier - encoder.dropped - 1].sensitive);
            assert(encoder.entry(earlier as int) =~= field);
            lemma_read_duplicate(decoder, relative, field, tail, limit);
        },
        None => match find_name_spec(field.name) {
            Some(index) => {
                assert(FieldView { value: field.value, ..static_entry(index as int) } =~= field);
                lemma_read_name_ref(
                    decoder,
                    InsertWithNameRefView { is_static: true, index, value: field.value },
                    field,
                    tail,
                    limit,
                );
            },
            None => match found_name(w, field.name) {
                Some(earlier) => {
                    let relative = (absolute - earlier - 1) as usize;
                    assert(found_name(encoder, field.name) == found_name(
                        indexed(encoder),
                        field.name,
                    ));
                    assert(encoder.names.contains_key(field.name) && encoder.names[field.name]
                        == earlier);
                    assert(latest_names(encoder.fields, encoder.dropped).contains_key(field.name));
                    assert(encoder.entry(earlier as int).name == field.name);
                    assert(!encoder.fields[earlier - encoder.dropped - 1].sensitive);
                    assert(FieldView { value: field.value, ..encoder.entry(earlier as int) }
                        =~= field);
                    lemma_read_name_ref(
                        decoder,
                        InsertWithNameRefView {
                            is_static: false,
                            index: relative,
                            value: field.value,
                        },
                        field,
                        tail,
                        limit,
                    );
                },
                None => {
                    lemma_read_insert(
                        decoder,
                        InsertView { name: field.name, value: field.value },
                        tail,
                        limit,
                    );
                    assert(super::field::field_view(field.name, field.value) =~= field);
                },
            },
        },
    }
}

/// The decoder's table after a step's instruction.
spec fn step_decoder(
    state: SectionState,
    decoder: TableView,
    base: usize,
    allow: bool,
    field: FieldView,
) -> TableView {
    match step_insertion(state, base, allow, field) {
        Some(_) => inserted_view(decoder, field),
        None => decoder,
    }
}

/// A decoder in step with the encoder is in step after a step's instruction.
proof fn lemma_step_run(
    state: SectionState,
    decoder: TableView,
    base: usize,
    allow: bool,
    field: FieldView,
    capacity: usize,
    tail: Seq<u8>,
    limit: usize,
)
    requires
        encoder_ready(state.table, base),
        in_step(state.table, decoder),
        line_encodable(field, limit) || step_instruction(state, base, allow, field).len() <= limit,
        state.error is None,
        field_step(state, base, allow, field).error is None,
    ensures
        run_spec(
            decoder,
            capacity,
            limit,
            step_instruction(state, base, allow, field) + tail,
        ) == run_spec(
            step_decoder(state, decoder, base, allow, field),
            capacity,
            limit,
            tail,
        ),
        in_step(
            field_step(state, base, allow, field).table,
            step_decoder(state, decoder, base, allow, field),
        ),
{
    reveal(step_instruction);
    reveal(field_step);
    let middle = before_literal(state, base, allow, field);
    let found = line_lookup(state, base, allow, field);
    match step_insertion(state, base, allow, field) {
        Some(absolute) => {
            lemma_ready_ref(state.table, base, lookup_ref(found));
            lemma_instruction(middle.table, decoder, base, field, absolute, tail, limit);
            lemma_insert_in_step(middle.table, decoder, field);
        },
        None => {
            assert(step_instruction(state, base, allow, field) + tail =~= tail);
        },
    }
}

/// A decoder in step with the encoder follows the instructions of a section, and is
/// in step after them.
proof fn lemma_fields_run(
    state: SectionState,
    decoder: TableView,
    base: usize,
    allow: bool,
    fields: Seq<FieldView>,
    capacity: usize,
    limit: usize,
) -> (result: (TableView, Seq<u8>))
    requires
        encoder_ready(state.table, base),
        in_step(state.table, decoder),
        has_headroom(state.table, 3 * (fields.len() as int)),
        lines_encodable(fields, limit) || fields_step(state, base, allow, fields).instructions.len()
            <= state.instructions.len() + limit,
        state.error is None,
        fields_step(state, base, allow, fields).error is None,
    ensures
        ({
            let end = fields_step(state, base, allow, fields);
            let (next_decoder, instructions) = result;
            &&& end.instructions == state.instructions + instructions
            &&& run_spec(decoder, capacity, limit, instructions) == (
                Ok::<(), DecoderError>(()),
                next_decoder,
                Seq::<u8>::empty(),
            )
            &&& in_step(end.table, next_decoder)
            &&& encoder_ready(end.table, base)
        }),
    decreases fields.len(),
{
    if fields.len() == 0 {
        let none = Seq::<u8>::empty();
        assert(state.instructions + none =~= state.instructions);
        (decoder, none)
    } else {
        let next = field_step(state, base, allow, fields[0]);
        let rest = fields.skip(1);
        if next.error is Some {
            assert(fields_step(next, base, allow, rest) == next);
        }
        lemma_step_shape(state, base, allow, fields[0]);
        lemma_step_ready(state, base, allow, fields[0]);
        lemma_step_keeps(state, base, allow, fields[0], 3 * (fields.len() as int));
        if lines_encodable(fields, limit) {
            lemma_lines_encodable_rest(fields, limit);
        } else {
            lemma_fields_grow(next, base, allow, rest);
        }
        let next_decoder = step_decoder(state, decoder, base, allow, fields[0]);
        lemma_step_run(
            state,
            decoder,
            base,
            allow,
            fields[0],
            capacity,
            Seq::<u8>::empty(),
            limit,
        );
        let (end_decoder, tail) = lemma_fields_run(next, next_decoder, base, allow, rest, capacity, limit);
        lemma_step_run(state, decoder, base, allow, fields[0], capacity, tail, limit);
        let bytes = step_instruction(state, base, allow, fields[0]);
        assert(state.instructions + bytes + tail =~= state.instructions + (bytes + tail));
        (end_decoder, bytes + tail)
    }
}

/// Every entry that is referred to stays to the end of the section.
proof fn lemma_fields_preserve(
    state: SectionState,
    base: usize,
    allow: bool,
    fields: Seq<FieldView>,
    a: int,
)
    requires
        encoder_ready(state.table, base),
        has_headroom(state.table, 3 * (fields.len() as int)),
        state.error is None,
        fields_step(state, base, allow, fields).error is None,
        state.table.is_tracked(a),
        state.table.holds(a),
    ensures
        fields_step(state, base, allow, fields).table.holds(a),
        fields_step(state, base, allow, fields).table.entry(a) == state.table.entry(a),
        fields_step(state, base, allow, fields).required >= state.required,
    decreases fields.len(),
{
    if fields.len() > 0 {
        let next = field_step(state, base, allow, fields[0]);
        let rest = fields.skip(1);
        if next.error is Some {
            assert(fields_step(next, base, allow, rest) == next);
        }
        lemma_step_shape(state, base, allow, fields[0]);
        lemma_step_ready(state, base, allow, fields[0]);
        lemma_step_preserves(state, base, allow, fields[0]);
        lemma_step_keeps(state, base, allow, fields[0], 3 * (fields.len() as int));
        lemma_fields_preserve(next, base, allow, rest, a);
    }
}

/// What a section requires only grows.
proof fn lemma_fields_required(
    state: SectionState,
    base: usize,
    allow: bool,
    fields: Seq<FieldView>,
)
    requires
        state.error is None,
        fields_step(state, base, allow, fields).error is None,
    ensures
        fields_step(state, base, allow, fields).required >= state.required,
    decreases fields.len(),
{
    if fields.len() > 0 {
        let next = field_step(state, base, allow, fields[0]);
        if next.error is Some {
            assert(fields_step(next, base, allow, fields.skip(1)) == next);
        }
        lemma_step_shape(state, base, allow, fields[0]);
        lemma_fields_required(next, base, allow, fields.skip(1));
    }
}

/// A literal with a name reference is read with the name of the entry.
proof fn lemma_name_ref_line(
    line: NameRefView,
    entry: FieldView,
    table: TableView,
    base: int,
    required: int,
    tail: Seq<u8>,
    limit: usize,
)
    requires
        encodable(line.value, limit),
        (if line.is_static {
            static_spec(line.index)
        } else {
            table_result(relative_spec(table, base, required, line.index))
        }) == Ok::<FieldView, DecoderError>(entry),
    ensures
        line.encode_spec().len() > 0,
        line_spec(table, base, required, limit, line.encode_spec() + tail) == (
            Ok::<FieldView, DecoderError>(
                FieldView { name: entry.name, value: line.value, sensitive: line.never_indexed },
            ),
            tail,
        ),
{
    reveal(line_spec);
    literal_with_name_ref_round_trip(line, tail, limit);
}

/// A literal with a post-base name reference is read with the name of the entry.
proof fn lemma_post_base_name_ref_line(
    line: PostBaseNameRefView,
    entry: FieldView,
    table: TableView,
    base: int,
    required: int,
    tail: Seq<u8>,
    limit: usize,
)
    requires
        encodable(line.value, limit),
        postbase_spec(table, base, required, line.index) == Ok::<FieldView, super::dynamic::Error>(
            entry,
        ),
    ensures
        line.encode_spec().len() > 0,
        line_spec(table, base, required, limit, line.encode_spec() + tail) == (
            Ok::<FieldView, DecoderError>(
                FieldView { name: entry.name, value: line.value, sensitive: line.never_indexed },
            ),
            tail,
        ),
{
    reveal(line_spec);
    literal_with_post_base_name_ref_round_trip(line, tail, limit);
}

/// A literal with its name is read as it was written.
proof fn lemma_plain_literal_line(
    line: LiteralView,
    table: TableView,
    base: int,
    required: int,
    tail: Seq<u8>,
    limit: usize,
)
    requires
        encodable(line.name, limit),
        encodable(line.value, limit),
    ensures
        line.encode_spec().len() > 0,
        line_spec(table, base, required, limit, line.encode_spec() + tail) == (
            Ok::<FieldView, DecoderError>(
                FieldView { name: line.name, value: line.value, sensitive: line.never_indexed },
            ),
            tail,
        ),
{
    reveal(line_spec);
    literal_round_trip(line, tail, limit);
}

/// A literal is read as the field line that it was made of, where its name is found
/// in the same place.
proof fn lemma_literal_line(
    name: DynamicLookupResult,
    field: FieldView,
    never_indexed: bool,
    table: TableView,
    base: usize,
    required: int,
    tail: Seq<u8>,
    limit: usize,
)
    requires
        line_encodable(field, limit) || literal_bytes(name, field, never_indexed).len() <= limit,
        never_indexed == field.sensitive,
        match name {
            DynamicLookupResult::Static(index) => find_name_spec(field.name) == Some(index),
            DynamicLookupResult::Relative { index, absolute } => {
                &&& index == base - absolute
                &&& 1 <= absolute <= required
                &&& table.holds(absolute as int)
                &&& table.entry(absolute as int).name == field.name
            },
            DynamicLookupResult::PostBase { index, absolute } => {
                &&& index == absolute - base - 1
                &&& absolute <= required
                &&& table.holds(absolute as int)
                &&& table.entry(absolute as int).name == field.name
            },
            DynamicLookupResult::NotFound => true,
        },
    ensures
        literal_bytes(name, field, never_indexed).len() > 0,
        line_spec(
            table,
            base as int,
            required,
            limit,
            literal_bytes(name, field, never_indexed) + tail,
        ) == (Ok::<FieldView, DecoderError>(field), tail),
{
    lemma_static_found(field.name, field.value);
    if !line_encodable(field, limit) {
        lemma_literal_within(name, field, never_indexed, limit);
    }
    let value = field.value;
    match name {
        DynamicLookupResult::Static(index) => {
            let line = NameRefView { is_static: true, index, value, never_indexed };
            lemma_name_ref_line(
                line,
                static_entry(index as int),
                table,
                base as int,
                required,
                tail,
                limit,
            );
        },
        DynamicLookupResult::Relative { index, absolute } => {
            let line = NameRefView { is_static: false, index, value, never_indexed };
            lemma_name_ref_line(
                line,
                table.entry(absolute as int),
                table,
                base as int,
                required,
                tail,
                limit,
            );
        },
        DynamicLookupResult::PostBase { index, absolute } => {
            let line = PostBaseNameRefView { index, value, never_indexed };
            lemma_post_base_name_ref_line(
                line,
                table.entry(absolute as int),
                table,
                base as int,
                required,
                tail,
                limit,
            );
        },
        DynamicLookupResult::NotFound => {
            let line = LiteralView { name: field.name, value, never_indexed };
            lemma_plain_literal_line(line, table, base as int, required, tail, limit);
        },
    }
}

/// An index into the static table is read as the entry.
proof fn lemma_static_line(
    field: FieldView,
    index: usize,
    table: TableView,
    base: usize,
    required: int,
    tail: Seq<u8>,
    limit: usize,
)
    requires
        !field.sensitive,
        find_spec(field.name, field.value) == Some(index),
    ensures
        Indexed::Static(index).encode_spec().len() > 0,
        line_spec(
            table,
            base as int,
            required,
            limit,
            Indexed::Static(index).encode_spec() + tail,
        ) == (Ok::<FieldView, DecoderError>(field), tail),
{
    reveal(line_spec);
    lemma_static_found(field.name, field.value);
    indexed_round_trip(Indexed::Static(index), tail);
    assert(static_entry(index as int) =~= field);
}

/// An index into the dynamic table is read as the entry.
proof fn lemma_dynamic_line(
    field: FieldView,
    absolute: int,
    table: TableView,
    base: usize,
    required: int,
    tail: Seq<u8>,
    limit: usize,
)
    requires
        table.dropped >= 0,
        table.holds(absolute),
        table.entry(absolute) == field,
        absolute <= required,
        absolute <= base,
    ensures
        ({
            let line = Indexed::Dynamic((base - absolute) as usize);
            &&& line.encode_spec().len() > 0
            &&& line_spec(table, base as int, required, limit, line.encode_spec() + tail) == (
                Ok::<FieldView, DecoderError>(field),
                tail,
            )
        }),
{
    reveal(line_spec);
    indexed_round_trip(Indexed::Dynamic((base - absolute) as usize), tail);
}

/// A post-base index is read as the entry.
proof fn lemma_post_base_line(
    field: FieldView,
    absolute: int,
    table: TableView,
    base: usize,
    required: int,
    tail: Seq<u8>,
    limit: usize,
)
    requires
        table.holds(absolute),
        table.entry(absolute) == field,
        absolute <= required,
        base < absolute <= usize::MAX,
    ensures
        ({
            let line = IndexedWithPostBase((absolute - base - 1) as usize);
            &&& line.encode_spec().len() > 0
            &&& line_spec(table, base as int, required, limit, line.encode_spec() + tail) == (
                Ok::<FieldView, DecoderError>(field),
                tail,
            )
        }),
{
    reveal(line_spec);
    indexed_with_post_base_round_trip(IndexedWithPostBase((absolute - base - 1) as usize), tail);
}

/// A step's field line is read as its field, against any table that still holds what
/// the line refers to.
proof fn lemma_step_line(
    state: SectionState,
    base: usize,
    allow: bool,
    field: FieldView,
    table: TableView,
    decoded_base: usize,
    required: int,
    tail: Seq<u8>,
    limit: usize,
)
    requires
        encoder_ready(state.table, base),
        line_encodable(field, limit) || step_line(state, base, allow, field).len() <= limit,
        state.error is None,
        field_step(state, base, allow, field).error is None,
        step_ref(state, base, allow, field) matches Some(r) ==> {
            &&& decoded_base == base
            &&& r <= required
            &&& table.holds(r as int)
            &&& table.dropped >= 0
            &&& table.entry(r as int) == field_step(state, base, allow, field).table.entry(r as int)
        },
    ensures
        step_line(state, base, allow, field).len() > 0,
        line_spec(
            table,
            decoded_base as int,
            required,
            limit,
            step_line(state, base, allow, field) + tail,
        ) == (Ok::<FieldView, DecoderError>(field), tail),
{
    reveal(step_line);
    reveal(step_ref);
    reveal(field_step);
    let middle = before_literal(state, base, allow, field);
    let next = field_step(state, base, allow, field).table;
    lemma_latest_bounds(state.table.fields, state.table.dropped);
    lemma_static_found(field.name, field.value);
    match step_insertion(state, base, allow, field) {
        Some(absolute) => {
            lemma_insertion_kept(middle.table, field);
            assert(next.entry(absolute as int) == field);
            lemma_post_base_line(field, absolute as int, table, decoded_base, required, tail, limit);
        },
        None => if is_index(state, base, allow, field) {
            match find_spec(field.name, field.value) {
                Some(index) => {
                    lemma_static_line(field, index, table, decoded_base, required, tail, limit);
                },
                None => {
                    let found = line_lookup(state, base, allow, field);
                    let absolute = found->Relative_absolute;
                    assert(state.table.lines.contains_key(line_key(field)));
                    assert(!state.table.fields[absolute - state.table.dropped - 1].sensitive);
                    assert(state.table.entry(absolute as int) =~= field);
                    lemma_dynamic_line(field, absolute as int, table, decoded_base, required, tail, limit);
                },
            }
        } else {
            let name = step_name(state, base, allow, field);
            assert(found_name(middle.table, field.name) == found_name(state.table, field.name));
            if lookup_ref(name) is Some {
                assert(found_name(state.table, field.name) == found_name(
                    indexed(state.table),
                    field.name,
                ));
                assert(latest_names(state.table.fields, state.table.dropped).contains_key(
                    field.name,
                ));
            }
            lemma_literal_line(name, field, field.sensitive, table, decoded_base, required, tail, limit);
        },
    }
}

/// The field lines of a section are read as its fields.
proof fn lemma_fields_lines(
    state: SectionState,
    base: usize,
    allow: bool,
    fields: Seq<FieldView>,
    table: TableView,
    decoded_base: usize,
    max_size: u64,
    mem_size: int,
    limit: usize,
) -> (lines: Seq<u8>)
    requires
        encoder_ready(state.table, base),
        has_headroom(state.table, 3 * (fields.len() as int)),
        lines_encodable(fields, limit) || fields_step(state, base, allow, fields).block.len()
            <= state.block.len() + limit,
        state.error is None,
        fields_step(state, base, allow, fields).error is None,
        in_step(fields_step(state, base, allow, fields).table, table),
        fields_step(state, base, allow, fields).required > 0 ==> decoded_base == base,
        table.dropped >= 0,
        0 <= mem_size,
        mem_size + lines_size(fields) <= max_size,
    ensures
        fields_step(state, base, allow, fields).block == state.block + lines,
        decode_lines(
            section_lines(
                table,
                decoded_base as int,
                fields_step(state, base, allow, fields).required as int,
                limit,
            ),
            max_size,
            mem_size,
            lines,
        ) == (
            Ok::<(Seq<FieldView>, int), DecoderError>((fields, mem_size + lines_size(fields))),
            Seq::<u8>::empty(),
        ),
    decreases fields.len(),
{
    let end = fields_step(state, base, allow, fields);
    if fields.len() == 0 {
        let none = Seq::<u8>::empty();
        assert(state.block + none =~= state.block);
        assert(fields =~= Seq::<FieldView>::empty());
        none
    } else {
        let field = fields[0];
        let next = field_step(state, base, allow, field);
        let rest = fields.skip(1);
        if next.error is Some {
            assert(fields_step(next, base, allow, rest) == next);
        }
        lemma_step_shape(state, base, allow, field);
        lemma_step_ready(state, base, allow, field);
        lemma_step_preserves(state, base, allow, field);
        lemma_step_keeps(state, base, allow, field, 3 * (fields.len() as int));
        lemma_fields_required(next, base, allow, rest);
        lemma_lines_size_nonneg(rest);
        if lines_encodable(fields, limit) {
            lemma_lines_encodable_rest(fields, limit);
        } else {
            lemma_fields_grow(next, base, allow, rest);
        }
        if let Some(r) = step_ref(state, base, allow, field) {
            lemma_fields_preserve(next, base, allow, rest, r as int);
        }
        let tail = lemma_fields_lines(
            next,
            base,
            allow,
            rest,
            table,
            decoded_base,
            max_size,
            mem_size + field.size(),
            limit,
        );
        let line = step_line(state, base, allow, field);
        lemma_step_line(state, base, allow, field, table, decoded_base, end.required as int, tail, limit);
        assert(state.block + line + tail =~= state.block + (line + tail));
        assert(seq![field] + rest =~= fields);
        line + tail
    }
}

/// What a section requires is still in the table at its end.
proof fn lemma_required_held(state: SectionState, base: usize, allow: bool, fields: Seq<FieldView>)
    requires
        encoder_ready(state.table, base),
        has_headroom(state.table, 3 * (fields.len() as int)),
        state.error is None,
        fields_step(state, base, allow, fields).error is None,
        state.required > 0 ==> state.table.is_tracked(state.required as int) && state.table.holds(
            state.required as int,
        ),
    ensures
        fields_step(state, base, allow, fields).required > 0 ==> fields_step(
            state,
            base,
            allow,
            fields,
        ).table.holds(fields_step(state, base, allow, fields).required as int),
    decreases fields.len(),
{
    if fields.len() > 0 {
        let next = field_step(state, base, allow, fields[0]);
        let rest = fields.skip(1);
        if next.error is Some {
            assert(fields_step(next, base, allow, rest) == next);
        }
        lemma_step_shape(state, base, allow, fields[0]);
        lemma_step_ready(state, base, allow, fields[0]);
        lemma_step_preserves(state, base, allow, fields[0]);
        lemma_step_keeps(state, base, allow, fields[0], 3 * (fields.len() as int));
        lemma_required_held(next, base, allow, rest);
    }
}

/// What is written only grows.
proof fn lemma_fields_grow(state: SectionState, base: usize, allow: bool, fields: Seq<FieldView>)
    ensures
        fields_step(state, base, allow, fields).block.len() >= state.block.len(),
        fields_step(state, base, allow, fields).instructions.len() >= state.instructions.len(),
    decreases fields.len(),
{
    if fields.len() > 0 && state.error is None {
        reveal(field_step);
        lemma_fields_grow(
            field_step(state, base, allow, fields[0]),
            base,
            allow,
            fields.skip(1),
        );
    }
}

/// Whether a decoder, after it has followed the instructions of a field section, decodes the
/// section to the field lines that it was made of, marked as they were, in the same order, and
/// its table then holds what the encoder's does.
pub open spec fn section_decodes(
    encoder: TableView,
    decoder: TableView,
    stream_id: u64,
    fields: Seq<FieldView>,
    max_table_capacity: usize,
    max_size: u64,
    limit: usize,
) -> bool {
    let section = section_of(encoder, stream_id, fields);
    let base = encoder.fields.len() as usize;
    let block = prefix_of(section.required, base, max_table_capacity).encode_spec()
        + section.block;
    let (followed, table, unread) = run_spec(
        decoder,
        max_table_capacity,
        limit,
        section.instructions,
    );
    let (prefix, lines) = section_prefix(table.inserted(), max_table_capacity, None, block);
    &&& followed is Ok
    &&& unread == Seq::<u8>::empty()
    &&& in_step(section.table, table)
    &&& prefix is Ok
    &&& section_spec(table, prefix->Ok_0, limit, max_size, lines) == (
        Ok::<DecodedView, DecoderError>(
            DecodedView {
                fields,
                dyn_ref: section.required > 0,
                mem_size: lines_size(fields) as u64,
            },
        ),
        Seq::<u8>::empty(),
    )
}

/// Whether what an encoder writes can be decoded: its table is in order, and the decoder's
/// holds the same.
pub open spec fn codec_ready(encoder: TableView, decoder: TableView, max_table_capacity: usize) -> bool {
    &&& in_step(encoder, decoder)
    &&& 0 <= encoder.dropped
    &&& encoder.size() <= encoder.max_size <= max_table_capacity
    &&& forall|i: int| 0 <= i < encoder.fields.len() ==> !(#[trigger] encoder.fields[i]).sensitive
}

/// Whether a section can be encoded and decoded without a number that a machine cannot hold,
/// and the decoder's limit on encoded strings admits it, which it does where it admits all that
/// was written.
pub open spec fn section_within(
    encoder: TableView,
    stream_id: u64,
    fields: Seq<FieldView>,
    max_table_capacity: usize,
    limit: usize,
) -> bool {
    let section = section_of(encoder, stream_id, fields);
    &&& section.error is None
    &&& encoder.inserted() + fields.len() + 3 * (max_table_capacity as int / 32) <= usize::MAX
    &&& has_headroom(encoder, 3 * (fields.len() as int))
    &&& lines_encodable(fields, limit) || section.block.len() <= limit
        && section.instructions.len() <= limit
}

/// A decoder whose table holds what the encoder's held, after it has followed the
/// instructions of a field section, decodes the section to the field lines that it
/// was made of, marked as they were, in the same order.
///
/// Its table then holds again what the encoder's does.
pub proof fn section_round_trip(
    encoder: TableView,
    decoder: TableView,
    stream_id: u64,
    fields: Seq<FieldView>,
    max_table_capacity: usize,
    max_size: u64,
    limit: usize,
)
    requires
        codec_ready(encoder, decoder, max_table_capacity),
        section_within(encoder, stream_id, fields, max_table_capacity, limit),
        lines_size(fields) <= max_size,
    ensures
        section_decodes(
            encoder,
            decoder,
            stream_id,
            fields,
            max_table_capacity,
            max_size,
            limit,
        ),
        codec_ready(
            after_section(section_of(encoder, stream_id, fields), stream_id),
            run_spec(
                decoder,
                max_table_capacity,
                limit,
                section_of(encoder, stream_id, fields).instructions,
            ).1,
            max_table_capacity,
        ),
{
    let base = encoder.fields.len() as usize;
    let allow = may_block(encoder, stream_id);
    let start = section_start(encoder);
    let section = section_of(encoder, stream_id, fields);
    assert(encoder_ready(start.table, base)) by {
        assert(indexed(start.table) =~= start.table);
    }
    assert(has_headroom(start.table, 3 * (fields.len() as int))) by {
        assert forall|r: usize| #[trigger] count_of(start.table.ref_counts, r) + 3 * (
        fields.len() as int) <= usize::MAX by {
            assert(count_of(encoder.ref_counts, r) + 3 * (fields.len() as int) <= usize::MAX);
        }
    }
    let (table, instructions) = lemma_fields_run(
        start,
        decoder,
        base,
        allow,
        fields,
        max_table_capacity,
        limit,
    );
    assert(section.instructions =~= instructions);
    let decoded_base = if section.required == 0 {
        0
    } else {
        base
    };
    let lines = lemma_fields_lines(start, base, allow, fields, table, decoded_base, max_size, 0, limit);
    assert(section.block =~= lines);
    lemma_required_held(start, base, allow, fields);
    lemma_inserted_bound(start, base, allow, fields);
    lemma_lines_size_nonneg(fields);
    lemma_lines_size_nonneg(table.fields);
    let prefix = prefix_of(section.required, base, max_table_capacity);
    prefix_bytes_round_trip(prefix, lines);
    if section.required == 0 {
        empty_prefix_round_trip(base, table.inserted() as usize, max_table_capacity);
    } else {
        prefix_round_trip(
            section.required,
            base,
            table.inserted() as usize,
            max_table_capacity,
        );
    }
}

/// A section makes at most one insertion for each field line.
proof fn lemma_inserted_bound(state: SectionState, base: usize, allow: bool, fields: Seq<FieldView>)
    requires
        has_headroom(state.table, 3 * (fields.len() as int)),
        state.error is None,
        fields_step(state, base, allow, fields).error is None,
    ensures
        state.table.inserted() <= fields_step(state, base, allow, fields).table.inserted()
            <= state.table.inserted() + fields.len(),
        fields_step(state, base, allow, fields).table.max_size == state.table.max_size,
    decreases fields.len(),
{
    if fields.len() > 0 {
        let next = field_step(state, base, allow, fields[0]);
        let rest = fields.skip(1);
        if next.error is Some {
            assert(fields_step(next, base, allow, rest) == next);
        }
        assert(next.table.inserted() <= state.table.inserted() + 1) by {
            reveal(field_step);
            if let Some(absolute) = step_insertion(state, base, allow, fields[0]) {
                lemma_inserted(before_literal(state, base, allow, fields[0]).table, fields[0]);
            }
        }
        lemma_step_keeps(state, base, allow, fields[0], 3 * (fields.len() as int));
        lemma_inserted_bound(next, base, allow, rest);
    }
}

/// Tables that nothing was inserted into hold the same.
pub proof fn fresh_codecs_are_ready(
    encoder: TableView,
    decoder: TableView,
    max_table_capacity: usize,
)
    requires
        encoder.fields == Seq::<FieldView>::empty(),
        encoder.dropped == 0,
        encoder.max_size <= max_table_capacity,
        in_step(encoder, decoder),
    ensures
        codec_ready(encoder, decoder, max_table_capacity),
{
}

/// What a decoder has to say does not change what the tables hold.
pub proof fn answers_keep_codecs_ready(
    encoder: TableView,
    decoder: TableView,
    max_table_capacity: usize,
    s: Seq<u8>,
)
    requires
        codec_ready(encoder, decoder, max_table_capacity),
    ensures
        codec_ready(follow_spec(encoder, s).1, decoder, max_table_capacity),
    decreases s.len(),
{
    if s.len() > 0 {
        let (action, rest) = parse_action(s);
        if let Ok(Some(action)) = action {
            let (result, next) = action_spec(encoder, action);
            assert(next.fields == encoder.fields && next.dropped == encoder.dropped
                && next.max_size == encoder.max_size);
            if result is Ok && rest.len() < s.len() {
                answers_keep_codecs_ready(next, decoder, max_table_capacity, rest);
            }
        }
    }
}

/// What happens between an encoder and a decoder.
pub enum CodecStep {
    /// A section is encoded, and the decoder follows its instructions.
    Section { stream_id: u64, fields: Seq<FieldView> },
    /// The encoder follows what the decoder has to say.
    Answer(Seq<u8>),
}

/// The tables of an encoder and a decoder after a step.
pub open spec fn codec_step(
    encoder: TableView,
    decoder: TableView,
    max_table_capacity: usize,
    limit: usize,
    step: CodecStep,
) -> (TableView, TableView) {
    match step {
        CodecStep::Section { stream_id, fields } => {
            let section = section_of(encoder, stream_id, fields);
            (
                after_section(section, stream_id),
                run_spec(decoder, max_table_capacity, limit, section.instructions).1,
            )
        },
        CodecStep::Answer(s) => (follow_spec(encoder, s).1, decoder),
    }
}

/// Whether every section of a history can be encoded and decoded.
pub open spec fn history_within(
    encoder: TableView,
    decoder: TableView,
    max_table_capacity: usize,
    limit: usize,
    steps: Seq<CodecStep>,
) -> bool
    decreases steps.len(),
{
    steps.len() == 0 || {
        let (next, next_decoder) = codec_step(
            encoder,
            decoder,
            max_table_capacity,
            limit,
            steps[0],
        );
        &&& match steps[0] {
            CodecStep::Section { stream_id, fields } => section_within(
                encoder,
                stream_id,
                fields,
                max_table_capacity,
                limit,
            ) && lines_size(fields) <= u64::MAX,
            CodecStep::Answer(_) => true,
        }
        &&& history_within(next, next_decoder, max_table_capacity, limit, steps.skip(1))
    }
}

/// Whether every section of a history is decoded to what was encoded.
pub open spec fn history_decodes(
    encoder: TableView,
    decoder: TableView,
    max_table_capacity: usize,
    limit: usize,
    steps: Seq<CodecStep>,
) -> bool
    decreases steps.len(),
{
    steps.len() == 0 || {
        let (next, next_decoder) = codec_step(
            encoder,
            decoder,
            max_table_capacity,
            limit,
            steps[0],
        );
        &&& match steps[0] {
            CodecStep::Section { stream_id, fields } => section_decodes(
                encoder,
                decoder,
                stream_id,
                fields,
                max_table_capacity,
                u64::MAX,
                limit,
            ),
            CodecStep::Answer(_) => true,
        }
        &&& history_decodes(next, next_decoder, max_table_capacity, limit, steps.skip(1))
    }
}

/// From tables that hold the same, such as empty ones of the same capacity, every section that
/// is ever encoded is decoded to what it was made of, as long as the decoder is given all
/// instructions in their order, whatever it answers in between.
pub proof fn histories_round_trip(
    encoder: TableView,
    decoder: TableView,
    max_table_capacity: usize,
    limit: usize,
    steps: Seq<CodecStep>,
)
    requires
        codec_ready(encoder, decoder, max_table_capacity),
        history_within(encoder, decoder, max_table_capacity, limit, steps),
    ensures
        history_decodes(encoder, decoder, max_table_capacity, limit, steps),
    decreases steps.len(),
{
    if steps.len() > 0 {
        match steps[0] {
            CodecStep::Section { stream_id, fields } => section_round_trip(
                encoder,
                decoder,
                stream_id,
                fields,
                max_table_capacity,
                u64::MAX,
                limit,
            ),
            CodecStep::Answer(s) => answers_keep_codecs_ready(
                encoder,
                decoder,
                max_table_capacity,
                s,
            ),
        }
        let (next, next_decoder) = codec_step(
            encoder,
            decoder,
            max_table_capacity,
            limit,
            steps[0],
        );
        histories_round_trip(next, next_decoder, max_table_capacity, limit, steps.skip(1));
    }
}

} // verus!
