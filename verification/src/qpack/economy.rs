//! How field lines are written: by reference where there is something to refer to.
//!
//! See <https://www.rfc-editor.org/rfc/rfc9204.html#section-2.1>.
use vstd::prelude::*;
use super::dynamic::encoder::{
    found_line, insertion_spec, lookup_spec, DynamicInsertionResult, DynamicLookupResult,
};
use super::dynamic::{
    evictions, insert_result, inserted_view, lemma_lines_size_nonneg, line_key, lines_size,
    Error as DynamicTableError, TableView,
};
use super::encoder::{
    field_step, insertion_bytes, looked_up, stateless_bytes, stateless_section, with_insertion,
    SectionState,
};
use super::field::FieldView;
use super::prefix_int;
use super::static_::{
    has_line, has_name, is_first_name, lemma_first_name_unique, static_entry, static_name,
    static_value, STATIC_ENTRIES,
};
use super::static_lines::static_lines_are_found;
use super::wire::{line_bytes, Line, Text};

verus! {

/// A line of the static table is written as its index, with the dynamic table and without it,
/// unless it is sensitive; nothing is inserted for it.
pub proof fn static_lines_are_indexed(
    state: SectionState,
    base: usize,
    allow: bool,
    field: FieldView,
    index: usize,
)
    requires
        index < STATIC_ENTRIES,
        !field.sensitive,
        field.name == static_entry(index as int).name,
        field.value == static_entry(index as int).value,
    ensures
        stateless_bytes(field) == prefix_int::encode_spec(6, 0b11, index as u64),
        field_step(state, base, allow, field) == (SectionState {
            block: state.block + prefix_int::encode_spec(6, 0b11, index as u64),
            ..state
        }),
{
    reveal(field_step);
    static_lines_are_found(index);
}

/// A line that is not in the static table, or that is sensitive, is written without the
/// dynamic table as a value, after the first index of its name in the static table, where that
/// has its name, or else after its name; it is marked as sensitive as it is.
pub proof fn other_lines_are_literals(field: FieldView, index: usize)
    requires
        field.sensitive || forall|i: int|
            0 <= i < STATIC_ENTRIES ==> #[trigger] static_name(i) != field.name || static_value(i)
                != field.value,
    ensures
        index < STATIC_ENTRIES && static_name(index as int) == field.name && (forall|i: int|
            0 <= i < index ==> #[trigger] static_name(i) != field.name) ==> stateless_bytes(field)
            == line_bytes(
            0,
            Line::StaticName {
                index,
                value: Text::Huffman(field.value),
                never_indexed: field.sensitive,
            },
        ),
        (forall|i: int| 0 <= i < STATIC_ENTRIES ==> #[trigger] static_name(i) != field.name)
            ==> stateless_bytes(field) == line_bytes(
            0,
            Line::Literal {
                name: Text::Huffman(field.name),
                value: Text::Huffman(field.value),
                never_indexed: field.sensitive,
            },
        ),
{
    if !field.sensitive {
        assert(!has_line(field.name, field.value));
    }
    if index < STATIC_ENTRIES && static_name(index as int) == field.name && (forall|i: int|
        0 <= i < index ==> #[trigger] static_name(i) != field.name) {
        assert(is_first_name(field.name, index as int));
        lemma_first_name_unique(field.name, index);
    }
    if forall|i: int| 0 <= i < STATIC_ENTRIES ==> #[trigger] static_name(i) != field.name {
        assert(!has_name(field.name));
    }
}

/// A section that is written without the dynamic table is a prefix of two zero bytes, and its
/// lines, one after the other.
pub proof fn stateless_sections_are_their_lines(fields: Seq<FieldView>, field: FieldView)
    ensures
        stateless_section(Seq::empty()) == seq![0u8, 0u8],
        stateless_section(fields.push(field)) == stateless_section(fields) + stateless_bytes(field),
{
    vstd::arithmetic::power2::lemma2_to64();
    assert(fields.push(field).drop_last() =~= fields);
    assert(stateless_section(Seq::empty()) =~= seq![0u8, 0u8]);
    assert(stateless_section(fields.push(field)) =~= stateless_section(fields) + stateless_bytes(
        field,
    ));
}

/// A line that the dynamic table holds, and that the decoder has received, is written as its
/// index there; the entry is referred to once more, and nothing is inserted.
pub proof fn received_lines_are_indexed(
    state: SectionState,
    base: usize,
    allow: bool,
    field: FieldView,
    absolute: usize,
)
    requires
        !field.sensitive,
        forall|i: int|
            0 <= i < STATIC_ENTRIES ==> #[trigger] static_name(i) != field.name || static_value(i)
                != field.value,
        state.table.lines.contains_key((field.name, field.value)),
        state.table.lines[(field.name, field.value)] == absolute,
        absolute <= state.table.known_received || allow,
        absolute <= base,
    ensures
        ({
            let after = field_step(state, base, allow, field);
            &&& after.block == state.block + prefix_int::encode_spec(
                6,
                0b10,
                (base - absolute) as u64,
            )
            &&& after.instructions == state.instructions
            &&& after.table.fields == state.table.fields
            &&& after.table.dropped == state.table.dropped
            &&& after.required >= absolute && after.required >= state.required
            &&& after.required == absolute || after.required == state.required
            &&& after.error == state.error
        }),
{
    reveal(field_step);
    assert(!has_line(field.name, field.value));
}

/// A line that neither table holds is inserted where the decoder may wait for it and the
/// table has room for it: it is the latest entry then, the decoder is told, and the section
/// requires it.
pub proof fn new_lines_are_inserted(
    state: SectionState,
    base: usize,
    field: FieldView,
)
    requires
        !field.sensitive,
        forall|i: int|
            0 <= i < STATIC_ENTRIES ==> #[trigger] static_name(i) != field.name || static_value(i)
                != field.value,
        !state.table.lines.contains_key((field.name, field.value)),
        state.table.max_size > 0,
        lines_size(state.table.fields) + field.name.len() + field.value.len() + 32
            <= state.table.max_size,
        base <= state.table.inserted() < usize::MAX,
    ensures
        ({
            let after = field_step(state, base, true, field);
            let absolute = state.table.inserted() + 1;
            &&& after.table.fields == state.table.fields.push(field)
            &&& after.table.dropped == state.table.dropped
            &&& after.table.max_size == state.table.max_size
            &&& after.table.lines.contains_key((field.name, field.value))
            &&& after.table.lines[(field.name, field.value)] == absolute
            &&& after.block == state.block + prefix_int::encode_spec(
                4,
                0b0001,
                (absolute - base - 1) as u64,
            )
            &&& after.instructions.len() > state.instructions.len()
            &&& after.required >= absolute
            &&& after.error == state.error
        }),
{
    let table = state.table;
    let absolute = (table.inserted() + 1) as usize;
    assert(!has_line(field.name, field.value));
    lemma_room(table, field);
    assert(insert_result(table, field) == Ok::<Option<usize>, DynamicTableError>(Some(absolute)));
    let inserted = inserted_view(table, field);
    assert(!inserted.lines.contains_key(line_key(field)));
    lemma_insertion_is_told(insertion_spec(inserted, field, base, absolute), field);
    assert(lookup_spec(found_line(table, field), base, table.known_received, true)
        == DynamicLookupResult::NotFound);
    assert(field_step(state, base, true, field) == with_insertion(
        looked_up(state, DynamicLookupResult::NotFound),
        base,
        field,
        absolute,
    )) by {
        reveal(field_step);
    }
}

proof fn lemma_room(table: TableView, field: FieldView)
    requires
        lines_size(table.fields) + field.name.len() + field.value.len() + 32 <= table.max_size,
    ensures
        evictions(table.fields, table.max_size - field.size()) == 0,
        field.size() <= table.max_size,
        inserted_view(table, field) == table || inserted_view(table, field).fields
            == table.fields.push(field),
{
    lemma_lines_size_nonneg(table.fields);
    assert(table.fields.skip(0) =~= table.fields);
}

proof fn lemma_insertion_is_told(insertion: DynamicInsertionResult, field: FieldView)
    requires
        insertion !is NotInserted,
    ensures
        insertion_bytes(insertion, field).len() > 0,
{
    match insertion {
        DynamicInsertionResult::Duplicated { relative, postbase, absolute } => {
            prefix_int::integers_are_written_short(5, 0, relative as u64);
        },
        _ => {},
    }
}

} // verus!
