//! Sections keep to the number of streams that the peer allows to be blocked.
use vstd::prelude::*;
use super::dynamic::encoder::{encoder_insertion, found_line, lookup_spec};
use super::dynamic::TableView;
use super::encoder::{
    after_section, field_step, fields_step, looked_up, may_block, section_of, section_start,
    SectionState,
};
use super::field::FieldView;

verus! {

/// Where the decoder may not wait, a field line refers only to what it has.
proof fn lemma_step_known(state: SectionState, base: usize, field: FieldView)
    requires
        state.required <= state.table.known_received,
    ensures
        ({
            let next = field_step(state, base, false, field);
            &&& next.required <= next.table.known_received
            &&& next.table.known_received == state.table.known_received
        }),
{
    reveal(field_step);
    let found = lookup_spec(
        found_line(state.table, field),
        base,
        state.table.known_received,
        false,
    );
    let middle = looked_up(state, found);
    assert(encoder_insertion(middle.table, field, false) == Ok::<
        Option<usize>,
        super::dynamic::Error,
    >(None));
}

proof fn lemma_steps_known(state: SectionState, base: usize, fields: Seq<FieldView>)
    requires
        state.required <= state.table.known_received,
    ensures
        ({
            let next = fields_step(state, base, false, fields);
            &&& next.required <= next.table.known_received
            &&& next.table.known_received == state.table.known_received
        }),
    decreases fields.len(),
{
    if fields.len() > 0 && state.error is None {
        lemma_step_known(state, base, fields[0]);
        lemma_steps_known(field_step(state, base, false, fields[0]), base, fields.skip(1));
    }
}

/// A section of a stream that may not be blocked requires no insertion that the decoder is not
/// known to have received.
pub proof fn limited_sections_do_not_wait(
    table: TableView,
    stream_id: u64,
    fields: Seq<FieldView>,
)
    requires
        !may_block(table, stream_id),
    ensures
        section_of(table, stream_id, fields).required <= table.known_received,
{
    lemma_steps_known(section_start(table), table.fields.len() as usize, fields);
}

proof fn lemma_steps_frame(
    state: SectionState,
    base: usize,
    allow_blocking: bool,
    fields: Seq<FieldView>,
)
    ensures
        ({
            let next = fields_step(state, base, allow_blocking, fields);
            &&& next.table.known_received == state.table.known_received
            &&& next.table.blocked_max == state.table.blocked_max
            &&& next.table.streams == state.table.streams
        }),
    decreases fields.len(),
{
    if fields.len() > 0 && state.error is None {
        reveal(field_step);
        lemma_steps_frame(
            field_step(state, base, allow_blocking, fields[0]),
            base,
            allow_blocking,
            fields.skip(1),
        );
    }
}

/// Encoding a section never blocks more streams than the peer allows.
pub proof fn blocked_streams_stay_within_the_limit(
    table: TableView,
    stream_id: u64,
    fields: Seq<FieldView>,
)
    requires
        table.blocked().finite(),
        table.blocked().len() <= table.blocked_max,
    ensures
        ({
            let after = after_section(section_of(table, stream_id, fields), stream_id);
            &&& after.blocked_max == table.blocked_max
            &&& after.blocked().finite()
            &&& after.blocked().len() <= after.blocked_max
        }),
{
    let state = section_of(table, stream_id, fields);
    let after = after_section(state, stream_id);
    lemma_steps_frame(
        section_start(table),
        table.fields.len() as usize,
        may_block(table, stream_id),
        fields,
    );
    assert(after.known_received == table.known_received);
    assert forall|id: u64| id != stream_id implies table.is_blocked(id) == after.is_blocked(id) by {
        assert(after.streams.contains_key(id) == table.streams.contains_key(id));
        if table.streams.contains_key(id) {
            assert(after.streams[id] == table.streams[id]);
        }
    }
    if !may_block(table, stream_id) {
        limited_sections_do_not_wait(table, stream_id, fields);
    }
    if table.is_blocked(stream_id) {
        assert(after.is_blocked(stream_id)) by {
            let i = choose|i: int|
                0 <= i < table.streams[stream_id].len() && (#[trigger] table.streams[stream_id][i]).required
                    > table.known_received;
            assert(after.streams[stream_id][i] == table.streams[stream_id][i]);
        }
        assert(after.blocked() =~= table.blocked());
    } else if after.is_blocked(stream_id) {
        let i = choose|i: int|
            0 <= i < after.streams[stream_id].len() && (#[trigger] after.streams[stream_id][i]).required
                > after.known_received;
        if table.streams.contains_key(stream_id) && i < table.streams[stream_id].len() {
            assert(after.streams[stream_id][i] == table.streams[stream_id][i]);
            assert(table.is_blocked(stream_id));
        }
        assert(state.required > table.known_received);
        assert(after.blocked() =~= table.blocked().insert(stream_id));
    } else {
        assert(after.blocked() =~= table.blocked());
    }
}

} // verus!
