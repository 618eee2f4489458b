//! What an encoder makes of what a decoder tells it, and what it never tells a decoder.
//!
//! See <https://www.rfc-editor.org/rfc/rfc9204.html#section-4.4>.
use vstd::prelude::*;
use super::dynamic::{count_of, total_of, TableView};
use super::encoder::{
    action_spec, field_step, fields_step, follow_spec, parse_action, Action, EncoderError, SectionState,
};
use super::field::FieldView;
use super::prefix_int;
use super::stream::{
    header_ack_round_trip, insert_count_increment_round_trip, stream_cancel_round_trip, HeaderAck,
    InsertCountIncrement, StreamCancel,
};
use crate::quic::{StreamId, MAX_VARINT};

verus! {

/// The bytes of a Section Acknowledgment.
pub open spec fn acknowledgment(stream_id: u64) -> Seq<u8> {
    prefix_int::encode_spec(7, 0b1, stream_id)
}

/// The bytes of a Stream Cancellation.
pub open spec fn cancellation(stream_id: u64) -> Seq<u8> {
    prefix_int::encode_spec(6, 0b01, stream_id)
}

/// The bytes of an Insert Count Increment.
pub open spec fn increment(n: usize) -> Seq<u8> {
    prefix_int::encode_spec(6, 0b00, n as u64)
}

/// Whether nothing but the sections that are outstanding and what is known of the decoder
/// differs.
pub open spec fn same_entries(before: TableView, after: TableView) -> bool {
    &&& after.fields == before.fields
    &&& after.dropped == before.dropped
    &&& after.max_size == before.max_size
    &&& after.lines == before.lines
    &&& after.names == before.names
    &&& after.blocked_max == before.blocked_max
}

proof fn lemma_acknowledgment(stream_id: u64, rest: Seq<u8>)
    requires
        stream_id <= MAX_VARINT,
    ensures
        acknowledgment(stream_id).len() > 0,
        parse_action(acknowledgment(stream_id) + rest) == (
            Ok::<Option<Action>, EncoderError>(Some(Action::Untrack(StreamId(stream_id)))),
            rest,
        ),
{
    header_ack_round_trip(HeaderAck(stream_id), rest);
}

proof fn lemma_cancellation(stream_id: u64, rest: Seq<u8>)
    requires
        stream_id <= MAX_VARINT,
    ensures
        cancellation(stream_id).len() > 0,
        parse_action(cancellation(stream_id) + rest) == (
            Ok::<Option<Action>, EncoderError>(Some(Action::StreamCancel(StreamId(stream_id)))),
            rest,
        ),
{
    stream_cancel_round_trip(StreamCancel(stream_id), rest);
}

proof fn lemma_increment(n: usize, rest: Seq<u8>)
    ensures
        increment(n).len() > 0,
        parse_action(increment(n) + rest) == (
            Ok::<Option<Action>, EncoderError>(Some(Action::ReceivedRefIncrement(n))),
            rest,
        ),
{
    insert_count_increment_round_trip(InsertCountIncrement(n), rest);
}

/// A Section Acknowledgment settles the oldest section of its stream that is outstanding: its
/// references are given back, one by one, and the insertions that it required are known to have
/// been received. The other sections stay outstanding.
///
/// See <https://www.rfc-editor.org/rfc/rfc9204.html#section-4.4.1>.
pub proof fn acknowledgments_settle_the_oldest_section(
    table: TableView,
    stream_id: u64,
    r: usize,
    other: u64,
    rest: Seq<u8>,
)
    requires
        stream_id <= MAX_VARINT,
        other != stream_id,
        table.streams.contains_key(stream_id),
        table.streams[stream_id].len() > 0,
        table.streams[stream_id][0].required <= table.inserted(),
        forall|r: usize| #[trigger]
            table.streams[stream_id][0].refs.contains_key(r) ==> table.ref_counts.contains_key(r)
                && table.streams[stream_id][0].refs[r] <= table.ref_counts[r],
    ensures
        ({
            let sections = table.streams[stream_id];
            let (outcome, after, left) = follow_spec(table, acknowledgment(stream_id));
            &&& outcome is Ok
            &&& left == Seq::<u8>::empty()
            &&& same_entries(table, after)
            &&& after.known_received >= table.known_received
            &&& after.known_received >= sections[0].required
            &&& after.known_received == table.known_received || after.known_received
                == sections[0].required
            &&& count_of(after.ref_counts, r) == count_of(table.ref_counts, r) - count_of(
                sections[0].refs,
                r,
            )
            &&& sections.len() == 1 ==> !after.streams.contains_key(stream_id)
            &&& sections.len() > 1 ==> after.streams.contains_key(stream_id)
                && seq![sections[0]] + after.streams[stream_id] == sections
            &&& after.streams.contains_key(other) == table.streams.contains_key(other)
            &&& table.streams.contains_key(other) ==> after.streams[other] == table.streams[other]
            &&& follow_spec(table, acknowledgment(stream_id) + rest) == follow_spec(after, rest)
        }),
{
    let s = acknowledgment(stream_id);
    assert(s + Seq::<u8>::empty() =~= s);
    lemma_acknowledgment(stream_id, Seq::empty());
    lemma_acknowledgment(stream_id, rest);
    let sections = table.streams[stream_id];
    let next = action_spec(table, Action::Untrack(StreamId(stream_id))).1;
    assert(follow_spec(next, Seq::empty()) == (
        Ok::<(), EncoderError>(()),
        next,
        Seq::<u8>::empty(),
    ));
    assert((s + rest).len() > rest.len());
    if sections.len() > 1 {
        assert(seq![sections[0]] + sections.skip(1) =~= sections);
    }
}

/// An acknowledgment of a stream that has no outstanding section is an error, and settles
/// nothing.
pub proof fn unknown_acknowledgments_are_errors(table: TableView, stream_id: u64, rest: Seq<u8>)
    requires
        stream_id <= MAX_VARINT,
        !table.streams.contains_key(stream_id),
    ensures
        follow_spec(table, acknowledgment(stream_id) + rest).0 is Err,
        follow_spec(table, acknowledgment(stream_id) + rest).1 == table,
{
    lemma_acknowledgment(stream_id, rest);
}

/// A Stream Cancellation settles all the sections of its stream: all of their references are
/// given back. Nothing is known to have been received by it.
///
/// See <https://www.rfc-editor.org/rfc/rfc9204.html#section-4.4.2>.
pub proof fn cancellations_settle_all_sections(
    table: TableView,
    stream_id: u64,
    r: usize,
    other: u64,
    rest: Seq<u8>,
)
    requires
        stream_id <= MAX_VARINT,
        other != stream_id,
        table.streams.contains_key(stream_id) ==> forall|r: usize|
            total_of(table.streams[stream_id], r) <= #[trigger] count_of(table.ref_counts, r),
        table.streams.contains_key(stream_id) ==> forall|r: usize|
            super::dynamic::lists(table.streams[stream_id], r)
                ==> #[trigger] table.ref_counts.contains_key(r),
    ensures
        ({
            let (outcome, after, left) = follow_spec(table, cancellation(stream_id));
            &&& outcome is Ok
            &&& left == Seq::<u8>::empty()
            &&& same_entries(table, after)
            &&& after.known_received == table.known_received
            &&& !after.streams.contains_key(stream_id)
            &&& after.streams.contains_key(other) == table.streams.contains_key(other)
            &&& table.streams.contains_key(other) ==> after.streams[other] == table.streams[other]
            &&& count_of(after.ref_counts, r) == count_of(table.ref_counts, r) - if table.streams.contains_key(
                stream_id,
            ) {
                total_of(table.streams[stream_id], r)
            } else {
                0
            }
            &&& follow_spec(table, cancellation(stream_id) + rest) == follow_spec(after, rest)
        }),
{
    let s = cancellation(stream_id);
    assert(s + Seq::<u8>::empty() =~= s);
    lemma_cancellation(stream_id, Seq::empty());
    lemma_cancellation(stream_id, rest);
    if table.streams.contains_key(stream_id) {
        let sections = table.streams[stream_id];
        assert forall|r: usize| #[trigger]
            super::dynamic::lists(sections, r) implies table.ref_counts.contains_key(r) && total_of(
            sections,
            r,
        ) <= table.ref_counts[r] by {
            assert(total_of(sections, r) <= count_of(table.ref_counts, r));
        }
        super::dynamic::lemma_total_of_nonneg(sections, r);
        assert(total_of(sections, r) <= count_of(table.ref_counts, r));
    }
    let next = action_spec(table, Action::StreamCancel(StreamId(stream_id))).1;
    assert(follow_spec(next, Seq::empty()) == (
        Ok::<(), EncoderError>(()),
        next,
        Seq::<u8>::empty(),
    ));
    assert((s + rest).len() > rest.len());
}

/// An Insert Count Increment tells of exactly so many insertions more that have been received.
/// One of zero, or beyond what was inserted, is an error.
///
/// See <https://www.rfc-editor.org/rfc/rfc9204.html#section-4.4.3>.
pub proof fn increments_are_counted(table: TableView, n: usize, rest: Seq<u8>)
    ensures
        ({
            let (outcome, after, left) = follow_spec(table, increment(n));
            &&& n > 0 && table.known_received + n <= table.inserted() && table.inserted()
                <= usize::MAX ==> {
                &&& outcome is Ok
                &&& left == Seq::<u8>::empty()
                &&& after == (TableView {
                    known_received: (table.known_received + n) as usize,
                    ..table
                })
                &&& follow_spec(table, increment(n) + rest) == follow_spec(after, rest)
            }
            &&& n == 0 || table.known_received + n > table.inserted() ==> {
                &&& follow_spec(table, increment(n) + rest).0 is Err
                &&& follow_spec(table, increment(n) + rest).1 == table
            }
        }),
{
    let s = increment(n);
    assert(s + Seq::<u8>::empty() =~= s);
    lemma_increment(n, Seq::empty());
    lemma_increment(n, rest);
    let next = action_spec(table, Action::ReceivedRefIncrement(n)).1;
    assert(follow_spec(next, Seq::empty()) == (
        Ok::<(), EncoderError>(()),
        next,
        Seq::<u8>::empty(),
    ));
    assert((s + rest).len() > rest.len());
}

/// A sensitive line is never inserted, and no instruction tells of it: the table and the
/// instructions stay as they are.
///
/// See <https://www.rfc-editor.org/rfc/rfc9204.html#section-7.1.3>.
pub proof fn sensitive_lines_are_never_inserted(
    state: SectionState,
    base: usize,
    allow: bool,
    field: FieldView,
)
    requires
        field.sensitive,
    ensures
        ({
            let after = field_step(state, base, allow, field);
            &&& after.table.fields == state.table.fields
            &&& after.table.dropped == state.table.dropped
            &&& after.table.lines == state.table.lines
            &&& after.table.names == state.table.names
            &&& after.instructions == state.instructions
            &&& after.error == state.error
        }),
{
    reveal(field_step);
}

/// A section of which all lines are sensitive inserts nothing.
pub proof fn sensitive_sections_insert_nothing(
    state: SectionState,
    base: usize,
    allow: bool,
    fields: Seq<FieldView>,
)
    requires
        forall|i: int| 0 <= i < fields.len() ==> (#[trigger] fields[i]).sensitive,
    ensures
        ({
            let after = fields_step(state, base, allow, fields);
            &&& after.table.fields == state.table.fields
            &&& after.table.dropped == state.table.dropped
            &&& after.instructions == state.instructions
            &&& after.error == state.error
        }),
    decreases fields.len(),
{
    if fields.len() > 0 && state.error is None {
        sensitive_lines_are_never_inserted(state, base, allow, fields[0]);
        let rest = fields.skip(1);
        assert forall|i: int| 0 <= i < rest.len() implies (#[trigger] rest[i]).sensitive by {
            assert(rest[i] == fields[i + 1]);
        }
        sensitive_sections_insert_nothing(
            field_step(state, base, allow, fields[0]),
            base,
            allow,
            rest,
        );
    }
}

} // verus!
