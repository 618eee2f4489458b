//! What a run of lookups and insertions comes to, and what runs of them and of the peer's
//! answers keep.
use vstd::prelude::*;
use super::dynamic::encoder::{
    after_ref, counts_after, encoder_insertion, find_name_result, found_line, has_headroom,
    indexed, insertion_mapped, insertion_ref, lookup_ref, lookup_spec, referred,
};
use super::dynamic::{
    acknowledge_result, acknowledged, bumped, cancel_result, canceled, count_of, insert_result,
    inserted_view, lemma_inserted, released, sent, Error, SectionView, TableView,
};
use super::encoder::may_block;
use super::field::FieldView;
use super::references::lemma_released;

verus! {

/// What can be done with a section that is being encoded.
pub enum SectionOp {
    Find(FieldView),
    FindName(Seq<u8>),
    Insert(FieldView),
}

/// A section that is being encoded: the table, and what the section refers to.
#[verifier::ext_equal]
pub struct OpenSection {
    pub table: TableView,
    pub refs: Map<usize, usize>,
}

/// A section with one reference more, if any.
pub open spec fn with_ref(section: OpenSection, reference: Option<usize>) -> OpenSection {
    OpenSection {
        table: after_ref(section.table, reference),
        refs: counts_after(section.refs, reference),
    }
}

/// A section after a lookup or an insertion.
pub open spec fn op_step(
    section: OpenSection,
    base: usize,
    allow_blocking: bool,
    op: SectionOp,
) -> OpenSection {
    match op {
        SectionOp::Find(field) => with_ref(
            section,
            lookup_ref(
                lookup_spec(
                    found_line(section.table, field),
                    base,
                    section.table.known_received,
                    allow_blocking,
                ),
            ),
        ),
        SectionOp::FindName(name) => with_ref(
            section,
            lookup_ref(find_name_result(section.table, name, base, allow_blocking)),
        ),
        SectionOp::Insert(field) => match encoder_insertion(section.table, field, allow_blocking) {
            Err(_) => section,
            Ok(None) => with_ref(
                section,
                lookup_ref(find_name_result(section.table, field.name, base, allow_blocking)),
            ),
            Ok(Some(absolute)) => {
                let inserted = inserted_view(section.table, field);
                OpenSection {
                    table: after_ref(
                        referred(insertion_mapped(inserted, field, absolute), absolute),
                        insertion_ref(inserted, field),
                    ),
                    refs: counts_after(
                        bumped(section.refs, absolute),
                        insertion_ref(inserted, field),
                    ),
                }
            },
        },
    }
}

/// A section after a run of lookups and insertions.
pub open spec fn ops_run(
    section: OpenSection,
    base: usize,
    allow_blocking: bool,
    ops: Seq<SectionOp>,
) -> OpenSection
    decreases ops.len(),
{
    if ops.len() == 0 {
        section
    } else {
        ops_run(op_step(section, base, allow_blocking, ops[0]), base, allow_blocking, ops.skip(1))
    }
}

/// A section of a stream after a run of lookups and insertions.
pub open spec fn section_after(table: TableView, stream_id: u64, ops: Seq<SectionOp>) -> OpenSection {
    ops_run(
        OpenSection { table: indexed(table), refs: Map::empty() },
        table.fields.len() as usize,
        may_block(table, stream_id),
        ops,
    )
}

/// The table when a section is given up.
pub open spec fn given_up(section: OpenSection) -> TableView {
    TableView { ref_counts: released(section.table.ref_counts, section.refs), ..section.table }
}

/// Whether the table counts what it counted before, and the references of the section.
spec fn counts_both(before: TableView, section: OpenSection, n: int) -> bool {
    &&& forall|r: usize| #[trigger]
        count_of(section.table.ref_counts, r) == count_of(before.ref_counts, r) + count_of(
            section.refs,
            r,
        )
    &&& forall|r: usize| #[trigger] count_of(section.table.ref_counts, r) + n <= usize::MAX
    &&& section.table.streams == before.streams
    &&& section.table.known_received == before.known_received
    &&& section.table.blocked_max == before.blocked_max
    &&& section.table.inserted() >= before.inserted()
}

proof fn lemma_ref_counts_both(
    before: TableView,
    section: OpenSection,
    reference: Option<usize>,
    n: int,
)
    requires
        counts_both(before, section, n),
        n >= 1,
    ensures
        counts_both(before, with_ref(section, reference), n - 1),
{
    let next = with_ref(section, reference);
    assert forall|r: usize| #[trigger]
        count_of(next.table.ref_counts, r) == count_of(before.ref_counts, r) + count_of(next.refs, r)
            && count_of(next.table.ref_counts, r) + (n - 1) <= usize::MAX by {
        assert(count_of(section.table.ref_counts, r) == count_of(before.ref_counts, r) + count_of(
            section.refs,
            r,
        ));
        assert(count_of(section.table.ref_counts, r) + n <= usize::MAX);
        assert(count_of(before.ref_counts, r) >= 0);
    }
}

proof fn lemma_op_counts_both(
    before: TableView,
    section: OpenSection,
    base: usize,
    allow_blocking: bool,
    op: SectionOp,
    n: int,
)
    requires
        counts_both(before, section, n),
        n >= 2,
    ensures
        counts_both(before, op_step(section, base, allow_blocking, op), n - 2),
{
    assert forall|m: int| m <= n implies #[trigger] counts_both(before, section, m) by {
        assert forall|r: usize| #[trigger] count_of(section.table.ref_counts, r) + m
            <= usize::MAX by {
            assert(count_of(section.table.ref_counts, r) + n <= usize::MAX);
        }
    }
    assert(counts_both(before, section, n - 1));
    assert(counts_both(before, section, n - 2));
    let by_name = |name: Seq<u8>|
        lookup_ref(find_name_result(section.table, name, base, allow_blocking));
    match op {
        SectionOp::Find(field) => {
            let found = lookup_spec(
                found_line(section.table, field),
                base,
                section.table.known_received,
                allow_blocking,
            );
            lemma_ref_counts_both(before, section, lookup_ref(found), n - 1);
        },
        SectionOp::FindName(name) => {
            lemma_ref_counts_both(before, section, by_name(name), n - 1);
        },
        SectionOp::Insert(field) => {
            match encoder_insertion(section.table, field, allow_blocking) {
                Err(_) => {},
                Ok(None) => {
                    lemma_ref_counts_both(before, section, by_name(field.name), n - 1);
                },
                Ok(Some(absolute)) => {
                    lemma_inserted(section.table, field);
                    let inserted = inserted_view(section.table, field);
                    let middle = OpenSection {
                        table: insertion_mapped(inserted, field, absolute),
                        refs: section.refs,
                    };
                    assert(counts_both(before, middle, n));
                    lemma_ref_counts_both(before, middle, Some(absolute), n);
                    lemma_ref_counts_both(
                        before,
                        with_ref(middle, Some(absolute)),
                        insertion_ref(inserted, field),
                        n - 1,
                    );
                },
            }
        },
    }
}

proof fn lemma_run_counts_both(
    before: TableView,
    section: OpenSection,
    base: usize,
    allow_blocking: bool,
    ops: Seq<SectionOp>,
)
    requires
        counts_both(before, section, 2 * (ops.len() as int)),
    ensures
        counts_both(before, ops_run(section, base, allow_blocking, ops), 0),
    decreases ops.len(),
{
    if ops.len() > 0 {
        let n = 2 * (ops.len() as int);
        lemma_op_counts_both(before, section, base, allow_blocking, ops[0], n);
        assert(n - 2 == 2 * (ops.skip(1).len() as int));
        lemma_run_counts_both(
            before,
            op_step(section, base, allow_blocking, ops[0]),
            base,
            allow_blocking,
            ops.skip(1),
        );
    }
}

/// A section that is given up leaves every reference count as it was before the section was
/// begun, and no section is recorded. What it inserted stays.
pub proof fn sections_that_are_given_up_leave_no_reference(
    table: TableView,
    stream_id: u64,
    ops: Seq<SectionOp>,
)
    requires
        has_headroom(table, 2 * (ops.len() as int)),
    ensures
        ({
            let section = section_after(table, stream_id, ops);
            let after = given_up(section);
            &&& forall|r: usize| #[trigger]
                count_of(after.ref_counts, r) == count_of(table.ref_counts, r)
            &&& after.streams == table.streams
            &&& after.known_received == table.known_received
            &&& after.fields == section.table.fields
            &&& after.inserted() == section.table.inserted()
            &&& after.inserted() >= table.inserted()
        }),
{
    let start = OpenSection { table: indexed(table), refs: Map::<usize, usize>::empty() };
    let base = table.fields.len() as usize;
    let allow_blocking = may_block(table, stream_id);
    assert(counts_both(table, start, 2 * (ops.len() as int))) by {
        assert forall|r: usize| #[trigger] count_of(start.table.ref_counts, r) + 2 * (
        ops.len() as int) <= usize::MAX by {
            assert(count_of(table.ref_counts, r) + 2 * (ops.len() as int) <= usize::MAX);
        }
    }
    lemma_run_counts_both(table, start, base, allow_blocking, ops);
    let section = section_after(table, stream_id, ops);
    assert forall|r: usize| #[trigger]
        count_of(given_up(section).ref_counts, r) == count_of(table.ref_counts, r) by {
        assert(count_of(section.table.ref_counts, r) == count_of(table.ref_counts, r) + count_of(
            section.refs,
            r,
        ));
        assert(count_of(table.ref_counts, r) >= 0);
        lemma_released(section.table.ref_counts, section.refs, r);
    }
}

/// Whether a section refers only to what the decoder is known to have.
spec fn refers_to_known(section: OpenSection) -> bool {
    forall|r: usize| #[trigger] section.refs.contains_key(r) ==> r <= section.table.known_received
}

proof fn lemma_run_known(section: OpenSection, base: usize, ops: Seq<SectionOp>)
    requires
        refers_to_known(section),
    ensures
        refers_to_known(ops_run(section, base, false, ops)),
        ops_run(section, base, false, ops).table.fields == section.table.fields,
        ops_run(section, base, false, ops).table.dropped == section.table.dropped,
    decreases ops.len(),
{
    if ops.len() > 0 {
        let next = op_step(section, base, false, ops[0]);
        assert(refers_to_known(next));
        lemma_run_known(next, base, ops.skip(1));
    }
}

proof fn lemma_run_frame(
    section: OpenSection,
    base: usize,
    allow_blocking: bool,
    ops: Seq<SectionOp>,
)
    ensures
        ({
            let next = ops_run(section, base, allow_blocking, ops);
            &&& next.table.streams == section.table.streams
            &&& next.table.known_received == section.table.known_received
            &&& next.table.blocked_max == section.table.blocked_max
            &&& section.table.inserted() <= usize::MAX ==> next.table.inserted() <= usize::MAX
        }),
    decreases ops.len(),
{
    if ops.len() > 0 {
        if let SectionOp::Insert(field) = ops[0] {
            if insert_result(section.table, field) matches Ok(Some(_)) {
                lemma_inserted(section.table, field);
            }
        }
        lemma_run_frame(
            op_step(section, base, allow_blocking, ops[0]),
            base,
            allow_blocking,
            ops.skip(1),
        );
    }
}

/// A section may insert, or refer to what the decoder is not known to have, if and only if its
/// stream is blocked already or fewer streams are than the peer permits. Where it may not, no
/// run of lookups and insertions inserts anything or refers to any such entry; where it may,
/// every entry that is found is referred to, and what has room is inserted.
pub proof fn sections_wait_only_where_they_may(
    table: TableView,
    stream_id: u64,
    ops: Seq<SectionOp>,
    current: TableView,
    field: FieldView,
    absolute: usize,
    base: usize,
)
    ensures
        ({
            let allow = may_block(table, stream_id);
            let section = section_after(table, stream_id, ops);
            &&& allow <==> (table.is_blocked(stream_id) || table.blocked().len()
                < table.blocked_max)
            &&& !allow ==> {
                &&& section.table.fields == table.fields
                &&& section.table.inserted() == table.inserted()
                &&& forall|r: usize| #[trigger]
                    section.refs.contains_key(r) ==> r <= table.known_received
                &&& encoder_insertion(current, field, allow) == Ok::<Option<usize>, Error>(None)
                &&& absolute > current.known_received ==> lookup_ref(
                    lookup_spec(Some(absolute), base, current.known_received, allow),
                ) is None
            }
            &&& allow || absolute <= current.known_received ==> lookup_ref(
                lookup_spec(Some(absolute), base, current.known_received, allow),
            ) == Some(absolute)
            &&& allow && insert_result(current, field) is Ok ==> encoder_insertion(
                current,
                field,
                allow,
            ) == insert_result(current, field)
        }),
{
    let start = OpenSection { table: indexed(table), refs: Map::<usize, usize>::empty() };
    let fields = table.fields.len() as usize;
    if !may_block(table, stream_id) {
        lemma_run_known(start, fields, ops);
    }
    lemma_run_frame(start, fields, may_block(table, stream_id), ops);
}

/// What can happen to the table of an encoder.
pub enum TableStep {
    /// A section, with the number of insertions that it is committed with, or given up.
    Section { stream_id: u64, ops: Seq<SectionOp>, required: Option<usize> },
    Acknowledge(u64),
    Cancel(u64),
    Receive(usize),
}

/// The table after what happened to it. Where an answer of the peer is refused, it is as it
/// was.
pub open spec fn table_step(table: TableView, step: TableStep) -> TableView {
    match step {
        TableStep::Section { stream_id, ops, required } => {
            let section = section_after(table, stream_id, ops);
            match required {
                None => given_up(section),
                Some(required) => if required != 0 {
                    sent(section.table, stream_id, SectionView { required, refs: section.refs })
                } else {
                    section.table
                },
            }
        },
        TableStep::Acknowledge(stream_id) => if acknowledge_result(table, stream_id) is Ok {
            acknowledged(table, stream_id)
        } else {
            table
        },
        TableStep::Cancel(stream_id) => if cancel_result(table, stream_id) is Ok {
            canceled(table, stream_id)
        } else {
            table
        },
        TableStep::Receive(increment) => if increment > 0 && table.known_received + increment
            <= table.inserted() {
            TableView { known_received: (table.known_received + increment) as usize, ..table }
        } else {
            table
        },
    }
}

/// Whether a section is committed with no more insertions than it refers to.
pub open spec fn step_in_order(table: TableView, step: TableStep) -> bool {
    match step {
        TableStep::Section { stream_id, ops, required: Some(required) } => required == 0 || exists|
            r: usize,
        | #[trigger]
            section_after(table, stream_id, ops).refs.contains_key(r) && required <= r,
        _ => true,
    }
}

/// The table after a run of steps.
pub open spec fn steps_run(table: TableView, steps: Seq<TableStep>) -> TableView
    decreases steps.len(),
{
    if steps.len() == 0 {
        table
    } else {
        steps_run(table_step(table, steps[0]), steps.skip(1))
    }
}

/// Whether every section of a run is committed with no more insertions than it refers to.
pub open spec fn steps_in_order(table: TableView, steps: Seq<TableStep>) -> bool
    decreases steps.len(),
{
    steps.len() == 0 || step_in_order(table, steps[0]) && steps_in_order(
        table_step(table, steps[0]),
        steps.skip(1),
    )
}

/// Whether every stream that is listed has a section, and the insertions can be counted.
pub open spec fn table_in_order(table: TableView) -> bool {
    &&& forall|id: u64| #[trigger] table.streams.contains_key(id) ==> table.streams[id].len() > 0
    &&& table.inserted() <= usize::MAX
}

/// Whether no more streams are blocked than the peer permits.
pub open spec fn within_limit(table: TableView) -> bool {
    table.blocked().finite() && table.blocked().len() <= table.blocked_max
}

/// A step after which no stream is blocked that was not before.
proof fn lemma_fewer_blocked(before: TableView, after: TableView)
    requires
        within_limit(before),
        after.blocked_max == before.blocked_max,
        forall|id: u64| #[trigger] after.is_blocked(id) ==> before.is_blocked(id),
    ensures
        within_limit(after),
{
    assert(after.blocked().subset_of(before.blocked())) by {
        assert forall|id: u64| #[trigger] after.blocked().contains(id) implies before.blocked().contains(
            id,
        ) by {
            assert(after.is_blocked(id));
        }
    }
    vstd::set_lib::lemma_len_subset(after.blocked(), before.blocked());
}

proof fn lemma_step_within_limit(table: TableView, step: TableStep)
    requires
        within_limit(table),
        table_in_order(table),
        step_in_order(table, step),
    ensures
        within_limit(table_step(table, step)),
        table_in_order(table_step(table, step)),
        table_step(table, step).blocked_max == table.blocked_max,
{
    let after = table_step(table, step);
    match step {
        TableStep::Section { stream_id, ops, required } => {
            let section = section_after(table, stream_id, ops);
            let allow = may_block(table, stream_id);
            let start = OpenSection { table: indexed(table), refs: Map::<usize, usize>::empty() };
            lemma_run_frame(start, table.fields.len() as usize, allow, ops);
            if !allow {
                lemma_run_known(start, table.fields.len() as usize, ops);
            }
            assert(after.known_received == table.known_received);
            assert(after.blocked_max == table.blocked_max);
            assert forall|id: u64| id != stream_id implies table.is_blocked(id) == after.is_blocked(
                id,
            ) by {
                assert(after.streams.contains_key(id) == table.streams.contains_key(id));
                if table.streams.contains_key(id) {
                    assert(after.streams[id] == table.streams[id]);
                }
            }
            if after.is_blocked(stream_id) && !table.is_blocked(stream_id) {
                let i = choose|i: int|
                    0 <= i < after.streams[stream_id].len() && (
                    #[trigger] after.streams[stream_id][i]).required > after.known_received;
                if table.streams.contains_key(stream_id) && i < table.streams[stream_id].len() {
                    assert(after.streams[stream_id][i] == table.streams[stream_id][i]);
                    assert(table.is_blocked(stream_id));
                }
                assert(allow);
                assert(after.blocked() =~= table.blocked().insert(stream_id));
            } else {
                lemma_fewer_blocked(table, after);
            }
        },
        TableStep::Acknowledge(stream_id) => {
            assert forall|id: u64| #[trigger] after.is_blocked(id) implies table.is_blocked(id) by {
                let i = choose|i: int|
                    0 <= i < after.streams[id].len() && (#[trigger] after.streams[id][i]).required
                        > after.known_received;
                if acknowledge_result(table, stream_id) is Ok && id == stream_id {
                    assert(after.streams[id][i] == table.streams[id][i + 1]);
                } else {
                    assert(after.streams[id][i] == table.streams[id][i]);
                }
            }
            lemma_fewer_blocked(table, after);
        },
        TableStep::Cancel(stream_id) => {
            assert forall|id: u64| #[trigger] after.is_blocked(id) implies table.is_blocked(id) by {
                let i = choose|i: int|
                    0 <= i < after.streams[id].len() && (#[trigger] after.streams[id][i]).required
                        > after.known_received;
                assert(after.streams[id][i] == table.streams[id][i]);
            }
            lemma_fewer_blocked(table, after);
        },
        TableStep::Receive(_) => {
            assert forall|id: u64| #[trigger] after.is_blocked(id) implies table.is_blocked(id) by {
                let i = choose|i: int|
                    0 <= i < after.streams[id].len() && (#[trigger] after.streams[id][i]).required
                        > after.known_received;
                assert(after.streams == table.streams);
                assert(after.known_received >= table.known_received);
                assert(table.streams[id][i].required > table.known_received);
            }
            lemma_fewer_blocked(table, after);
        },
    }
}

/// However sections are encoded, committed and given up, and whatever the peer acknowledges,
/// cancels and receives in between, no more streams are blocked than it permits. A stream
/// counts once, however many of its sections wait.
pub proof fn no_run_blocks_more_streams_than_permitted(table: TableView, steps: Seq<TableStep>)
    requires
        within_limit(table),
        table_in_order(table),
        steps_in_order(table, steps),
    ensures
        within_limit(steps_run(table, steps)),
        steps_run(table, steps).blocked_max == table.blocked_max,
    decreases steps.len(),
{
    if steps.len() > 0 {
        lemma_step_within_limit(table, steps[0]);
        no_run_blocks_more_streams_than_permitted(table_step(table, steps[0]), steps.skip(1));
    }
}

} // verus!
