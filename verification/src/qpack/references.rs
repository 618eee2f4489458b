//! Every reference of an outstanding field section is counted, whatever the encoder does.
use vstd::prelude::*;
use super::dynamic::encoder::{
    counts_after, encoder_insertion, find_name_result, found_line, has_headroom,
    insertion_ref, lookup_ref, lookup_spec,
};
use super::dynamic::{
    DynamicLookupResult, acknowledge_result, acknowledged, bumped, cancel_result, canceled,
    count_of, empty_table, inserted_view, lemma_inserted, lemma_latest_bounds,
    lemma_total_of_nonneg, lists, refs_of, released, total_of, Error, SectionView, TableView,
};
use super::encoder::{
    action_spec, after_section, field_step, fields_step, follow_spec, lemma_step_keeps,
    looked_up, may_block, parse_action, section_of, section_start, Action, EncoderError,
    SectionState,
};
use super::field::FieldView;
use super::static_::find_spec;

verus! {

/// How often the outstanding sections of a stream refer to insertion `r`.
pub open spec fn stream_total(streams: Map<u64, Seq<SectionView>>, id: u64, r: usize) -> int {
    if streams.contains_key(id) {
        total_of(streams[id], r)
    } else {
        0
    }
}

/// How often the outstanding sections of some streams refer to insertion `r`.
pub open spec fn outstanding(streams: Map<u64, Seq<SectionView>>, ids: Seq<u64>, r: usize) -> int
    decreases ids.len(),
{
    if ids.len() == 0 {
        0
    } else {
        outstanding(streams, ids.drop_last(), r) + stream_total(streams, ids.last(), r)
    }
}

/// Whether every insertion is counted as often as the outstanding sections of any streams,
/// and `refs` besides, refer to it.
pub open spec fn counted(
    streams: Map<u64, Seq<SectionView>>,
    counts: Map<usize, usize>,
    refs: Map<usize, usize>,
) -> bool {
    forall|ids: Seq<u64>, r: usize|
        ids.no_duplicates() ==> #[trigger] outstanding(streams, ids, r) + count_of(refs, r)
            <= count_of(counts, r)
}

/// Whether a section lists only what it refers to, and requires no more than was inserted.
pub open spec fn in_order(section: SectionView, inserted: int) -> bool {
    &&& section.required <= inserted
    &&& positive(section.refs)
}

/// Whether only what is referred to is listed.
pub open spec fn positive(refs: Map<usize, usize>) -> bool {
    forall|r: usize| #[trigger] refs.contains_key(r) ==> refs[r] > 0
}

pub open spec fn sections_in_order(table: TableView) -> bool {
    forall|id: u64| #[trigger]
        table.streams.contains_key(id) ==> table.streams[id].len() > 0 && forall|i: int|
            0 <= i < table.streams[id].len() ==> in_order(
                #[trigger] table.streams[id][i],
                table.inserted(),
            )
}

/// Whether the references of all outstanding sections are counted.
pub open spec fn accounted(table: TableView) -> bool {
    counted(table.streams, table.ref_counts, Map::empty()) && sections_in_order(table)
}

/// Two states of the outstanding sections that differ in one stream.
proof fn lemma_outstanding_differs(
    before: Map<u64, Seq<SectionView>>,
    after: Map<u64, Seq<SectionView>>,
    id: u64,
    ids: Seq<u64>,
    r: usize,
)
    requires
        ids.no_duplicates(),
        forall|other: u64|
            other != id ==> stream_total(before, other, r) == #[trigger] stream_total(
                after,
                other,
                r,
            ),
    ensures
        outstanding(after, ids, r) == outstanding(before, ids, r) + if ids.contains(id) {
            stream_total(after, id, r) - stream_total(before, id, r)
        } else {
            0
        },
    decreases ids.len(),
{
    if ids.len() > 0 {
        let head = ids.drop_last();
        assert(head.no_duplicates());
        lemma_outstanding_differs(before, after, id, head, r);
        if ids.last() == id {
            assert(!head.contains(id));
            assert(ids.contains(id)) by {
                assert(ids[ids.len() - 1] == id);
            }
        } else {
            assert(ids.contains(id) == head.contains(id)) by {
                if ids.contains(id) {
                    let i = choose|i: int| 0 <= i < ids.len() && ids[i] == id;
                    assert(head[i] == id);
                }
                if head.contains(id) {
                    let i = choose|i: int| 0 <= i < head.len() && head[i] == id;
                    assert(ids[i] == id);
                }
            }
        }
    }
}

/// The references of a run of sections are those of its first and of the others.
proof fn lemma_total_of_first(sections: Seq<SectionView>, r: usize)
    requires
        sections.len() > 0,
    ensures
        total_of(sections, r) == count_of(sections[0].refs, r) + total_of(sections.skip(1), r),
    decreases sections.len(),
{
    if sections.len() == 1 {
        assert(sections.drop_last() =~= Seq::<SectionView>::empty());
        assert(sections.skip(1) =~= Seq::<SectionView>::empty());
        assert(total_of(sections.drop_last(), r) == 0);
        assert(total_of(sections.skip(1), r) == 0);
    } else {
        let head = sections.drop_last();
        lemma_total_of_first(head, r);
        assert(head.skip(1) =~= sections.skip(1).drop_last());
        assert(sections.skip(1).last() == sections.last());
    }
}

/// What one of the sections lists they refer to.
proof fn lemma_listed(sections: Seq<SectionView>, r: usize)
    requires
        lists(sections, r),
        forall|i: int| 0 <= i < sections.len() ==> positive((#[trigger] sections[i]).refs),
    ensures
        total_of(sections, r) > 0,
    decreases sections.len(),
{
    let head = sections.drop_last();
    lemma_total_of_nonneg(head, r);
    assert(positive(sections[sections.len() - 1].refs));
    if lists(head, r) {
        assert forall|i: int| 0 <= i < head.len() implies positive((#[trigger] head[i]).refs) by {
            assert(head[i] == sections[i]);
        }
        lemma_listed(head, r);
    }
}

/// All the sections of one stream are counted.
proof fn lemma_stream_counted(
    streams: Map<u64, Seq<SectionView>>,
    counts: Map<usize, usize>,
    refs: Map<usize, usize>,
    id: u64,
    r: usize,
)
    requires
        counted(streams, counts, refs),
    ensures
        stream_total(streams, id, r) + count_of(refs, r) <= count_of(counts, r),
{
    let ids = Seq::<u64>::empty().push(id);
    assert(ids.no_duplicates());
    assert(ids.drop_last() =~= Seq::<u64>::empty());
    assert(outstanding(streams, ids.drop_last(), r) == 0);
    assert(outstanding(streams, ids, r) == stream_total(streams, id, r));
}

proof fn lemma_outstanding_nonneg(streams: Map<u64, Seq<SectionView>>, ids: Seq<u64>, r: usize)
    ensures
        outstanding(streams, ids, r) >= 0,
    decreases ids.len(),
{
    if ids.len() > 0 {
        lemma_outstanding_nonneg(streams, ids.drop_last(), r);
        if streams.contains_key(ids.last()) {
            lemma_total_of_nonneg(streams[ids.last()], r);
        }
    }
}

/// Whether each count can grow by `n`.
spec fn headroom(counts: Map<usize, usize>, n: int) -> bool {
    forall|r: usize| #[trigger] count_of(counts, r) + n <= usize::MAX
}

/// One reference more, both counted and kept.
proof fn lemma_referred(
    streams: Map<u64, Seq<SectionView>>,
    counts: Map<usize, usize>,
    refs: Map<usize, usize>,
    reference: Option<usize>,
    n: int,
)
    requires
        counted(streams, counts, refs),
        positive(refs),
        headroom(counts, n),
        n >= 1,
    ensures
        counted(streams, counts_after(counts, reference), counts_after(refs, reference)),
        positive(counts_after(refs, reference)),
        headroom(counts_after(counts, reference), n - 1),
{
    let more_counts = counts_after(counts, reference);
    let more_refs = counts_after(refs, reference);
    assert forall|r: usize| #[trigger] count_of(more_counts, r) + (n - 1) <= usize::MAX by {
        assert(count_of(counts, r) + n <= usize::MAX);
    }
    if let Some(new) = reference {
        assert forall|ids: Seq<u64>, r: usize|
            ids.no_duplicates() implies #[trigger] outstanding(streams, ids, r) + count_of(
            more_refs,
            r,
        ) <= count_of(more_counts, r) by {
            assert(outstanding(streams, ids, r) + count_of(refs, r) <= count_of(counts, r));
            assert(count_of(counts, r) + n <= usize::MAX);
            lemma_outstanding_nonneg(streams, ids, r);
        }
        assert(outstanding(streams, Seq::empty(), new) + count_of(refs, new) <= count_of(
            counts,
            new,
        ));
        lemma_outstanding_nonneg(streams, Seq::empty(), new);
        assert(count_of(counts, new) + n <= usize::MAX);
    }
}

/// Whether what is found is an insertion that was made.
pub open spec fn finds_insertions(table: TableView) -> bool {
    &&& forall|key: (Seq<u8>, Seq<u8>)| #[trigger]
        table.lines.contains_key(key) ==> table.lines[key] <= table.inserted()
    &&& forall|name: Seq<u8>| #[trigger]
        table.names.contains_key(name) ==> table.names[name] <= table.inserted()
}

/// Whether the references of a section that is being encoded are counted.
pub open spec fn section_counted(state: SectionState) -> bool {
    &&& counted(state.table.streams, state.table.ref_counts, state.refs)
    &&& positive(state.refs)
    &&& finds_insertions(state.table)
    &&& state.required <= state.table.inserted()
}

proof fn lemma_step_counted(state: SectionState, base: usize, allow_blocking: bool, field: FieldView)
    requires
        section_counted(state),
        headroom(state.table.ref_counts, 3),
    ensures
        ({
            let next = field_step(state, base, allow_blocking, field);
            &&& section_counted(next)
            &&& next.table.streams == state.table.streams
            &&& next.table.inserted() >= state.table.inserted()
        }),
{
    reveal(field_step);
    let streams = state.table.streams;
    let counts = state.table.ref_counts;
    let next = field_step(state, base, allow_blocking, field);
    let name = find_name_result(state.table, field.name, base, allow_blocking);
    lemma_referred(streams, counts, state.refs, lookup_ref(name), 3);
    let found = lookup_spec(
        found_line(state.table, field),
        base,
        state.table.known_received,
        allow_blocking,
    );
    lemma_referred(streams, counts, state.refs, lookup_ref(found), 3);
    if !field.sensitive && find_spec(field.name, field.value) is None {
        let middle = looked_up(state, found);
        if let DynamicLookupResult::Relative { .. } = found {
        } else {
            match encoder_insertion(middle.table, field, allow_blocking) {
                Err(_) => {},
                Ok(Some(absolute)) => {
                    lemma_inserted(middle.table, field);
                    let inserted = inserted_view(middle.table, field);
                    let earlier = insertion_ref(inserted, field);
                    lemma_referred(
                        streams,
                        middle.table.ref_counts,
                        middle.refs,
                        Some(absolute),
                        2,
                    );
                    lemma_referred(
                        streams,
                        bumped(middle.table.ref_counts, absolute),
                        bumped(middle.refs, absolute),
                        earlier,
                        1,
                    );
                    assert(finds_insertions(inserted));
                },
                Ok(None) => {
                    let name = find_name_result(middle.table, field.name, base, allow_blocking);
                    lemma_referred(
                        streams,
                        middle.table.ref_counts,
                        middle.refs,
                        lookup_ref(name),
                        2,
                    );
                },
            }
        }
    }
}

proof fn lemma_steps_counted(
    state: SectionState,
    base: usize,
    allow_blocking: bool,
    fields: Seq<FieldView>,
)
    requires
        section_counted(state),
        has_headroom(state.table, 3 * (fields.len() as int)),
    ensures
        ({
            let next = fields_step(state, base, allow_blocking, fields);
            &&& section_counted(next)
            &&& next.table.streams == state.table.streams
            &&& next.table.inserted() >= state.table.inserted()
        }),
    decreases fields.len(),
{
    if fields.len() > 0 && state.error is None {
        let n = 3 * fields.len() as int;
        assert forall|r: usize| #[trigger] count_of(state.table.ref_counts, r) + 3 <= usize::MAX by {
            assert(count_of(state.table.ref_counts, r) + n <= usize::MAX);
        }
        lemma_step_counted(state, base, allow_blocking, fields[0]);
        lemma_step_keeps(state, base, allow_blocking, fields[0], n);
        let next = field_step(state, base, allow_blocking, fields[0]);
        assert(n - 3 == 3 * fields.skip(1).len());
        lemma_steps_counted(next, base, allow_blocking, fields.skip(1));
    }
}

/// Counts without references that were counted.
pub(super) proof fn lemma_released(counts: Map<usize, usize>, refs: Map<usize, usize>, r: usize)
    requires
        count_of(refs, r) <= count_of(counts, r),
    ensures
        count_of(released(counts, refs), r) == count_of(counts, r) - count_of(refs, r),
{
}

/// A run of sections with another at its end refers to what that refers to besides.
proof fn lemma_total_of_push(sections: Seq<SectionView>, section: SectionView, r: usize)
    ensures
        total_of(sections.push(section), r) == total_of(sections, r) + count_of(section.refs, r),
{
    assert(sections.push(section).drop_last() =~= sections);
}

/// A table that nothing was done with has nothing to account for.
pub proof fn new_tables_are_accounted()
    ensures
        accounted(empty_table()),
{
    assert forall|ids: Seq<u64>, r: usize|
        ids.no_duplicates() implies #[trigger] outstanding(empty_table().streams, ids, r)
        + count_of(Map::empty(), r) <= count_of(empty_table().ref_counts, r) by {
        lemma_none_outstanding(ids, r);
    }
}

proof fn lemma_none_outstanding(ids: Seq<u64>, r: usize)
    ensures
        outstanding(Map::empty(), ids, r) == 0,
    decreases ids.len(),
{
    if ids.len() > 0 {
        lemma_none_outstanding(ids.drop_last(), r);
    }
}

/// Encoding a field section keeps every reference counted: those of the sections that are
/// outstanding, and those of the new section, which is outstanding too unless it requires no
/// insertion.
pub proof fn encoding_keeps_references_counted(
    table: TableView,
    stream_id: u64,
    fields: Seq<FieldView>,
)
    requires
        accounted(table),
        0 <= table.dropped,
        table.inserted() <= usize::MAX,
        has_headroom(table, 3 * (fields.len() as int)),
    ensures
        accounted(after_section(section_of(table, stream_id, fields), stream_id)),
{
    let start = section_start(table);
    lemma_latest_bounds(table.fields, table.dropped);
    assert(start.table.ref_counts == table.ref_counts);
    assert forall|r: usize| #[trigger] count_of(start.table.ref_counts, r) + 3 * fields.len()
        <= usize::MAX by {
        assert(count_of(table.ref_counts, r) + 3 * fields.len() <= usize::MAX);
    }
    lemma_steps_counted(
        start,
        table.fields.len() as usize,
        may_block(table, stream_id),
        fields,
    );
    let state = section_of(table, stream_id, fields);
    let after = after_section(state, stream_id);
    let streams = state.table.streams;
    assert forall|ids: Seq<u64>, r: usize| ids.no_duplicates() implies #[trigger] outstanding(
        after.streams,
        ids,
        r,
    ) + count_of(Map::empty(), r) <= count_of(after.ref_counts, r) by {
        assert(outstanding(streams, ids, r) + count_of(state.refs, r) <= count_of(
            state.table.ref_counts,
            r,
        ));
        lemma_outstanding_nonneg(streams, ids, r);
        if state.error is Some {
            lemma_released(state.table.ref_counts, state.refs, r);
        } else if state.required != 0 {
            let earlier = if streams.contains_key(stream_id) {
                streams[stream_id]
            } else {
                Seq::empty()
            };
            let section = SectionView { required: state.required, refs: state.refs };
            lemma_total_of_push(earlier, section, r);
            assert(after.streams == streams.insert(stream_id, earlier.push(section)));
            lemma_outstanding_differs(streams, after.streams, stream_id, ids, r);
        }
    }
    assert forall|id: u64| #[trigger] after.streams.contains_key(id) implies after.streams[id].len()
        > 0 && (forall|i: int|
        0 <= i < after.streams[id].len() ==> in_order(
            #[trigger] after.streams[id][i],
            after.inserted(),
        )) by {
        assert(after.inserted() == state.table.inserted());
        if table.streams.contains_key(id) {
            assert forall|i: int| 0 <= i < after.streams[id].len() implies in_order(
                #[trigger] after.streams[id][i],
                after.inserted(),
            ) by {
                if i < table.streams[id].len() {
                    assert(after.streams[id][i] == table.streams[id][i]);
                }
            }
        }
    }
}

/// One stream's sections are taken out, or some of them, with their references.
proof fn lemma_settled(
    table: TableView,
    after: TableView,
    stream_id: u64,
    refs: Map<usize, usize>,
)
    requires
        accounted(table),
        forall|r: usize| #[trigger] count_of(refs, r) >= 0,
        forall|r: usize|
            stream_total(table.streams, stream_id, r) == #[trigger] stream_total(
                after.streams,
                stream_id,
                r,
            ) + count_of(refs, r),
        forall|r: usize| #[trigger] stream_total(after.streams, stream_id, r) >= 0,
        forall|other: u64|
            other != stream_id ==> (#[trigger] after.streams.contains_key(other)
                == table.streams.contains_key(other)) && (table.streams.contains_key(other)
                ==> after.streams[other] == table.streams[other]),
        after.ref_counts == released(table.ref_counts, refs),
    ensures
        counted(after.streams, after.ref_counts, Map::empty()),
{
    assert forall|ids: Seq<u64>, r: usize| ids.no_duplicates() implies #[trigger] outstanding(
        after.streams,
        ids,
        r,
    ) + count_of(Map::empty(), r) <= count_of(after.ref_counts, r) by {
        lemma_stream_counted(table.streams, table.ref_counts, Map::empty(), stream_id, r);
        assert(stream_total(after.streams, stream_id, r) >= 0);
        lemma_released(table.ref_counts, refs, r);
        assert forall|other: u64| other != stream_id implies stream_total(table.streams, other, r)
            == #[trigger] stream_total(after.streams, other, r) by {
            assert(after.streams.contains_key(other) == table.streams.contains_key(other));
        }
        lemma_outstanding_differs(table.streams, after.streams, stream_id, ids, r);
        if ids.contains(stream_id) {
            assert(outstanding(table.streams, ids, r) + count_of(Map::empty(), r) <= count_of(
                table.ref_counts,
                r,
            ));
        } else {
            let more = ids.push(stream_id);
            assert(more.no_duplicates());
            assert(more.drop_last() =~= ids);
            assert(outstanding(table.streams, more, r) + count_of(Map::empty(), r) <= count_of(
                table.ref_counts,
                r,
            ));
        }
    }
}

/// An acknowledgment of the oldest section of a stream is in order, and what it leaves is
/// counted.
proof fn lemma_acknowledged(table: TableView, stream_id: u64)
    requires
        accounted(table),
        table.streams.contains_key(stream_id),
    ensures
        acknowledge_result(table, stream_id) is Ok,
        accounted(acknowledged(table, stream_id)),
{
    let sections = table.streams[stream_id];
    let section = sections[0];
    let after = acknowledged(table, stream_id);
    assert(in_order(section, table.inserted()));
    assert forall|r: usize|
        stream_total(table.streams, stream_id, r) == #[trigger] stream_total(
            after.streams,
            stream_id,
            r,
        ) + count_of(section.refs, r) by {
        lemma_total_of_first(sections, r);
        if sections.len() == 1 {
            assert(sections.skip(1) =~= Seq::<SectionView>::empty());
            assert(total_of(sections.skip(1), r) == 0);
        }
    }
    assert forall|r: usize| #[trigger] stream_total(after.streams, stream_id, r) >= 0 by {
        lemma_total_of_nonneg(sections.skip(1), r);
    }
    assert forall|r: usize| #[trigger] section.refs.contains_key(r) implies
        table.ref_counts.contains_key(r) && section.refs[r] <= table.ref_counts[r] by {
        lemma_stream_counted(table.streams, table.ref_counts, Map::empty(), stream_id, r);
        assert(stream_total(after.streams, stream_id, r) >= 0);
        assert(count_of(section.refs, r) > 0);
    }
    lemma_settled(table, after, stream_id, section.refs);
    assert forall|id: u64| #[trigger] after.streams.contains_key(id) implies after.streams[id].len()
        > 0 && (forall|i: int|
        0 <= i < after.streams[id].len() ==> in_order(
            #[trigger] after.streams[id][i],
            after.inserted(),
        )) by {
        assert(table.streams.contains_key(id));
        if id == stream_id {
            assert forall|i: int| 0 <= i < after.streams[id].len() implies in_order(
                #[trigger] after.streams[id][i],
                after.inserted(),
            ) by {
                assert(after.streams[id][i] == sections[i + 1]);
            }
        }
    }
}

/// A cancellation is in order, and what it leaves is counted.
proof fn lemma_canceled(table: TableView, stream_id: u64)
    requires
        accounted(table),
    ensures
        cancel_result(table, stream_id) is Ok,
        accounted(canceled(table, stream_id)),
{
    if table.streams.contains_key(stream_id) {
        let sections = table.streams[stream_id];
        let after = canceled(table, stream_id);
        let refs = refs_of(sections);
        assert forall|i: int| 0 <= i < sections.len() implies positive(
            (#[trigger] sections[i]).refs,
        ) by {
            assert(in_order(sections[i], table.inserted()));
        }
        assert forall|r: usize| #[trigger] lists(sections, r) implies table.ref_counts.contains_key(
            r,
        ) && total_of(sections, r) <= table.ref_counts[r] by {
            lemma_stream_counted(table.streams, table.ref_counts, Map::empty(), stream_id, r);
            lemma_listed(sections, r);
        }
        assert forall|r: usize|
            stream_total(table.streams, stream_id, r) == #[trigger] stream_total(
                after.streams,
                stream_id,
                r,
            ) + count_of(refs, r) by {
            lemma_total_of_nonneg(sections, r);
            lemma_stream_counted(table.streams, table.ref_counts, Map::empty(), stream_id, r);
        }
        lemma_settled(table, after, stream_id, refs);
        assert forall|id: u64| #[trigger]
            after.streams.contains_key(id) implies after.streams[id].len() > 0 && (forall|i: int|
            0 <= i < after.streams[id].len() ==> in_order(
                #[trigger] after.streams[id][i],
                after.inserted(),
            )) by {
            assert(table.streams.contains_key(id));
        }
    }
}

/// A decoder's instructions settle what is outstanding: following them keeps every reference
/// counted, and no acknowledgment or cancellation is ever found to be more than was counted.
pub proof fn following_keeps_references_counted(table: TableView, s: Seq<u8>)
    requires
        accounted(table),
    ensures
        accounted(follow_spec(table, s).1),
        follow_spec(table, s).0 != Err::<(), EncoderError>(
            EncoderError::Insertion(Error::InvalidTrackingCount),
        ),
    decreases s.len(),
{
    if s.len() > 0 {
        let (action, rest) = parse_action(s);
        if let Ok(Some(action)) = action {
            let (result, next) = action_spec(table, action);
            match action {
                Action::Untrack(stream_id) => {
                    if table.streams.contains_key(stream_id.0) {
                        lemma_acknowledged(table, stream_id.0);
                    }
                },
                Action::StreamCancel(stream_id) => {
                    lemma_canceled(table, stream_id.0);
                },
                Action::ReceivedRefIncrement(_) => {},
            }
            assert(accounted(next));
            if result is Ok && rest.len() < s.len() {
                following_keeps_references_counted(next, rest);
            }
        }
    }
}

} // verus!
