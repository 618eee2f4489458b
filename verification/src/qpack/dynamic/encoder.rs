//! The dynamic table as the encoder of one field section sees it.
use vstd::prelude::*;
use std::collections::BTreeMap;
use super::{
    bumped, count_of, covers, evictions, insert_result, inserted_view, latest_lines,
    latest_names, lemma_evictions, lemma_inserted, lemma_latest_bounds, lemma_latest_evicted,
    line_key, live, released, sent, DynamicTable, Error, SectionView, TableView,
};
use super::super::field::{FieldView, HeaderField};
use super::super::static_::{find_name_spec, StaticTable};

verus! {

broadcast use vstd::std_specs::btree::group_btree_axioms;

/// Where a field line, or its name, was found.
#[derive(Debug, Clone, Copy, PartialEq, Eq, Structural)]
pub enum DynamicLookupResult {
    Static(usize),
    Relative { index: usize, absolute: usize },
    PostBase { index: usize, absolute: usize },
    NotFound,
}

/// How a field line was inserted.
#[derive(Debug, Clone, Copy, PartialEq, Eq, Structural)]
pub enum DynamicInsertionResult {
    Inserted { postbase: usize, absolute: usize },
    Duplicated { relative: usize, postbase: usize, absolute: usize },
    InsertedWithNameRef { postbase: usize, relative: usize, absolute: usize },
    InsertedWithStaticNameRef { postbase: usize, index: usize, absolute: usize },
    NotInserted(DynamicLookupResult),
}

/// Encodes one field section against the table.
///
/// Every reference that it hands out is counted, and keeps its entry in the table,
/// until the section is acknowledged or canceled, or is closed uncommitted.
pub struct DynamicTableEncoder<'a> {
    pub table: &'a mut DynamicTable,
    pub base: usize,
    pub committed: bool,
    pub stream_id: u64,
    pub allow_blocking: bool,
    pub block_refs: BTreeMap<usize, usize>,
}

/// The table with every entry known by name and value, and by name.
pub open spec fn indexed(table: TableView) -> TableView {
    TableView {
        lines: latest_lines(table.fields, table.dropped),
        names: latest_names(table.fields, table.dropped),
        ..table
    }
}

/// The table with one reference more to insertion `r`.
pub open spec fn referred(table: TableView, r: usize) -> TableView {
    TableView { ref_counts: bumped(table.ref_counts, r), ..table }
}

/// Whether each count can grow by `n`.
pub open spec fn has_headroom(table: TableView, n: int) -> bool {
    forall|r: usize| #[trigger] count_of(table.ref_counts, r) + n <= usize::MAX
}

/// How an insertion is referred to: only where the decoder has it or may wait for
/// it.
pub open spec fn lookup_spec(
    absolute: Option<usize>,
    base: usize,
    known_received: usize,
    allow_blocking: bool,
) -> DynamicLookupResult {
    match absolute {
        None => DynamicLookupResult::NotFound,
        Some(absolute) => {
            if absolute > known_received && !allow_blocking {
                DynamicLookupResult::NotFound
            } else if absolute <= base {
                DynamicLookupResult::Relative { index: (base - absolute) as usize, absolute }
            } else {
                DynamicLookupResult::PostBase { index: (absolute - base - 1) as usize, absolute }
            }
        },
    }
}

/// The insertion that a lookup refers to.
pub open spec fn lookup_ref(found: DynamicLookupResult) -> Option<usize> {
    match found {
        DynamicLookupResult::Static(_) => None,
        DynamicLookupResult::Relative { index, absolute } => Some(absolute),
        DynamicLookupResult::PostBase { index, absolute } => Some(absolute),
        DynamicLookupResult::NotFound => None,
    }
}

/// The latest entry with the name and value of `field`.
pub open spec fn found_line(table: TableView, field: FieldView) -> Option<usize> {
    if table.lines.contains_key(line_key(field)) {
        Some(table.lines[line_key(field)])
    } else {
        None
    }
}

/// The latest entry with this name.
pub open spec fn found_name(table: TableView, name: Seq<u8>) -> Option<usize> {
    if table.names.contains_key(name) {
        Some(table.names[name])
    } else {
        None
    }
}

/// The table after a reference, if any.
pub open spec fn after_ref(table: TableView, reference: Option<usize>) -> TableView {
    match reference {
        Some(r) => referred(table, r),
        None => table,
    }
}

/// The counts after a reference, if any.
pub open spec fn counts_after(counts: Map<usize, usize>, reference: Option<usize>) -> Map<
    usize,
    usize,
> {
    match reference {
        Some(r) => bumped(counts, r),
        None => counts,
    }
}

/// Whether `field` is inserted, and as which number: not where the decoder may not
/// wait for it, and not where the table has no room.
pub open spec fn encoder_insertion(
    table: TableView,
    field: FieldView,
    allow_blocking: bool,
) -> Result<Option<usize>, Error> {
    if !allow_blocking {
        Ok(None)
    } else {
        match insert_result(table, field) {
            Err(Error::MaxTableSizeReached) => Ok(None),
            other => other,
        }
    }
}

/// The earlier entry that the insertion of `field` can build on: one with the same
/// name and value, or else, where the static table does not have the name, one with
/// the same name.
pub open spec fn insertion_ref(table: TableView, field: FieldView) -> Option<usize> {
    match found_line(table, field) {
        Some(earlier) => Some(earlier),
        None => match find_name_spec(field.name) {
            Some(_) => None,
            None => found_name(table, field.name),
        },
    }
}

/// How the insertion of `field` as number `absolute` is described, given the table
/// with it.
pub open spec fn insertion_spec(
    table: TableView,
    field: FieldView,
    base: usize,
    absolute: usize,
) -> DynamicInsertionResult {
    let postbase = (absolute - base - 1) as usize;
    match found_line(table, field) {
        Some(earlier) => DynamicInsertionResult::Duplicated {
            relative: (absolute - earlier - 1) as usize,
            postbase,
            absolute,
        },
        None => match find_name_spec(field.name) {
            Some(index) => DynamicInsertionResult::InsertedWithStaticNameRef {
                postbase,
                index,
                absolute,
            },
            None => match found_name(table, field.name) {
                Some(earlier) => DynamicInsertionResult::InsertedWithNameRef {
                    postbase,
                    relative: (absolute - earlier - 1) as usize,
                    absolute,
                },
                None => DynamicInsertionResult::Inserted { postbase, absolute },
            },
        },
    }
}

/// The table with the insertion of `field` as number `absolute` made known.
pub open spec fn insertion_mapped(table: TableView, field: FieldView, absolute: usize) -> TableView {
    TableView {
        lines: table.lines.insert(line_key(field), absolute),
        names: if found_line(table, field) is Some {
            if table.names.contains_key(field.name) {
                table.names.insert(field.name, absolute)
            } else {
                table.names
            }
        } else if find_name_spec(field.name) is Some {
            table.names
        } else {
            table.names.insert(field.name, absolute)
        },
        ..table
    }
}

impl DynamicTable {
    /// Starts a field section on a stream.
    ///
    /// A stream that is blocked already may wait for more; another may only be
    /// blocked while fewer are than the peer permits.
    pub fn encoder(&mut self, stream_id: u64) -> (encoder: DynamicTableEncoder<'_>)
        requires
            old(self).wf(),
        ensures
            encoder.wf(),
            encoder.fits() == old(self).fits(),
            encoder.table@ == indexed(old(self)@),
            encoder.base == old(self)@.fields.len(),
            encoder.stream_id == stream_id,
            !encoder.committed,
            encoder.allow_blocking == (old(self)@.is_blocked(stream_id) || old(self)@.blocked().len()
                < old(self)@.blocked_max),
            encoder.block_refs@ == Map::<usize, usize>::empty(),
            *final(self) == *final(encoder.table),
    {
        let ghost before = *self;
        let ghost fields = self@.fields;
        let ghost dropped = self@.dropped;
        let mut i: usize = 0;
        proof {
            self.vas.lemma_bounds();
            assert(self.name_map@.union_prefer_right(latest_names(fields.take(0), dropped))
                =~= self.name_map@);
            assert(self.field_map@.union_prefer_right(latest_lines(fields.take(0), dropped))
                =~= self.field_map@);
        }
        while i < self.fields.len()
            invariant
                i <= fields.len(),
                before.wf(),
                fields == before@.fields,
                dropped == before@.dropped,
                dropped >= 0,
                dropped + fields.len() <= usize::MAX,
                *self == (DynamicTable {
                    name_map: self.name_map,
                    field_map: self.field_map,
                    ..before
                }),
                self.name_map.wf(),
                self.field_map.wf(),
                self.name_map@ == before@.names.union_prefer_right(
                    latest_names(fields.take(i as int), dropped),
                ),
                self.field_map@ == before@.lines.union_prefer_right(
                    latest_lines(fields.take(i as int), dropped),
                ),
            decreases fields.len() - i,
        {
            let absolute: usize = match self.vas.index(i) {
                Ok(absolute) => absolute,
                Err(_) => 0,
            };
            assert(absolute == dropped + i + 1);
            let field = &self.fields[i];
            assert(field@ == fields[i as int]);
            self.name_map.insert(field.name.as_slice(), absolute);
            self.field_map.insert(field, absolute);
            proof {
                let next = fields.take(i + 1);
                assert(next.drop_last() =~= fields.take(i as int));
                assert(next.last() == fields[i as int]);
                assert(self.name_map@ =~= before@.names.union_prefer_right(
                    latest_names(next, dropped),
                ));
                assert(self.field_map@ =~= before@.lines.union_prefer_right(
                    latest_lines(next, dropped),
                ));
            }
            i = i + 1;
        }
        proof {
            assert(fields.take(i as int) =~= fields);
            lemma_latest_bounds(fields, dropped);
            assert forall|key: (Seq<u8>, Seq<u8>)| #[trigger] before@.lines.contains_key(key) implies latest_lines(
                fields,
                dropped,
            ).contains_key(key) by {
                let position = before@.lines[key] - dropped - 1;
                assert(line_key(fields[position]) == key);
            }
            assert forall|name: Seq<u8>| #[trigger] before@.names.contains_key(name) implies latest_names(
                fields,
                dropped,
            ).contains_key(name) by {
                let position = before@.names[name] - dropped - 1;
                assert(fields[position].name == name);
            }
            assert(self@.lines =~= latest_lines(fields, dropped));
            assert(self@.names =~= latest_names(fields, dropped));
            assert(self@ =~= indexed(before@));
            assert(self.wf());
        }
        let allow_blocking: bool = self.stream_is_blocked(stream_id) || !self.blocked_limit_reached();
        let base: usize = self.vas.largest_ref();
        proof {
            assert(self@.blocked() =~= before@.blocked());
        }
        DynamicTableEncoder {
            table: self,
            base,
            committed: false,
            stream_id,
            allow_blocking,
            block_refs: BTreeMap::new(),
        }
    }
}

impl<'a> DynamicTableEncoder<'a> {
    /// The table is in order, every entry can be found, and every reference of the
    /// section is counted.
    pub open spec fn wf(&self) -> bool {
        &&& self.table.wf()
        &&& self.base <= self.table@.inserted()
        &&& self.table@.lines == latest_lines(self.table@.fields, self.table@.dropped)
        &&& forall|name: Seq<u8>|
            find_name_spec(name) is None ==> #[trigger] found_name(self.table@, name)
                == found_name(indexed(self.table@), name)
        &&& covers(self.table@.ref_counts, self.block_refs@)
    }

    /// Whether the entries are within the capacity of the table.
    pub open spec fn fits(&self) -> bool {
        self.table.fits()
    }

    /// Whether an insertion can be tried: no entry is evicted to make room in a table
    /// that holds more than its capacity.
    pub open spec fn can_insert(&self) -> bool {
        self.fits() || self.table@.max_size == 0 || !self.allow_blocking
    }

    /// Whether this is the same section, encoded further.
    pub open spec fn continues(&self, earlier: &Self) -> bool {
        &&& self.base == earlier.base
        &&& self.committed == earlier.committed
        &&& self.stream_id == earlier.stream_id
        &&& self.allow_blocking == earlier.allow_blocking
        &&& self.fits() == earlier.fits()
    }

    pub fn max_size(&self) -> (size: usize)
        ensures
            size == old(self.table)@.max_size,
    {
        self.table.max_size
    }

    pub fn base(&self) -> (base: usize)
        ensures
            base == self.base,
    {
        self.base
    }

    pub fn total_inserted(&self) -> (n: usize)
        requires
            self.wf(),
        ensures
            n == old(self.table)@.inserted(),
    {
        self.table.total_inserted()
    }

    /// Counts a reference of this section.
    pub fn track_ref(&mut self, reference: usize)
        requires
            old(self).wf(),
            count_of(old(self).table@.ref_counts, reference) < usize::MAX,
        ensures
            final(self).wf(),
            final(self).continues(old(self)),
            final(self).table@ == referred(old(self).table@, reference),
            final(self).block_refs@ == bumped(old(self).block_refs@, reference),
            *final(final(self).table) == *final(old(self).table),
    {
        let count: usize = match self.block_refs.get(&reference) {
            Some(count) => *count,
            None => 0,
        };
        self.block_refs.insert(reference, count + 1);
        self.table.track_ref(reference);
        assert(indexed(self.table@).names == indexed(old(self).table@).names);
        assert forall|name: Seq<u8>| find_name_spec(name) is None implies #[trigger] found_name(
            self.table@,
            name,
        ) == found_name(indexed(self.table@), name) by {
            assert(found_name(old(self).table@, name) == found_name(
                indexed(old(self).table@),
                name,
            ));
        }
    }

    /// Refers to an insertion, where the decoder has it or may wait for it.
    fn lookup_result(&mut self, absolute: Option<usize>) -> (found: DynamicLookupResult)
        requires
            old(self).wf(),
            has_headroom(old(self).table@, 1),
        ensures
            final(self).wf(),
            final(self).continues(old(self)),
            found == lookup_spec(
                absolute,
                old(self).base,
                old(self).table@.known_received,
                old(self).allow_blocking,
            ),
            final(self).table@ == after_ref(old(self).table@, lookup_ref(found)),
            final(self).block_refs@ == counts_after(old(self).block_refs@, lookup_ref(found)),
            *final(final(self).table) == *final(old(self).table),
    {
        match absolute {
            Some(absolute) => {
                if absolute > self.table.largest_known_received && !self.allow_blocking {
                    return DynamicLookupResult::NotFound;
                }
                assert(count_of(self.table@.ref_counts, absolute) + 1 <= usize::MAX);
                self.track_ref(absolute);
                if absolute <= self.base {
                    DynamicLookupResult::Relative { index: self.base - absolute, absolute }
                } else {
                    DynamicLookupResult::PostBase { index: absolute - self.base - 1, absolute }
                }
            },
            None => DynamicLookupResult::NotFound,
        }
    }

    /// Refers to the latest entry with the name and value of `field`.
    pub fn find(&mut self, field: &HeaderField) -> (found: DynamicLookupResult)
        requires
            old(self).wf(),
            has_headroom(old(self).table@, 1),
        ensures
            final(self).wf(),
            final(self).continues(old(self)),
            found == lookup_spec(
                found_line(old(self).table@, field@),
                old(self).base,
                old(self).table@.known_received,
                old(self).allow_blocking,
            ),
            final(self).table@ == after_ref(old(self).table@, lookup_ref(found)),
            final(self).block_refs@ == counts_after(old(self).block_refs@, lookup_ref(found)),
            *final(final(self).table) == *final(old(self).table),
    {
        let absolute: Option<usize> = self.table.field_map.get(field);
        self.lookup_result(absolute)
    }

    /// Refers to the first static entry, or else the latest entry, with this name.
    pub fn find_name(&mut self, name: &[u8]) -> (found: DynamicLookupResult)
        requires
            old(self).wf(),
            has_headroom(old(self).table@, 1),
        ensures
            final(self).wf(),
            final(self).continues(old(self)),
            found == find_name_result(
                old(self).table@,
                name@,
                old(self).base,
                old(self).allow_blocking,
            ),
            final(self).table@ == after_ref(old(self).table@, lookup_ref(found)),
            final(self).block_refs@ == counts_after(old(self).block_refs@, lookup_ref(found)),
            *final(final(self).table) == *final(old(self).table),
    {
        if let Some(index) = StaticTable::find_name(name) {
            return DynamicLookupResult::Static(index);
        }
        let absolute: Option<usize> = self.table.name_map.get(name);
        self.lookup_result(absolute)
    }

    /// Inserts `field`, where the decoder may wait for it and the table has room, and
    /// refers to it.
    ///
    /// See <https://www.rfc-editor.org/rfc/rfc9204.html#section-2.1.2>.
    pub fn insert(&mut self, field: &HeaderField) -> (result: Result<DynamicInsertionResult, Error>)
        requires
            old(self).wf(),
            old(self).can_insert(),
            has_headroom(old(self).table@, 2),
        ensures
            final(self).wf(),
            final(self).continues(old(self)),
            *final(final(self).table) == *final(old(self).table),
            match encoder_insertion(old(self).table@, field@, old(self).allow_blocking) {
                Ok(Some(absolute)) => {
                    let inserted = inserted_view(old(self).table@, field@);
                    let earlier = insertion_ref(inserted, field@);
                    &&& result == Ok::<DynamicInsertionResult, Error>(
                        insertion_spec(inserted, field@, old(self).base, absolute),
                    )
                    &&& final(self).table@ == after_ref(
                        referred(insertion_mapped(inserted, field@, absolute), absolute),
                        earlier,
                    )
                    &&& final(self).block_refs@ == counts_after(
                        bumped(old(self).block_refs@, absolute),
                        earlier,
                    )
                },
                Ok(None) => {
                    let found = find_name_result(
                        old(self).table@,
                        field@.name,
                        old(self).base,
                        old(self).allow_blocking,
                    );
                    &&& result == Ok::<DynamicInsertionResult, Error>(
                        DynamicInsertionResult::NotInserted(found),
                    )
                    &&& final(self).table@ == after_ref(old(self).table@, lookup_ref(found))
                    &&& final(self).block_refs@ == counts_after(
                        old(self).block_refs@,
                        lookup_ref(found),
                    )
                },
                Err(error) => {
                    &&& result == Err::<DynamicInsertionResult, Error>(error)
                    &&& final(self).table@ == old(self).table@
                    &&& final(self).block_refs@ == old(self).block_refs@
                },
            },
    {
        assert(has_headroom(self.table@, 1));
        if !self.allow_blocking {
            return Ok(DynamicInsertionResult::NotInserted(self.find_name(field.name.as_slice())));
        }
        proof {
            self.table.vas.lemma_bounds();
        }
        let ghost before = self.table@;
        let index: usize = match self.table.insert(field.clone()) {
            Ok(Some(index)) => index,
            Ok(None) | Err(Error::MaxTableSizeReached) => {
                return Ok(
                    DynamicInsertionResult::NotInserted(self.find_name(field.name.as_slice())),
                );
            },
            Err(error) => return Err(error),
        };
        let ghost w = self.table@;
        let ghost new = insertion_mapped(w, field@, index);
        proof {
            lemma_inserted(before, field@);
            lemma_mapped(before, field@, index);
        }
        let postbase: usize = index - self.base - 1;
        let line: Option<usize> = self.table.field_map.get(field);
        self.table.field_map.insert(field, index);
        if let Some(earlier) = line {
            if self.table.name_map.get(field.name.as_slice()).is_some() {
                self.table.name_map.insert(field.name.as_slice(), index);
            }
            assert(self.table@ =~= new);
            self.track_ref(index);
            assert(count_of(before.ref_counts, earlier) + 2 <= usize::MAX);
            self.track_ref(earlier);
            return Ok(
                DynamicInsertionResult::Duplicated {
                    relative: index - earlier - 1,
                    postbase,
                    absolute: index,
                },
            );
        }
        if let Some(static_index) = StaticTable::find_name(field.name.as_slice()) {
            assert(self.table@ =~= new);
            self.track_ref(index);
            return Ok(
                DynamicInsertionResult::InsertedWithStaticNameRef {
                    postbase,
                    index: static_index,
                    absolute: index,
                },
            );
        }
        let name: Option<usize> = self.table.name_map.get(field.name.as_slice());
        self.table.name_map.insert(field.name.as_slice(), index);
        assert(self.table@ =~= new);
        self.track_ref(index);
        match name {
            Some(earlier) => {
                assert(count_of(before.ref_counts, earlier) + 2 <= usize::MAX);
                self.track_ref(earlier);
                Ok(
                    DynamicInsertionResult::InsertedWithNameRef {
                        postbase,
                        relative: index - earlier - 1,
                        absolute: index,
                    },
                )
            },
            None => Ok(DynamicInsertionResult::Inserted { postbase, absolute: index }),
        }
    }

    /// Ends the section, which requires `required_insert_count` insertions, to be
    /// acknowledged.
    ///
    /// A section that requires none is never acknowledged.
    ///
    /// See <https://www.rfc-editor.org/rfc/rfc9204.html#section-4.4.1>.
    pub fn commit(&mut self, required_insert_count: usize)
        requires
            old(self).wf(),
        ensures
            final(self).wf(),
            final(self).committed,
            final(self).fits() == old(self).fits(),
            final(self).base == old(self).base,
            final(self).stream_id == old(self).stream_id,
            final(self).allow_blocking == old(self).allow_blocking,
            final(self).table@ == if required_insert_count != 0 {
                sent(
                    old(self).table@,
                    old(self).stream_id,
                    SectionView { required: required_insert_count, refs: old(self).block_refs@ },
                )
            } else {
                old(self).table@
            },
            final(self).block_refs@ == if required_insert_count != 0 {
                Map::<usize, usize>::empty()
            } else {
                old(self).block_refs@
            },
            *final(final(self).table) == *final(old(self).table),
    {
        if required_insert_count != 0 {
            let mut refs: BTreeMap<usize, usize> = BTreeMap::new();
            std::mem::swap(&mut refs, &mut self.block_refs);
            self.table.track_block(self.stream_id, required_insert_count, refs);
        }
        self.committed = true;
        assert(indexed(self.table@).names == indexed(old(self).table@).names);
        assert forall|name: Seq<u8>| find_name_spec(name) is None implies #[trigger] found_name(
            self.table@,
            name,
        ) == found_name(indexed(self.table@), name) by {
            assert(found_name(old(self).table@, name) == found_name(
                indexed(old(self).table@),
                name,
            ));
        }
    }

    /// Gives the table back. A section that was not committed gives its references
    /// back too.
    pub fn close(self)
        requires
            self.wf(),
        ensures
            final(self.table).wf(),
            final(self.table).fits() == old(self.table).fits(),
            final(self.table)@ == if self.committed {
                old(self.table)@
            } else {
                TableView {
                    ref_counts: released(old(self.table)@.ref_counts, self.block_refs@),
                    ..old(self.table)@
                }
            },
    {
        let ghost before = *self.table;
        if !self.committed {
            self.table.release_refs_validated(&self.block_refs);
        }
        assert(self.table@.size() == before@.size());
    }
}

/// The maps of the table with an insertion made known hold the latest entries.
pub proof fn lemma_mapped(table: TableView, field: FieldView, absolute: usize)
    requires
        table.dropped >= 0,
        insert_result(table, field) == Ok::<Option<usize>, Error>(Some(absolute)),
        table.lines == latest_lines(table.fields, table.dropped),
        forall|name: Seq<u8>|
            find_name_spec(name) is None ==> #[trigger] found_name(table, name) == found_name(
                indexed(table),
                name,
            ),
    ensures
        ({
            let new = insertion_mapped(inserted_view(table, field), field, absolute);
            &&& new.lines == latest_lines(new.fields, new.dropped)
            &&& forall|name: Seq<u8>|
                find_name_spec(name) is None ==> #[trigger] found_name(new, name) == found_name(
                    indexed(new),
                    name,
                )
        }),
{
    let n = evictions(table.fields, table.max_size - field.size()) as int;
    let w = inserted_view(table, field);
    let new = insertion_mapped(w, field, absolute);
    lemma_evictions(table.fields, table.max_size - field.size());
    lemma_latest_evicted(table.fields, table.dropped, n);
    lemma_latest_bounds(table.fields.skip(n), table.dropped + n);
    assert(new.fields.drop_last() =~= table.fields.skip(n));
    assert(new.fields.last() == field);
    assert(new.lines =~= latest_lines(new.fields, new.dropped));
    let kept = latest_names(table.fields.skip(n), table.dropped + n);
    assert forall|name: Seq<u8>| find_name_spec(name) is None implies #[trigger] found_name(new, name)
        == found_name(indexed(new), name) by {
        assert(found_name(table, name) == found_name(indexed(table), name));
        assert(live(table.names, table.dropped + n).contains_key(name) == live(
            latest_names(table.fields, table.dropped),
            table.dropped + n,
        ).contains_key(name));
        assert(found_name(w, name) == if kept.contains_key(name) {
            Some(kept[name])
        } else {
            None
        });
        if name == field.name && found_line(w, field) is Some {
            let key = line_key(field);
            let lines = latest_lines(table.fields.skip(n), table.dropped + n);
            let position = lines[key] - (table.dropped + n) - 1;
            assert(lines.contains_key(key));
            assert(line_key(table.fields.skip(n)[position]) == key);
            assert(kept.contains_key(table.fields.skip(n)[position].name));
        }
    }
}

/// Where a name is found.
pub open spec fn find_name_result(
    table: TableView,
    name: Seq<u8>,
    base: usize,
    allow_blocking: bool,
) -> DynamicLookupResult {
    match find_name_spec(name) {
        Some(index) => DynamicLookupResult::Static(index),
        None => lookup_spec(found_name(table, name), base, table.known_received, allow_blocking),
    }
}

} // verus!
