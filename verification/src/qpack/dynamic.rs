//! The dynamic table.
//!
//! See <https://www.rfc-editor.org/rfc/rfc9204.html#section-3.2>.
use vstd::prelude::*;
use std::collections::{BTreeMap, VecDeque};
use super::field::{FieldView, HeaderField};
use super::lookup::{FieldMap, NameMap};
use super::static_::{find_name_spec, StaticTable};
use super::vas::{self, VirtualAddressSpace};

pub use self::encoder::{DynamicInsertionResult, DynamicLookupResult, DynamicTableEncoder};

pub mod encoder;

verus! {

broadcast use vstd::std_specs::btree::group_btree_axioms;

#[derive(Debug, Clone, Copy, PartialEq, Eq, Structural)]
pub enum Error {
    BadRelativeIndex(usize),
    BadPostbaseIndex(usize),
    BadIndex(usize),
    MaxTableSizeReached,
    MaximumTableSizeTooLarge,
    UnknownStreamId(u64),
    NoTrackingData,
    InvalidTrackingCount,
    InvalidInsertCountIncrement,
    AddressSpaceOverflow,
}

/// How an index that the address space does not hold is reported.
pub open spec fn vas_error(error: vas::Error) -> Error {
    match error {
        vas::Error::RelativeIndex(index) => Error::BadRelativeIndex(index),
        vas::Error::PostbaseIndex(index) => Error::BadPostbaseIndex(index),
        vas::Error::Index(index) => Error::BadIndex(index),
        vas::Error::AddressSpaceOverflow => Error::AddressSpaceOverflow,
    }
}

fn from_vas_error(error: vas::Error) -> (mapped: Error)
    ensures
        mapped == vas_error(error),
{
    match error {
        vas::Error::RelativeIndex(index) => Error::BadRelativeIndex(index),
        vas::Error::PostbaseIndex(index) => Error::BadPostbaseIndex(index),
        vas::Error::Index(index) => Error::BadIndex(index),
        vas::Error::AddressSpaceOverflow => Error::AddressSpaceOverflow,
    }
}

/// A field section that was sent and is not yet acknowledged: the insertions
/// that it requires, and how often it refers to each.
#[verifier::ext_equal]
pub struct SectionView {
    pub required: usize,
    pub refs: Map<usize, usize>,
}

/// The key of a table entry.
pub open spec fn line_key(field: FieldView) -> (Seq<u8>, Seq<u8>) {
    (field.name, field.value)
}

/// The size of a run of entries.
pub open spec fn lines_size(fields: Seq<FieldView>) -> int
    decreases fields.len(),
{
    if fields.len() == 0 {
        0
    } else {
        fields[0].size() + lines_size(fields.skip(1))
    }
}

/// The entries of `map` whose insertions come after number `limit`.
pub open spec fn live<K>(map: Map<K, usize>, limit: int) -> Map<K, usize> {
    Map::new(|key: K| map.contains_key(key) && map[key] > limit, |key: K| map[key])
}

/// The number of the latest insertion with each name and value, where the first
/// of `fields` is insertion number `dropped + 1`.
pub open spec fn latest_lines(fields: Seq<FieldView>, dropped: int) -> Map<
    (Seq<u8>, Seq<u8>),
    usize,
>
    decreases fields.len(),
{
    if fields.len() == 0 {
        Map::empty()
    } else {
        latest_lines(fields.drop_last(), dropped).insert(
            line_key(fields.last()),
            (dropped + fields.len()) as usize,
        )
    }
}

/// The number of the latest insertion with each name, where the first of `fields`
/// is insertion number `dropped + 1`.
pub open spec fn latest_names(fields: Seq<FieldView>, dropped: int) -> Map<Seq<u8>, usize>
    decreases fields.len(),
{
    if fields.len() == 0 {
        Map::empty()
    } else {
        latest_names(fields.drop_last(), dropped).insert(
            fields.last().name,
            (dropped + fields.len()) as usize,
        )
    }
}

/// The state of a dynamic table.
#[verifier::ext_equal]
pub struct TableView {
    /// The entries, oldest first.
    pub fields: Seq<FieldView>,
    /// The number of insertions before the oldest entry.
    pub dropped: int,
    /// The capacity.
    pub max_size: usize,
    /// The entries that can be looked up by name and value.
    pub lines: Map<(Seq<u8>, Seq<u8>), usize>,
    /// The entries that can be looked up by name.
    pub names: Map<Seq<u8>, usize>,
    /// How many references to each insertion are outstanding.
    pub ref_counts: Map<usize, usize>,
    /// The outstanding field sections of each stream, oldest first.
    pub streams: Map<u64, Seq<SectionView>>,
    /// The number of insertions that the decoder is known to have received.
    pub known_received: usize,
    /// The number of streams that may be blocked.
    pub blocked_max: u64,
}

impl TableView {
    /// The number of insertions.
    pub open spec fn inserted(self) -> int {
        self.dropped + self.fields.len()
    }

    /// Whether the insertion is still in the table.
    pub open spec fn holds(self, absolute: int) -> bool {
        self.dropped < absolute <= self.inserted()
    }

    /// The entry made by an insertion.
    pub open spec fn entry(self, absolute: int) -> FieldView {
        self.fields[absolute - self.dropped - 1]
    }

    pub open spec fn size(self) -> int {
        lines_size(self.fields)
    }

    /// Whether a reference to the insertion is outstanding.
    pub open spec fn is_tracked(self, absolute: int) -> bool {
        exists|r: usize| r == absolute && #[trigger] self.ref_counts.contains_key(r) && self.ref_counts[r] > 0
    }

    /// Whether an outstanding field section of the stream requires insertions beyond
    /// those that the decoder is known to have received.
    pub open spec fn is_blocked(self, stream_id: u64) -> bool {
        &&& self.streams.contains_key(stream_id)
        &&& exists|i: int|
            0 <= i < self.streams[stream_id].len() && (#[trigger] self.streams[stream_id][i]).required
                > self.known_received
    }

    /// The streams that are blocked.
    pub open spec fn blocked(self) -> Set<u64> {
        Set::new(|stream_id: u64| self.is_blocked(stream_id))
    }

    /// Whether the entries can be looked up, each under its own name and value.
    pub open spec fn is_sound(self) -> bool {
        &&& forall|key: (Seq<u8>, Seq<u8>)| #[trigger]
            self.lines.contains_key(key) ==> self.holds(self.lines[key] as int) && line_key(
                self.entry(self.lines[key] as int),
            ) == key
        &&& forall|name: Seq<u8>| #[trigger]
            self.names.contains_key(name) ==> self.holds(self.names[name] as int) && self.entry(
                self.names[name] as int,
            ).name == name
    }
}

/// How many entries have to go, oldest first, until the others take at most `room`.
pub open spec fn evictions(fields: Seq<FieldView>, room: int) -> nat
    decreases fields.len(),
{
    if fields.len() == 0 || lines_size(fields) <= room {
        0
    } else {
        1 + evictions(fields.skip(1), room)
    }
}

/// How many entries have to go to make room for `required`, where none of them is
/// referred to.
pub open spec fn can_free_spec(table: TableView, required: int) -> Result<Option<nat>, Error> {
    if required > table.max_size {
        Err(Error::MaxTableSizeReached)
    } else {
        let n = evictions(table.fields, table.max_size - required);
        if forall|i: int| 0 <= i < n ==> !#[trigger] table.is_tracked(table.dropped + 1 + i) {
            Ok(Some(n))
        } else {
            Ok(None)
        }
    }
}

/// The table without its `n` oldest entries.
pub open spec fn evicted(table: TableView, n: int) -> TableView {
    TableView {
        fields: table.fields.skip(n),
        dropped: table.dropped + n,
        lines: live(table.lines, table.dropped + n),
        names: live(table.names, table.dropped + n),
        ..table
    }
}

/// What comes of inserting `field`: its number, or nothing where the table has no
/// room that could be freed.
pub open spec fn insert_result(table: TableView, field: FieldView) -> Result<
    Option<usize>,
    Error,
> {
    if table.max_size == 0 {
        Ok(None)
    } else {
        match can_free_spec(table, field.size()) {
            Err(error) => Err(error),
            Ok(None) => Ok(None),
            Ok(Some(_)) => if table.inserted() < usize::MAX {
                Ok(Some((table.inserted() + 1) as usize))
            } else {
                Err(Error::AddressSpaceOverflow)
            },
        }
    }
}

/// The table with `field` inserted, and the oldest entries evicted that had to
/// make room.
pub open spec fn inserted_view(table: TableView, field: FieldView) -> TableView {
    if insert_result(table, field) matches Ok(Some(_)) {
        let n = evictions(table.fields, table.max_size - field.size());
        let rest = evicted(table, n as int);
        TableView { fields: rest.fields.push(field), ..rest }
    } else {
        table
    }
}

pub proof fn lemma_lines_size_nonneg(fields: Seq<FieldView>)
    ensures
        lines_size(fields) >= 32 * fields.len(),
    decreases fields.len(),
{
    if fields.len() > 0 {
        lemma_lines_size_nonneg(fields.skip(1));
    }
}

pub proof fn lemma_lines_size_push(fields: Seq<FieldView>, field: FieldView)
    ensures
        lines_size(fields.push(field)) == lines_size(fields) + field.size(),
    decreases fields.len(),
{
    if fields.len() == 0 {
        assert(fields.push(field).skip(1) =~= fields);
    } else {
        lemma_lines_size_push(fields.skip(1), field);
        assert(fields.push(field).skip(1) =~= fields.skip(1).push(field));
    }
}

pub proof fn lemma_evictions(fields: Seq<FieldView>, room: int)
    requires
        room >= 0,
    ensures
        evictions(fields, room) <= fields.len(),
        lines_size(fields.skip(evictions(fields, room) as int)) <= room,
    decreases fields.len(),
{
    if fields.len() == 0 || lines_size(fields) <= room {
        assert(fields.skip(0) =~= fields);
    } else {
        lemma_evictions(fields.skip(1), room);
        let n = evictions(fields.skip(1), room);
        assert(fields.skip(1).skip(n as int) =~= fields.skip(1 + n as int));
    }
}

/// The insertion is the latest entry.
pub proof fn lemma_inserted(table: TableView, field: FieldView)
    requires
        insert_result(table, field) matches Ok(Some(_)),
    ensures
        inserted_view(table, field).inserted() == table.inserted() + 1,
        inserted_view(table, field).fields.len() > 0,
        inserted_view(table, field).entry(table.inserted() + 1) == field,
        inserted_view(table, field).dropped >= table.dropped,
{
    lemma_evictions(table.fields, table.max_size - field.size());
}

/// The latest lines after eviction are those that remain.
pub proof fn lemma_latest_evicted(fields: Seq<FieldView>, dropped: int, n: int)
    requires
        0 <= n <= fields.len(),
        0 <= dropped,
        dropped + fields.len() <= usize::MAX,
    ensures
        live(latest_lines(fields, dropped), dropped + n) == latest_lines(
            fields.skip(n),
            dropped + n,
        ),
        live(latest_names(fields, dropped), dropped + n) == latest_names(
            fields.skip(n),
            dropped + n,
        ),
    decreases fields.len(),
{
    let rest = fields.skip(n);
    if n == fields.len() {
        lemma_latest_bounds(fields, dropped);
        assert(live(latest_lines(fields, dropped), dropped + n) =~= latest_lines(rest, dropped + n));
        assert(live(latest_names(fields, dropped), dropped + n) =~= latest_names(rest, dropped + n));
    } else {
        lemma_latest_evicted(fields.drop_last(), dropped, n);
        assert(rest.drop_last() =~= fields.drop_last().skip(n));
        assert(rest.last() == fields.last());
        assert(live(latest_lines(fields, dropped), dropped + n) =~= latest_lines(rest, dropped + n));
        assert(live(latest_names(fields, dropped), dropped + n) =~= latest_names(rest, dropped + n));
    }
}

/// The latest lines are entries of the table, and every entry has a latest line.
pub proof fn lemma_latest_bounds(fields: Seq<FieldView>, dropped: int)
    requires
        0 <= dropped,
        dropped + fields.len() <= usize::MAX,
    ensures
        forall|key: (Seq<u8>, Seq<u8>)| #[trigger]
            latest_lines(fields, dropped).contains_key(key) ==> dropped < latest_lines(
                fields,
                dropped,
            )[key] <= dropped + fields.len() && line_key(
                fields[latest_lines(fields, dropped)[key] - dropped - 1],
            ) == key,
        forall|name: Seq<u8>| #[trigger]
            latest_names(fields, dropped).contains_key(name) ==> dropped < latest_names(
                fields,
                dropped,
            )[name] <= dropped + fields.len() && fields[latest_names(fields, dropped)[name]
                - dropped - 1].name == name,
        forall|i: int|
            0 <= i < fields.len() ==> latest_lines(fields, dropped).contains_key(
                line_key(#[trigger] fields[i]),
            ) && latest_lines(fields, dropped)[line_key(fields[i])] >= dropped + i + 1,
        forall|i: int|
            0 <= i < fields.len() ==> latest_names(fields, dropped).contains_key(
                (#[trigger] fields[i]).name,
            ) && latest_names(fields, dropped)[fields[i].name] >= dropped + i + 1,
    decreases fields.len(),
{
    if fields.len() > 0 {
        let front = fields.drop_last();
        lemma_latest_bounds(front, dropped);
        assert forall|i: int| 0 <= i < fields.len() implies latest_lines(fields, dropped).contains_key(
            line_key(#[trigger] fields[i]),
        ) && latest_lines(fields, dropped)[line_key(fields[i])] >= dropped + i + 1 by {
            if i < front.len() {
                assert(front[i] == fields[i]);
            }
        }
        assert forall|i: int| 0 <= i < fields.len() implies latest_names(fields, dropped).contains_key(
            (#[trigger] fields[i]).name,
        ) && latest_names(fields, dropped)[fields[i].name] >= dropped + i + 1 by {
            if i < front.len() {
                assert(front[i] == fields[i]);
            }
        }
    }
}

/// Evicting in two steps is evicting in one.
pub proof fn lemma_evicted_twice(table: TableView, a: int, b: int)
    requires
        0 <= a,
        0 <= b,
        a + b <= table.fields.len(),
    ensures
        evicted(evicted(table, a), b) == evicted(table, a + b),
{
    assert(table.fields.skip(a).skip(b) =~= table.fields.skip(a + b));
    assert(evicted(evicted(table, a), b) =~= evicted(table, a + b));
}

pub proof fn lemma_evicted_none(table: TableView)
    requires
        table.is_sound(),
    ensures
        evicted(table, 0) == table,
{
    assert(table.fields.skip(0) =~= table.fields);
    assert(evicted(table, 0) =~= table);
}

/// How often `refs` refers to insertion `r`.
pub open spec fn count_of(refs: Map<usize, usize>, r: usize) -> int {
    if refs.contains_key(r) {
        refs[r] as int
    } else {
        0
    }
}

/// How often a run of sections refers to insertion `r`.
pub open spec fn total_of(sections: Seq<SectionView>, r: usize) -> int
    decreases sections.len(),
{
    if sections.len() == 0 {
        0
    } else {
        total_of(sections.drop_last(), r) + count_of(sections.last().refs, r)
    }
}

/// Whether one of the sections lists insertion `r`.
pub open spec fn lists(sections: Seq<SectionView>, r: usize) -> bool
    decreases sections.len(),
{
    sections.len() > 0 && (lists(sections.drop_last(), r) || sections.last().refs.contains_key(r))
}

/// One reference more to insertion `r`.
pub open spec fn bumped(counts: Map<usize, usize>, r: usize) -> Map<usize, usize> {
    counts.insert(r, (count_of(counts, r) + 1) as usize)
}

/// All the references of the sections.
pub open spec fn refs_of(sections: Seq<SectionView>) -> Map<usize, usize> {
    Map::new(|r: usize| lists(sections, r), |r: usize| total_of(sections, r) as usize)
}

/// Whether the references are counted.
pub open spec fn covers(counts: Map<usize, usize>, refs: Map<usize, usize>) -> bool {
    forall|r: usize| #[trigger]
        refs.contains_key(r) ==> counts.contains_key(r) && refs[r] <= counts[r]
}

/// Whether all the references of the sections are counted.
pub open spec fn covers_all(counts: Map<usize, usize>, sections: Seq<SectionView>) -> bool {
    forall|r: usize| #[trigger]
        lists(sections, r) ==> counts.contains_key(r) && total_of(sections, r) <= counts[r]
}

/// The counts without the references; what is no longer referred to has no count.
pub open spec fn released(counts: Map<usize, usize>, refs: Map<usize, usize>) -> Map<usize, usize> {
    Map::new(
        |r: usize| counts.contains_key(r) && !(refs.contains_key(r) && refs[r] == counts[r]),
        |r: usize| (counts[r] - count_of(refs, r)) as usize,
    )
}

pub proof fn lemma_total_of_nonneg(sections: Seq<SectionView>, r: usize)
    ensures
        total_of(sections, r) >= 0,
        !lists(sections, r) ==> total_of(sections, r) == 0,
    decreases sections.len(),
{
    if sections.len() > 0 {
        lemma_total_of_nonneg(sections.drop_last(), r);
    }
}

/// A longer run of sections refers at least as often.
pub proof fn lemma_total_of_take(sections: Seq<SectionView>, n: int, r: usize)
    requires
        0 <= n <= sections.len(),
    ensures
        total_of(sections.take(n), r) <= total_of(sections, r),
        lists(sections.take(n), r) ==> lists(sections, r),
    decreases sections.len(),
{
    if n < sections.len() {
        lemma_total_of_take(sections.drop_last(), n, r);
        assert(sections.drop_last().take(n) =~= sections.take(n));
    } else {
        assert(sections.take(n) =~= sections);
    }
}

/// A field section that was sent and is not yet acknowledged.
#[derive(Debug)]
pub struct TrackedFieldSection {
    pub required_insert_count: usize,
    pub refs: BTreeMap<usize, usize>,
}

impl View for TrackedFieldSection {
    type V = SectionView;

    open spec fn view(&self) -> SectionView {
        SectionView { required: self.required_insert_count, refs: self.refs@ }
    }
}

/// The outstanding field sections of a stream.
#[derive(Debug)]
pub struct TrackedStream {
    pub field_sections: VecDeque<TrackedFieldSection>,
    pub max_required_insert_count: usize,
}

impl Default for TrackedStream {
    fn default() -> (stream: Self)
        ensures
            stream.sections() =~= Seq::<SectionView>::empty(),
            stream.max_required_insert_count == 0,
    {
        TrackedStream { field_sections: VecDeque::new(), max_required_insert_count: 0 }
    }
}

impl TrackedStream {
    pub open spec fn sections(&self) -> Seq<SectionView> {
        self.field_sections@.map_values(|section: TrackedFieldSection| section@)
    }

    /// No outstanding section requires more than the cached count.
    pub open spec fn bounded(&self) -> bool {
        forall|i: int|
            0 <= i < self.sections().len() ==> (#[trigger] self.sections()[i]).required
                <= self.max_required_insert_count
    }

    /// An outstanding section requires as much as the cached count.
    pub open spec fn attained(&self) -> bool {
        exists|i: int|
            0 <= i < self.sections().len() && (#[trigger] self.sections()[i]).required
                == self.max_required_insert_count
    }

    /// Adds the latest section.
    pub fn push(&mut self, field_section: TrackedFieldSection)
        ensures
            final(self).sections() == old(self).sections().push(field_section@),
            final(self).max_required_insert_count == if field_section.required_insert_count > old(self).max_required_insert_count {
                field_section.required_insert_count
            } else {
                old(self).max_required_insert_count
            },
    {
        if field_section.required_insert_count > self.max_required_insert_count {
            self.max_required_insert_count = field_section.required_insert_count;
        }
        self.field_sections.push_back(field_section);
        assert(self.sections() =~= old(self).sections().push(field_section@));
    }

    /// Takes the oldest section.
    ///
    /// The cached count stays, though the section that it came from may be the one
    /// that is taken: whoever takes it has received that many insertions.
    pub fn pop_front(&mut self) -> (section: Option<TrackedFieldSection>)
        ensures
            match section {
                Some(section) => {
                    &&& old(self).sections().len() > 0
                    &&& section@ == old(self).sections()[0]
                    &&& final(self).sections() == old(self).sections().skip(1)
                    &&& final(self).max_required_insert_count == if old(self).sections().len() == 1 {
                        0
                    } else {
                        old(self).max_required_insert_count
                    }
                },
                None => old(self).sections().len() == 0 && final(self).sections() == old(self).sections() && final(self).max_required_insert_count == old(self).max_required_insert_count,
            },
    {
        let section = self.field_sections.pop_front();
        match section {
            Some(section) => {
                if self.field_sections.len() == 0 {
                    self.max_required_insert_count = 0;
                }
                assert(old(self).sections()[0] == old(self).field_sections@[0]@);
                assert(self.sections() =~= old(self).sections().skip(1));
                Some(section)
            },
            None => {
                assert(self.sections() =~= old(self).sections());
                None
            },
        }
    }

    /// All the references of the outstanding sections, where they can be counted.
    fn all_refs(&self) -> (refs: Option<BTreeMap<usize, usize>>)
        ensures
            match refs {
                Some(refs) => refs@ == refs_of(self.sections()) && forall|r: usize| #[trigger]
                    lists(self.sections(), r) ==> total_of(self.sections(), r) <= usize::MAX,
                None => exists|r: usize| #[trigger]
                    lists(self.sections(), r) && total_of(self.sections(), r) > usize::MAX,
            },
    {
        let mut refs: BTreeMap<usize, usize> = BTreeMap::new();
        let mut i: usize = 0;
        let ghost sections = self.sections();
        assert(refs@ =~= refs_of(sections.take(0)));
        while i < self.field_sections.len()
            invariant
                i <= self.field_sections@.len(),
                sections == self.sections(),
                refs@ == refs_of(sections.take(i as int)),
                forall|r: usize| #[trigger]
                    lists(sections.take(i as int), r) ==> total_of(sections.take(i as int), r)
                        <= usize::MAX,
            decreases self.field_sections@.len() - i,
        {
            let ghost head = sections.take(i as int);
            let ghost next = sections.take(i + 1);
            let section = &self.field_sections[i];
            proof {
                assert(section@ == sections[i as int]);
                assert(next =~= head.push(section@));
                assert(next.drop_last() =~= head);
            }
            if !add_refs(&mut refs, &section.refs) {
                proof {
                    let r = choose|r: usize| #[trigger] section.refs@.contains_key(r) && count_of(
                        refs_of(head),
                        r,
                    ) + section.refs@[r] > usize::MAX;
                    lemma_total_of_nonneg(head, r);
                    assert(lists(next, r));
                    lemma_total_of_take(sections, i + 1, r);
                }
                return None;
            }
            proof {
                assert forall|r: usize| #[trigger] lists(next, r) implies total_of(next, r)
                    <= usize::MAX && refs@.contains_key(r) && refs@[r] == total_of(next, r) by {
                    lemma_total_of_nonneg(head, r);
                    assert(refs_of(head).contains_key(r) == lists(head, r));
                    assert(count_of(refs_of(head), r) == total_of(head, r));
                    assert(refs@.contains_key(r));
                }
                assert(refs@ =~= refs_of(next));
            }
            i = i + 1;
        }
        assert(sections.take(i as int) =~= sections);
        Some(refs)
    }

    pub fn is_empty(&self) -> (empty: bool)
        ensures
            empty == (self.sections().len() == 0),
    {
        self.field_sections.len() == 0
    }
}

/// A dynamic table, of an encoder or of a decoder.
///
/// The entries are kept with the numbers of their insertions. An encoder's table
/// also keeps what it needs to find entries again, and to know which of them the
/// decoder may still have to look up.
pub struct DynamicTable {
    pub fields: VecDeque<HeaderField>,
    pub curr_size: usize,
    pub max_size: usize,
    pub vas: VirtualAddressSpace,
    pub field_map: FieldMap,
    pub name_map: NameMap,
    pub track_map: BTreeMap<usize, usize>,
    pub track_blocks: BTreeMap<u64, TrackedStream>,
    pub largest_known_received: usize,
    pub blocked_max: u64,
    /// The streams that are blocked, each with the insertions that it waits for.
    pub blocked_streams: Vec<(usize, u64)>,
}

impl View for DynamicTable {
    type V = TableView;

    open spec fn view(&self) -> TableView {
        TableView {
            fields: self.fields@.map_values(|field: HeaderField| field@),
            dropped: self.vas.dropped(),
            max_size: self.max_size,
            lines: self.field_map@,
            names: self.name_map@,
            ref_counts: self.track_map@,
            streams: self.track_blocks@.map_values(|stream: TrackedStream| stream.sections()),
            known_received: self.largest_known_received,
            blocked_max: self.blocked_max,
        }
    }
}

impl Default for DynamicTable {
    fn default() -> (table: Self)
        ensures
            table.wf(),
            table.fits(),
            table@ == empty_table(),
    {
        Self::new()
    }
}

/// A table that nothing was inserted into.
pub open spec fn empty_table() -> TableView {
    TableView {
        fields: Seq::empty(),
        dropped: 0,
        max_size: 0,
        lines: Map::empty(),
        names: Map::empty(),
        ref_counts: Map::empty(),
        streams: Map::empty(),
        known_received: 0,
        blocked_max: 0,
    }
}

impl DynamicTable {
    /// The entries, their sizes, their numbers and their lookup agree.
    pub open spec fn entries_wf(&self) -> bool {
        &&& self.vas.wf()
        &&& self.vas.inserted() == self.vas.dropped() + self.fields@.len()
        &&& self.curr_size == self@.size()
        &&& self.field_map.wf()
        &&& self.name_map.wf()
        &&& self@.is_sound()
    }

    /// Every stream with outstanding sections is known, and those that wait for
    /// insertions beyond what the decoder has received are the blocked streams.
    pub open spec fn tracking_wf(&self) -> bool {
        &&& forall|id: u64| #[trigger]
            self.track_blocks@.contains_key(id) ==> {
                let stream = self.track_blocks@[id];
                &&& stream.sections().len() > 0
                &&& stream.bounded()
                &&& stream.max_required_insert_count > self.largest_known_received
                    ==> stream.attained()
            }
        &&& self.blocked_streams@.no_duplicates()
        &&& forall|required: usize, id: u64| #[trigger]
            self.blocked_streams@.contains((required, id)) <==> {
                &&& self.track_blocks@.contains_key(id)
                &&& self.track_blocks@[id].max_required_insert_count == required
                &&& required > self.largest_known_received
            }
    }

    pub open spec fn wf(&self) -> bool {
        self.entries_wf() && self.tracking_wf()
    }

    /// Whether the entries are within the capacity.
    pub open spec fn fits(&self) -> bool {
        self.curr_size <= self.max_size
    }

    pub fn new() -> (table: DynamicTable)
        ensures
            table.wf(),
            table.fits(),
            table@ == empty_table(),
    {
        let table = DynamicTable {
            fields: VecDeque::new(),
            curr_size: 0,
            max_size: 0,
            vas: VirtualAddressSpace::default(),
            field_map: FieldMap::new(),
            name_map: NameMap::new(),
            track_map: BTreeMap::new(),
            track_blocks: BTreeMap::new(),
            largest_known_received: 0,
            blocked_max: 0,
            blocked_streams: Vec::new(),
        };
        assert(table@ =~= empty_table());
        table
    }

    /// Sets the number of streams the peer permits this encoder to risk blocking.
    ///
    /// See <https://www.rfc-editor.org/rfc/rfc9204.html#section-2.1.2>.
    pub fn set_max_blocked(&mut self, max: u64) -> (result: Result<(), Error>)
        requires
            old(self).wf(),
        ensures
            final(self).wf(),
            old(self).fits() ==> final(self).fits(),
            result == Ok::<(), Error>(()),
            final(self)@ == (TableView { blocked_max: max, ..old(self)@ }),
    {
        self.blocked_max = max;
        Ok(())
    }

    pub fn total_inserted(&self) -> (n: usize)
        requires
            self.wf(),
        ensures
            n == self@.inserted(),
    {
        self.vas.total_inserted()
    }

    /// The capacity.
    pub fn max_mem_size(&self) -> (size: usize)
        ensures
            size == self@.max_size,
    {
        self.max_size
    }

    /// Whether a reference to insertion number `reference` is outstanding.
    pub fn is_tracked(&self, reference: usize) -> (yes: bool)
        ensures
            yes == self@.is_tracked(reference as int),
    {
        let found = match self.track_map.get(&reference) {
            Some(count) => *count > 0,
            None => false,
        };
        assert(self@.ref_counts.contains_key(reference) == self.track_map@.contains_key(reference));
        found
    }

    /// How many of the oldest entries have to go to make room for `required`, or
    /// nothing where one of them is referred to.
    fn can_free(&self, required: usize) -> (result: Result<Option<usize>, Error>)
        requires
            self.wf(),
            self.fits(),
        ensures
            match can_free_spec(self@, required as int) {
                Err(error) => result == Err::<Option<usize>, Error>(error),
                Ok(None) => result == Ok::<Option<usize>, Error>(None),
                Ok(Some(n)) => n <= self@.fields.len() && result == Ok::<Option<usize>, Error>(
                    Some(n as usize),
                ),
            },
    {
        if required > self.max_size {
            return Err(Error::MaxTableSizeReached);
        }
        let lower_bound: usize = self.max_size - required;
        let mut size: usize = self.curr_size;
        let mut evictable: usize = 0;
        let ghost fields = self@.fields;
        let ghost needed = evictions(fields, lower_bound as int);
        proof {
            assert(fields.skip(0) =~= fields);
            lemma_evictions(fields, lower_bound as int);
            self.vas.lemma_bounds();
        }
        while evictable < self.fields.len() && size > lower_bound
            invariant
                self.wf(),
                fields == self@.fields,
                evictable <= fields.len(),
                size == lines_size(fields.skip(evictable as int)),
                size <= self.curr_size <= self.max_size,
                lower_bound == self.max_size - required,
                needed == evictable + evictions(
                    fields.skip(evictable as int),
                    lower_bound as int,
                ),
                needed == evictions(fields, lower_bound as int),
                needed <= fields.len(),
                forall|i: int|
                    0 <= i < evictable ==> !#[trigger] self@.is_tracked(self@.dropped + 1 + i),
            decreases fields.len() - evictable,
        {
            let absolute: usize = match self.vas.index(evictable) {
                Ok(absolute) => absolute,
                Err(_) => return Ok(None),
            };
            proof {
                self.vas.lemma_bounds();
                assert(fields.skip(evictable as int).skip(1) =~= fields.skip(evictable + 1));
                assert(fields.skip(evictable as int)[0] == fields[evictable as int]);
                lemma_lines_size_nonneg(fields.skip(evictable + 1));
            }
            if self.is_tracked(absolute) {
                assert(self@.is_tracked(self@.dropped + 1 + evictable) && evictable < needed);
                return Ok(None);
            }
            size = size - self.fields[evictable].mem_size();
            evictable = evictable + 1;
        }
        proof {
            if evictable == fields.len() {
                assert(lines_size(fields.skip(evictable as int)) == 0);
            }
        }
        Ok(Some(evictable))
    }

    /// Removes the oldest entry.
    fn evict_one(&mut self)
        requires
            old(self).wf(),
            old(self)@.fields.len() > 0,
        ensures
            final(self).wf(),
            final(self)@ == evicted(old(self)@, 1),
            final(self).curr_size <= old(self).curr_size,
    {
        let ghost before = *self;
        let ghost fields = self@.fields;
        proof {
            self.vas.lemma_bounds();
            lemma_lines_size_nonneg(fields.skip(1));
        }
        if let Some(field) = self.fields.pop_front() {
            assert(field@ == fields[0]);
            self.curr_size = self.curr_size - field.mem_size();
            self.vas.drop();
            let evicted_name: bool = match self.name_map.get(field.name.as_slice()) {
                Some(index) => self.vas.evicted(index),
                None => false,
            };
            if evicted_name {
                self.name_map.remove(field.name.as_slice());
            }
            let evicted_line: bool = match self.field_map.get(&field) {
                Some(index) => self.vas.evicted(index),
                None => false,
            };
            if evicted_line {
                self.field_map.remove(&field);
            }
        }
        proof {
            let dropped = before@.dropped;
            assert(self@.fields =~= fields.skip(1));
            assert(self@.names =~= live(before@.names, dropped + 1)) by {
                assert forall|name: Seq<u8>| #[trigger] before@.names.contains_key(name)
                    && before@.names[name] <= dropped + 1 implies name == fields[0].name by {
                    assert(before@.entry(before@.names[name] as int).name == name);
                }
            }
            assert(self@.lines =~= live(before@.lines, dropped + 1)) by {
                assert forall|key: (Seq<u8>, Seq<u8>)| #[trigger] before@.lines.contains_key(key)
                    && before@.lines[key] <= dropped + 1 implies key == line_key(fields[0]) by {
                    assert(line_key(before@.entry(before@.lines[key] as int)) == key);
                }
            }
            assert(self@ =~= evicted(before@, 1));
            assert forall|name: Seq<u8>| #[trigger] self@.names.contains_key(name) implies self@.holds(
                self@.names[name] as int,
            ) && self@.entry(self@.names[name] as int).name == name by {
                assert(before@.names.contains_key(name));
                let absolute = before@.names[name] as int;
                assert(self@.entry(absolute) == before@.entry(absolute));
            }
            assert forall|key: (Seq<u8>, Seq<u8>)| #[trigger] self@.lines.contains_key(key) implies self@.holds(
                self@.lines[key] as int,
            ) && line_key(self@.entry(self@.lines[key] as int)) == key by {
                assert(before@.lines.contains_key(key));
                let absolute = before@.lines[key] as int;
                assert(self@.entry(absolute) == before@.entry(absolute));
            }
        }
    }

    /// Removes the oldest entries.
    fn evict(&mut self, to_evict: usize)
        requires
            old(self).wf(),
            to_evict <= old(self)@.fields.len(),
        ensures
            final(self).wf(),
            final(self)@ == evicted(old(self)@, to_evict as int),
            final(self).curr_size <= old(self).curr_size,
    {
        let mut i: usize = 0;
        proof {
            lemma_evicted_none(self@);
        }
        while i < to_evict
            invariant
                i <= to_evict <= old(self)@.fields.len(),
                self.wf(),
                self@ == evicted(old(self)@, i as int),
                self.curr_size <= old(self).curr_size,
            decreases to_evict - i,
        {
            self.evict_one();
            proof {
                lemma_evicted_twice(old(self)@, i as int, 1);
            }
            i = i + 1;
        }
    }

    /// Adds an entry, after removing the oldest that have to make room for it.
    pub fn insert(&mut self, field: HeaderField) -> (result: Result<Option<usize>, Error>)
        requires
            old(self).wf(),
            old(self).fits() || old(self)@.max_size == 0,
        ensures
            final(self).wf(),
            final(self).fits() == old(self).fits(),
            result == insert_result(old(self)@, field@),
            final(self)@ == inserted_view(old(self)@, field@),
    {
        let ghost before = self@;
        if self.max_size == 0 {
            return Ok(None);
        }
        let size: usize = match field.checked_mem_size() {
            Some(size) => size,
            None => return Err(Error::MaxTableSizeReached),
        };
        let to_evict: usize = match self.can_free(size) {
            Ok(Some(to_evict)) => to_evict,
            Ok(None) => return Ok(None),
            Err(error) => return Err(error),
        };
        proof {
            self.vas.lemma_bounds();
        }
        if let Err(error) = self.vas.ensure_can_add() {
            return Err(from_vas_error(error));
        }
        self.evict(to_evict);
        let ghost middle = *self;
        proof {
            lemma_evictions(before.fields, before.max_size - size);
            lemma_lines_size_push(self@.fields, field@);
        }
        self.curr_size = self.curr_size + size;
        self.fields.push_back(field);
        let absolute: usize = self.vas.add();
        proof {
            assert(self@.fields =~= middle@.fields.push(field@));
            assert(self@ =~= inserted_view(before, field@));
            assert forall|name: Seq<u8>| #[trigger] self@.names.contains_key(name) implies self@.holds(
                self@.names[name] as int,
            ) && self@.entry(self@.names[name] as int).name == name by {
                assert(middle@.names.contains_key(name));
                let absolute = middle@.names[name] as int;
                assert(self@.entry(absolute) == middle@.entry(absolute));
            }
            assert forall|key: (Seq<u8>, Seq<u8>)| #[trigger] self@.lines.contains_key(key) implies self@.holds(
                self@.lines[key] as int,
            ) && line_key(self@.entry(self@.lines[key] as int)) == key by {
                assert(middle@.lines.contains_key(key));
                let absolute = middle@.lines[key] as int;
                assert(self@.entry(absolute) == middle@.entry(absolute));
            }
        }
        Ok(Some(absolute))
    }

    /// Makes the latest insertion known by its name and value, and by its name where
    /// the static table has none such.
    fn update_maps(&mut self, field: &HeaderField, index: usize)
        requires
            old(self).wf(),
            old(self).fits(),
            old(self)@.holds(index as int),
            old(self)@.entry(index as int).name == field@.name,
            old(self)@.entry(index as int).value == field@.value,
        ensures
            final(self).wf(),
            final(self).fits(),
            final(self)@ == mapped(old(self)@, field@, index),
    {
        let ghost before = *self;
        self.field_map.insert(field, index);
        if StaticTable::find_name(field.name.as_slice()).is_some() {
            assert(self@ =~= mapped(before@, field@, index));
            return;
        }
        self.name_map.insert(field.name.as_slice(), index);
        assert(self@ =~= mapped(before@, field@, index));
    }

    /// Adds an entry that an encoder can look up.
    pub fn put(&mut self, field: HeaderField) -> (result: Result<(), Error>)
        requires
            old(self).wf(),
            old(self).fits() || old(self)@.max_size == 0,
        ensures
            final(self).wf(),
            final(self).fits() == old(self).fits(),
            match insert_result(old(self)@, field@) {
                Ok(Some(index)) => {
                    &&& result == Ok::<(), Error>(())
                    &&& final(self)@ == mapped(inserted_view(old(self)@, field@), field@, index)
                },
                Ok(None) => result == Ok::<(), Error>(()) && final(self)@ == old(self)@,
                Err(error) => result == Err::<(), Error>(error) && final(self)@ == old(self)@,
            },
    {
        proof {
            self.vas.lemma_bounds();
        }
        let index: usize = match self.insert(field.clone()) {
            Ok(Some(index)) => index,
            Ok(None) => return Ok(()),
            Err(error) => return Err(error),
        };
        proof {
            lemma_inserted(old(self)@, field@);
        }
        self.update_maps(&field, index);
        Ok(())
    }

    /// Adds an entry received from the peer's encoder stream.
    ///
    /// A decoder finds entries by index, so they are not made known by name and
    /// value.
    ///
    /// See <https://www.rfc-editor.org/rfc/rfc9204.html#section-3.2.3>.
    pub fn put_decoder(&mut self, field: HeaderField) -> (result: Result<(), Error>)
        requires
            old(self).wf(),
            old(self).fits() || old(self)@.max_size == 0,
        ensures
            final(self).wf(),
            final(self).fits() == old(self).fits(),
            final(self)@ == inserted_view(old(self)@, field@),
            result == match insert_result(old(self)@, field@) {
                Ok(Some(_)) => Ok::<(), Error>(()),
                Ok(None) => Err(Error::MaxTableSizeReached),
                Err(error) => Err(error),
            },
    {
        match self.insert(field) {
            Ok(Some(_)) => Ok(()),
            Ok(None) => Err(Error::MaxTableSizeReached),
            Err(error) => Err(error),
        }
    }

    /// Sets the capacity, and removes the oldest entries that no longer fit.
    ///
    /// Where one of them is still referred to, all stay: the entries are then
    /// beyond the capacity.
    pub fn set_max_size(&mut self, size: usize) -> (result: Result<(), Error>)
        requires
            old(self).wf(),
            old(self).fits() || size >= old(self)@.max_size,
        ensures
            final(self).wf(),
            result == Ok::<(), Error>(()),
            final(self)@ == resized(old(self)@, size),
            final(self).fits() == (final(self)@.size() <= size),
    {
        let ghost before = self@;
        if size >= self.max_size {
            self.max_size = size;
            return Ok(());
        }
        let required: usize = self.max_size - size;
        proof {
            self.vas.lemma_bounds();
        }
        match self.can_free(required) {
            Ok(Some(to_evict)) => self.evict(to_evict),
            Ok(None) => {},
            Err(error) => return Err(error),
        }
        self.max_size = size;
        assert(self@ =~= resized(before, size));
        Ok(())
    }

    /// The entry that is `index` before the latest.
    pub fn get_relative(&self, index: usize) -> (field: Result<&HeaderField, Error>)
        requires
            self.wf(),
        ensures
            match field {
                Ok(field) => index < self@.fields.len() && field@ == self@.entry(
                    self@.inserted() - index,
                ),
                Err(error) => index >= self@.fields.len() && error == Error::BadRelativeIndex(index),
            },
    {
        proof {
            self.vas.lemma_bounds();
        }
        match self.vas.relative(index) {
            Ok(position) => Ok(&self.fields[position]),
            Err(error) => Err(from_vas_error(error)),
        }
    }

    /// Counts one more reference to an insertion.
    pub fn track_ref(&mut self, reference: usize)
        requires
            old(self).wf(),
            count_of(old(self)@.ref_counts, reference) < usize::MAX,
        ensures
            final(self).wf(),
            final(self)@ == (TableView {
                ref_counts: bumped(old(self)@.ref_counts, reference),
                ..old(self)@
            }),
            final(self).fits() == old(self).fits(),
    {
        let count: usize = match self.track_map.get(&reference) {
            Some(count) => *count,
            None => 0,
        };
        self.track_map.insert(reference, count + 1);
    }

    /// Whether all of `refs` are counted.
    fn validate_refs(&self, refs: &BTreeMap<usize, usize>) -> (result: Result<(), Error>)
        ensures
            result == if covers(self@.ref_counts, refs@) {
                Ok::<(), Error>(())
            } else {
                Err(Error::InvalidTrackingCount)
            },
    {
        for pair in it: refs.iter()
            invariant
                forall|i: int|
                    0 <= i < it.index() ==> self@.ref_counts.contains_key(*(#[trigger] it.seq()[i]).0)
                        && *it.seq()[i].1 <= self@.ref_counts[*it.seq()[i].0],
        {
            let reference: usize = *pair.0;
            let count: usize = *pair.1;
            let enough: bool = match self.track_map.get(&reference) {
                Some(total) => *total >= count,
                None => false,
            };
            if !enough {
                assert(refs@.contains_key(reference));
                return Err(Error::InvalidTrackingCount);
            }
        }
        Ok(())
    }

    /// Gives back references that are counted.
    fn release_refs_validated(&mut self, refs: &BTreeMap<usize, usize>)
        requires
            covers(old(self)@.ref_counts, refs@),
        ensures
            *final(self) == (DynamicTable { track_map: final(self).track_map, ..*old(self) }),
            final(self)@.ref_counts == released(old(self)@.ref_counts, refs@),
    {
        release(&mut self.track_map, refs);
    }

    /// Whether an outstanding field section of the stream waits for insertions that
    /// the decoder is not known to have received.
    pub fn stream_is_blocked(&self, stream_id: u64) -> (blocked: bool)
        requires
            self.wf(),
        ensures
            blocked == self@.is_blocked(stream_id),
    {
        match self.track_blocks.get(&stream_id) {
            Some(stream) => {
                proof {
                    lemma_blocked(*self, stream_id);
                }
                stream.max_required_insert_count > self.largest_known_received
            },
            None => {
                assert(!self@.streams.contains_key(stream_id));
                false
            },
        }
    }

    /// Whether as many streams are blocked as may be.
    pub fn blocked_limit_reached(&self) -> (reached: bool)
        requires
            self.wf(),
        ensures
            reached == (self@.blocked().len() >= self@.blocked_max),
            self@.blocked().finite(),
    {
        proof {
            lemma_blocked_count(*self);
        }
        self.blocked_streams.len() as u64 >= self.blocked_max
    }

    /// Notes that a stream waits for `current_required` insertions instead of
    /// `previous_required`, as far as the decoder is not known to have them.
    fn replace_blocked_requirement(
        &mut self,
        stream_id: u64,
        previous_required: usize,
        current_required: usize,
    )
        requires
            old(self).blocked_streams@.no_duplicates(),
        ensures
            *final(self) == (DynamicTable {
                blocked_streams: final(self).blocked_streams,
                ..*old(self)
            }),
            final(self).blocked_streams@.no_duplicates(),
            forall|required: usize, id: u64| #[trigger]
                final(self).blocked_streams@.contains((required, id)) <==> {
                    ||| old(self).blocked_streams@.contains((required, id)) && !(previous_required
                        > old(self).largest_known_received && required == previous_required && id
                        == stream_id)
                    ||| current_required > old(self).largest_known_received && required
                        == current_required && id == stream_id
                },
    {
        if previous_required > self.largest_known_received {
            remove_pair(&mut self.blocked_streams, previous_required, stream_id);
        }
        if current_required > self.largest_known_received {
            insert_pair(&mut self.blocked_streams, current_required, stream_id);
        }
    }

    /// Notes that the decoder has received insertions, and unblocks the streams that
    /// waited for no more.
    fn advance_largest_received(&mut self, largest_known_received: usize)
        requires
            old(self).blocked_streams@.no_duplicates(),
            forall|required: usize, id: u64| #[trigger]
                old(self).blocked_streams@.contains((required, id)) ==> required > old(self).largest_known_received,
        ensures
            *final(self) == (DynamicTable {
                largest_known_received: if largest_known_received > old(self).largest_known_received {
                    largest_known_received
                } else {
                    old(self).largest_known_received
                },
                blocked_streams: final(self).blocked_streams,
                ..*old(self)
            }),
            final(self).blocked_streams@.no_duplicates(),
            forall|required: usize, id: u64| #[trigger]
                final(self).blocked_streams@.contains((required, id)) <==> old(self).blocked_streams@.contains((required, id)) && required > final(self).largest_known_received,
    {
        if largest_known_received <= self.largest_known_received {
            return;
        }
        self.largest_known_received = largest_known_received;
        retain_above(&mut self.blocked_streams, largest_known_received);
    }

    /// Notes that a field section was sent, with the insertions that it requires and
    /// its references, which are counted already.
    fn track_block(
        &mut self,
        stream_id: u64,
        required_insert_count: usize,
        refs: BTreeMap<usize, usize>,
    )
        requires
            old(self).wf(),
        ensures
            final(self).wf(),
            final(self).fits() == old(self).fits(),
            final(self)@ == sent(
                old(self)@,
                stream_id,
                (SectionView { required: required_insert_count, refs: refs@ }),
            ),
    {
        let ghost before = *self;
        let ghost section = SectionView { required: required_insert_count, refs: refs@ };
        let mut stream: TrackedStream = match self.track_blocks.remove(&stream_id) {
            Some(stream) => stream,
            None => TrackedStream::default(),
        };
        let ghost sections = stream.sections();
        let previous_required: usize = stream.max_required_insert_count;
        let ghost attained = stream.attained();
        stream.push(TrackedFieldSection { required_insert_count, refs });
        let current_required: usize = stream.max_required_insert_count;
        proof {
            assert forall|i: int| 0 <= i < sections.len() implies #[trigger] stream.sections()[i]
                == sections[i] by {}
            assert(stream.sections()[sections.len() as int] == section);
            if current_required > before.largest_known_received {
                if current_required != required_insert_count {
                    assert(before.track_blocks@[stream_id].attained());
                    let i = choose|i: int|
                        0 <= i < sections.len() && (#[trigger] sections[i]).required
                            == previous_required;
                    assert(stream.sections()[i].required == current_required);
                }
                assert(stream.attained());
            }
            assert(stream.bounded());
        }
        self.track_blocks.insert(stream_id, stream);
        self.replace_blocked_requirement(stream_id, previous_required, current_required);
        proof {
            assert(self@.streams =~= sent(before@, stream_id, section).streams);
            assert(self@ =~= sent(before@, stream_id, section));
            assert(self.tracking_wf());
        }
    }

    /// Applies a Section Acknowledgment to the oldest outstanding field section of
    /// the stream.
    ///
    /// The decoder has then received what the section requires. Only the references
    /// of this section are given back.
    ///
    /// See <https://www.rfc-editor.org/rfc/rfc9204.html#section-2.2.2.1>.
    pub fn acknowledge_section(&mut self, stream_id: u64) -> (result: Result<(), Error>)
        requires
            old(self).wf(),
        ensures
            final(self).wf(),
            final(self).fits() == old(self).fits(),
            result == acknowledge_result(old(self)@, stream_id),
            final(self)@ == if result is Ok {
                acknowledged(old(self)@, stream_id)
            } else {
                old(self)@
            },
    {
        let ghost before = *self;
        let required_insert_count: usize = match self.track_blocks.get(&stream_id) {
            None => {
                assert(!self@.streams.contains_key(stream_id));
                return Err(Error::UnknownStreamId(stream_id));
            },
            Some(stream) => {
                assert(self@.streams[stream_id] == stream.sections());
                if stream.field_sections.len() == 0 {
                    return Err(Error::NoTrackingData);
                }
                let section = &stream.field_sections[0];
                assert(section@ == stream.sections()[0]);
                if let Err(error) = self.validate_refs(&section.refs) {
                    return Err(error);
                }
                section.required_insert_count
            },
        };
        if required_insert_count > self.total_inserted() {
            return Err(Error::InvalidTrackingCount);
        }
        let mut stream: TrackedStream = match self.track_blocks.remove(&stream_id) {
            Some(stream) => stream,
            None => return Err(Error::UnknownStreamId(stream_id)),
        };
        let ghost sections = stream.sections();
        let previous_required: usize = stream.max_required_insert_count;
        let section: TrackedFieldSection = match stream.pop_front() {
            Some(section) => section,
            None => return Err(Error::NoTrackingData),
        };
        let current_required: usize = stream.max_required_insert_count;
        self.advance_largest_received(required_insert_count);
        self.replace_blocked_requirement(stream_id, previous_required, current_required);
        self.release_refs_validated(&section.refs);
        proof {
            assert(stream.sections() == sections.skip(1));
            if stream.sections().len() > 0 {
                assert(stream.bounded()) by {
                    assert forall|i: int| 0 <= i < stream.sections().len() implies (
                    #[trigger] stream.sections()[i]).required
                        <= stream.max_required_insert_count by {
                        assert(stream.sections()[i] == sections[i + 1]);
                    }
                }
                if current_required > self.largest_known_received {
                    assert(before.track_blocks@[stream_id].attained());
                    let i = choose|i: int|
                        0 <= i < sections.len() && (#[trigger] sections[i]).required
                            == previous_required;
                    assert(i != 0);
                    assert(stream.sections()[i - 1].required == current_required);
                    assert(stream.attained());
                }
            }
        }
        if !stream.is_empty() {
            self.track_blocks.insert(stream_id, stream);
        }
        proof {
            assert(self@.streams =~= acknowledged(before@, stream_id).streams);
            assert(self@ =~= acknowledged(before@, stream_id));
            assert(self.tracking_wf());
        }
        Ok(())
    }

    /// Gives back every outstanding reference of the stream.
    ///
    /// A cancellation for a stream without outstanding field sections is harmless.
    ///
    /// See <https://www.rfc-editor.org/rfc/rfc9204.html#section-2.2.2.2>.
    pub fn cancel_stream(&mut self, stream_id: u64) -> (result: Result<(), Error>)
        requires
            old(self).wf(),
        ensures
            final(self).wf(),
            final(self).fits() == old(self).fits(),
            result == cancel_result(old(self)@, stream_id),
            final(self)@ == if result is Ok {
                canceled(old(self)@, stream_id)
            } else {
                old(self)@
            },
    {
        let ghost before = *self;
        let (refs, previous_required): (BTreeMap<usize, usize>, usize) = match self.track_blocks.get(
            &stream_id,
        ) {
            None => {
                assert(!self@.streams.contains_key(stream_id));
                return Ok(());
            },
            Some(stream) => {
                assert(self@.streams[stream_id] == stream.sections());
                match stream.all_refs() {
                    Some(refs) => (refs, stream.max_required_insert_count),
                    None => {
                        proof {
                            let r = choose|r: usize| #[trigger] lists(stream.sections(), r) && total_of(
                                stream.sections(),
                                r,
                            ) > usize::MAX;
                            assert(!covers_all(self@.ref_counts, stream.sections()));
                        }
                        return Err(Error::InvalidTrackingCount);
                    },
                }
            },
        };
        let ghost sections = before@.streams[stream_id];
        assert(covers(self@.ref_counts, refs@) == covers_all(self@.ref_counts, sections)) by {
            if covers(self@.ref_counts, refs@) {
                assert forall|r: usize| #[trigger] lists(sections, r) implies self@.ref_counts.contains_key(
                    r,
                ) && total_of(sections, r) <= self@.ref_counts[r] by {
                    assert(refs@.contains_key(r));
                    lemma_total_of_nonneg(sections, r);
                }
            } else {
                let r = choose|r: usize| #[trigger] refs@.contains_key(r) && !(
                self@.ref_counts.contains_key(r) && refs@[r] <= self@.ref_counts[r]);
                assert(lists(sections, r));
                lemma_total_of_nonneg(sections, r);
            }
        }
        if let Err(error) = self.validate_refs(&refs) {
            return Err(error);
        }
        self.track_blocks.remove(&stream_id);
        remove_pair(&mut self.blocked_streams, previous_required, stream_id);
        self.release_refs_validated(&refs);
        proof {
            assert(self@.streams =~= before@.streams.remove(stream_id));
            assert(self@ =~= canceled(before@, stream_id));
            assert(self.tracking_wf());
        }
        Ok(())
    }

    /// Applies an Insert Count Increment received from the decoder.
    ///
    /// Zero is invalid, and the decoder cannot have received more insertions than
    /// were sent.
    ///
    /// See <https://www.rfc-editor.org/rfc/rfc9204.html#section-4.4.3>.
    pub fn update_largest_received(&mut self, increment: usize) -> (result: Result<(), Error>)
        requires
            old(self).wf(),
        ensures
            final(self).wf(),
            final(self).fits() == old(self).fits(),
            if increment > 0 && old(self)@.known_received + increment <= old(self)@.inserted() {
                &&& result == Ok::<(), Error>(())
                &&& final(self)@ == (TableView {
                    known_received: (old(self)@.known_received + increment) as usize,
                    ..old(self)@
                })
            } else {
                &&& result == Err::<(), Error>(Error::InvalidInsertCountIncrement)
                &&& final(self)@ == old(self)@
            },
    {
        proof {
            self.vas.lemma_bounds();
        }
        if increment == 0 {
            return Err(Error::InvalidInsertCountIncrement);
        }
        let largest_known_received: usize = match self.largest_known_received.checked_add(increment) {
            Some(count) => count,
            None => return Err(Error::InvalidInsertCountIncrement),
        };
        if largest_known_received > self.total_inserted() {
            return Err(Error::InvalidInsertCountIncrement);
        }
        self.advance_largest_received(largest_known_received);
        Ok(())
    }

    /// Looks entries up for a field section.
    pub fn decoder(&self, base: usize, required_ref: usize) -> (decoder: DynamicTableDecoder<'_>)
        requires
            self.wf(),
        ensures
            decoder.wf(),
            decoder.table() == self@,
            decoder.base() == base,
            decoder.required_ref() == required_ref,
    {
        DynamicTableDecoder { table: self, base, required_ref }
    }
}

/// The cached count of a stream tells whether it is blocked.
proof fn lemma_blocked(table: DynamicTable, id: u64)
    requires
        table.wf(),
        table.track_blocks@.contains_key(id),
    ensures
        table@.is_blocked(id) == (table.track_blocks@[id].max_required_insert_count
            > table.largest_known_received),
{
    let stream = table.track_blocks@[id];
    assert(table@.streams[id] == stream.sections());
    if stream.max_required_insert_count > table.largest_known_received {
        let i = choose|i: int|
            0 <= i < stream.sections().len() && (#[trigger] stream.sections()[i]).required
                == stream.max_required_insert_count;
        assert(table@.streams[id][i].required > table.largest_known_received);
    }
}

/// There are as many blocked streams as are listed.
proof fn lemma_blocked_count(table: DynamicTable)
    requires
        table.wf(),
    ensures
        table@.blocked().finite(),
        table@.blocked().len() == table.blocked_streams@.len(),
{
    let ids = table.blocked_streams@.map_values(|pair: (usize, u64)| pair.1);
    assert(ids.no_duplicates()) by {
        assert forall|i: int, j: int| 0 <= i < j < ids.len() implies ids[i] != ids[j] by {
            let a = table.blocked_streams@[i];
            let b = table.blocked_streams@[j];
            assert(table.blocked_streams@.contains((a.0, a.1)));
            assert(table.blocked_streams@.contains((b.0, b.1)));
        }
    }
    ids.unique_seq_to_set();
    assert(ids.to_set() =~= table@.blocked()) by {
        assert forall|id: u64| ids.to_set().contains(id) implies table@.is_blocked(id) by {
            let i = choose|i: int| 0 <= i < ids.len() && ids[i] == id;
            let pair = table.blocked_streams@[i];
            assert(table.blocked_streams@.contains((pair.0, pair.1)));
            lemma_blocked(table, id);
        }
        assert forall|id: u64| table@.is_blocked(id) implies ids.to_set().contains(id) by {
            assert(table.track_blocks@.contains_key(id));
            lemma_blocked(table, id);
            let required = table.track_blocks@[id].max_required_insert_count;
            assert(table.blocked_streams@.contains((required, id)));
            let i = choose|i: int|
                0 <= i < table.blocked_streams@.len() && table.blocked_streams@[i] == (required, id);
            assert(ids[i] == id);
        }
    }
}

/// Adds references, unless they can no longer be counted.
fn add_refs(refs: &mut BTreeMap<usize, usize>, more: &BTreeMap<usize, usize>) -> (added: bool)
    ensures
        if added {
            &&& forall|r: usize| #[trigger]
                final(refs)@.contains_key(r) <==> old(refs)@.contains_key(r) || more@.contains_key(r)
            &&& forall|r: usize| #[trigger]
                final(refs)@.contains_key(r) ==> final(refs)@[r] == count_of(old(refs)@, r) + count_of(
                    more@,
                    r,
                )
        } else {
            exists|r: usize| #[trigger]
                more@.contains_key(r) && count_of(old(refs)@, r) + more@[r] > usize::MAX
        },
{
    for pair in it: more.iter()
        invariant
            it.seq().no_duplicates(),
            forall|i: int|
                0 <= i < it.seq().len() ==> more@.contains_key(*(#[trigger] it.seq()[i]).0)
                    && more@[*it.seq()[i].0] == *it.seq()[i].1,
            forall|r: usize| #[trigger]
                refs@.contains_key(r) <==> old(refs)@.contains_key(r) || seen(
                    it.seq(),
                    it.index() as int,
                    r,
                ),
            forall|r: usize| #[trigger]
                refs@.contains_key(r) ==> refs@[r] == count_of(old(refs)@, r) + if seen(
                    it.seq(),
                    it.index() as int,
                    r,
                ) {
                    count_of(more@, r)
                } else {
                    0
                },
    {
        let reference: usize = *pair.0;
        let count: usize = *pair.1;
        let ghost n = it.index();
        proof {
            assert(*it.seq()[n].0 == reference && *it.seq()[n].1 == count);
            assert forall|i: int| 0 <= i < n implies *(#[trigger] it.seq()[i]).0 != reference by {
                if *it.seq()[i].0 == reference {
                    assert(it.seq()[i] == it.seq()[n]);
                }
            }
            assert(!seen(it.seq(), n as int, reference));
        }
        let total: usize = match refs.get(&reference) {
            Some(total) => *total,
            None => 0,
        };
        assert(total == count_of(old(refs)@, reference));
        match total.checked_add(count) {
            Some(total) => {
                refs.insert(reference, total);
            },
            None => {
                assert(more@.contains_key(reference));
                return false;
            },
        }
        proof {
            assert forall|r: usize| #[trigger] seen(it.seq(), n + 1, r) <==> (r == reference || seen(
                it.seq(),
                n as int,
                r,
            )) by {
                if r == reference {
                    assert(*it.seq()[n].0 == r);
                }
            }
        }
    }
    true
}

/// Whether `r` is the key of one of the first `n` pairs.
spec fn seen(pairs: Seq<(&usize, &usize)>, n: int, r: usize) -> bool {
    exists|i: int| 0 <= i < n && *(#[trigger] pairs[i]).0 == r
}

/// Gives back references that are counted.
fn release(counts: &mut BTreeMap<usize, usize>, refs: &BTreeMap<usize, usize>)
    requires
        covers(old(counts)@, refs@),
    ensures
        final(counts)@ == released(old(counts)@, refs@),
{
    let ghost goal = released(counts@, refs@);
    for pair in it: refs.iter()
        invariant
            covers(old(counts)@, refs@),
            goal == released(old(counts)@, refs@),
            it.seq().no_duplicates(),
            forall|i: int|
                0 <= i < it.seq().len() ==> refs@.contains_key(*(#[trigger] it.seq()[i]).0)
                    && refs@[*it.seq()[i].0] == *it.seq()[i].1,
            forall|r: usize| #[trigger]
                counts@.contains_key(r) <==> if seen(it.seq(), it.index() as int, r) {
                    goal.contains_key(r)
                } else {
                    old(counts)@.contains_key(r)
                },
            forall|r: usize| #[trigger]
                counts@.contains_key(r) ==> counts@[r] == if seen(it.seq(), it.index() as int, r) {
                    goal[r]
                } else {
                    old(counts)@[r]
                },
    {
        let reference: usize = *pair.0;
        let count: usize = *pair.1;
        let ghost n = it.index();
        proof {
            assert(*it.seq()[n].0 == reference && *it.seq()[n].1 == count);
            assert forall|i: int| 0 <= i < n implies *(#[trigger] it.seq()[i]).0 != reference by {
                if *it.seq()[i].0 == reference {
                    assert(it.seq()[i] == it.seq()[n]);
                }
            }
        }
        let remaining: usize = match counts.get(&reference) {
            Some(total) => *total - count,
            None => 0,
        };
        if remaining == 0 {
            counts.remove(&reference);
        } else {
            counts.insert(reference, remaining);
        }
        proof {
            assert forall|r: usize| #[trigger] seen(it.seq(), n + 1, r) <==> (r == reference || seen(
                it.seq(),
                n as int,
                r,
            )) by {
                if r == reference {
                    assert(*it.seq()[n].0 == r);
                }
            }
        }
    }
    assert(counts@ =~= goal);
}

/// Takes a pair out of a list that holds it at most once.
fn remove_pair(pairs: &mut Vec<(usize, u64)>, required: usize, stream_id: u64)
    requires
        old(pairs)@.no_duplicates(),
    ensures
        final(pairs)@.no_duplicates(),
        forall|pair: (usize, u64)| #[trigger]
            final(pairs)@.contains(pair) <==> old(pairs)@.contains(pair) && pair != (
                required,
                stream_id,
            ),
{
    let mut i: usize = 0;
    while i < pairs.len()
        invariant
            i <= pairs@.len(),
            pairs@ == old(pairs)@,
            pairs@.no_duplicates(),
            forall|j: int| 0 <= j < i ==> pairs@[j] != (required, stream_id),
        decreases pairs@.len() - i,
    {
        if pairs[i].0 == required && pairs[i].1 == stream_id {
            pairs.remove(i);
            proof {
                let before = old(pairs)@;
                assert forall|pair: (usize, u64)| #[trigger] pairs@.contains(pair) <==> before.contains(
                    pair,
                ) && pair != (required, stream_id) by {
                    if pairs@.contains(pair) {
                        let k = choose|k: int| 0 <= k < pairs@.len() && pairs@[k] == pair;
                        assert(before[if k < i { k } else { k + 1 }] == pair);
                        assert(before[i as int] == (required, stream_id));
                    }
                    if before.contains(pair) && pair != (required, stream_id) {
                        let k = choose|k: int| 0 <= k < before.len() && before[k] == pair;
                        assert(pairs@[if k < i { k } else { k - 1 }] == pair);
                    }
                }
            }
            return;
        }
        i = i + 1;
    }
    proof {
        assert(!pairs@.contains((required, stream_id)));
    }
}

/// Adds a pair to a list, unless it is there.
fn insert_pair(pairs: &mut Vec<(usize, u64)>, required: usize, stream_id: u64)
    requires
        old(pairs)@.no_duplicates(),
    ensures
        final(pairs)@.no_duplicates(),
        forall|pair: (usize, u64)| #[trigger]
            final(pairs)@.contains(pair) <==> old(pairs)@.contains(pair) || pair == (
                required,
                stream_id,
            ),
{
    let mut i: usize = 0;
    while i < pairs.len()
        invariant
            i <= pairs@.len(),
            pairs@ == old(pairs)@,
            pairs@.no_duplicates(),
            forall|j: int| 0 <= j < i ==> pairs@[j] != (required, stream_id),
        decreases pairs@.len() - i,
    {
        if pairs[i].0 == required && pairs[i].1 == stream_id {
            assert(pairs@[i as int] == (required, stream_id));
            return;
        }
        i = i + 1;
    }
    pairs.push((required, stream_id));
    proof {
        let before = old(pairs)@;
        assert forall|pair: (usize, u64)| #[trigger] pairs@.contains(pair) <==> before.contains(pair)
            || pair == (required, stream_id) by {
            if before.contains(pair) {
                let k = choose|k: int| 0 <= k < before.len() && before[k] == pair;
                assert(pairs@[k] == pair);
            }
            if pair == (required, stream_id) {
                assert(pairs@[before.len() as int] == pair);
            }
            if pairs@.contains(pair) {
                let k = choose|k: int| 0 <= k < pairs@.len() && pairs@[k] == pair;
                assert(k < before.len() ==> before[k] == pair);
            }
        }
    }
}

/// Keeps the pairs that wait for more than `limit` insertions.
fn retain_above(pairs: &mut Vec<(usize, u64)>, limit: usize)
    requires
        old(pairs)@.no_duplicates(),
    ensures
        final(pairs)@.no_duplicates(),
        forall|pair: (usize, u64)| #[trigger]
            final(pairs)@.contains(pair) <==> old(pairs)@.contains(pair) && pair.0 > limit,
{
    let ghost before = pairs@;
    let mut kept: Vec<(usize, u64)> = Vec::new();
    let mut i: usize = 0;
    while i < pairs.len()
        invariant
            i <= pairs@.len(),
            pairs@ == before,
            before.no_duplicates(),
            kept@.no_duplicates(),
            forall|pair: (usize, u64)| #[trigger]
                kept@.contains(pair) <==> before.take(i as int).contains(pair) && pair.0 > limit,
        decreases pairs@.len() - i,
    {
        let pair = (pairs[i].0, pairs[i].1);
        proof {
            let head = before.take(i as int);
            let next = before.take(i + 1);
            assert(next =~= head.push(pair));
            assert(!head.contains(pair)) by {
                if head.contains(pair) {
                    let k = choose|k: int| 0 <= k < head.len() && head[k] == pair;
                    assert(before[k] == before[i as int]);
                }
            }
            assert forall|p: (usize, u64)| #[trigger] next.contains(p) <==> head.contains(p) || p == pair by {
                if head.contains(p) {
                    let k = choose|k: int| 0 <= k < head.len() && head[k] == p;
                    assert(next[k] == p);
                }
                if p == pair {
                    assert(next[i as int] == p);
                }
            }
        }
        if pair.0 > limit {
            let ghost held = kept@;
            assert(!held.contains(pair));
            kept.push(pair);
            proof {
                assert forall|p: (usize, u64)| #[trigger] kept@.contains(p) <==> held.contains(p) || p
                    == pair by {
                    if held.contains(p) {
                        let k = choose|k: int| 0 <= k < held.len() && held[k] == p;
                        assert(kept@[k] == p);
                    }
                    if p == pair {
                        assert(kept@[held.len() as int] == p);
                    }
                }
            }
        }
        i = i + 1;
    }
    assert(before.take(i as int) =~= before);
    *pairs = kept;
}

/// The table after a field section was sent on a stream.
pub open spec fn sent(table: TableView, stream_id: u64, section: SectionView) -> TableView {
    let earlier = if table.streams.contains_key(stream_id) {
        table.streams[stream_id]
    } else {
        Seq::empty()
    };
    TableView { streams: table.streams.insert(stream_id, earlier.push(section)), ..table }
}

/// Whether a Section Acknowledgment is in order: the stream has an outstanding
/// field section, whose references are counted, and which requires no more than
/// was inserted.
pub open spec fn acknowledge_result(table: TableView, stream_id: u64) -> Result<(), Error> {
    if !table.streams.contains_key(stream_id) {
        Err(Error::UnknownStreamId(stream_id))
    } else {
        let section = table.streams[stream_id][0];
        if covers(table.ref_counts, section.refs) && section.required <= table.inserted() {
            Ok(())
        } else {
            Err(Error::InvalidTrackingCount)
        }
    }
}

/// The table after the oldest field section of a stream was acknowledged.
pub open spec fn acknowledged(table: TableView, stream_id: u64) -> TableView {
    let sections = table.streams[stream_id];
    let section = sections[0];
    TableView {
        ref_counts: released(table.ref_counts, section.refs),
        streams: if sections.len() == 1 {
            table.streams.remove(stream_id)
        } else {
            table.streams.insert(stream_id, sections.skip(1))
        },
        known_received: if section.required > table.known_received {
            section.required
        } else {
            table.known_received
        },
        ..table
    }
}

/// Whether a Stream Cancellation is in order: all the references of the stream are
/// counted.
pub open spec fn cancel_result(table: TableView, stream_id: u64) -> Result<(), Error> {
    if !table.streams.contains_key(stream_id) || covers_all(
        table.ref_counts,
        table.streams[stream_id],
    ) {
        Ok(())
    } else {
        Err(Error::InvalidTrackingCount)
    }
}

/// The table after the field sections of a stream were canceled.
pub open spec fn canceled(table: TableView, stream_id: u64) -> TableView {
    if table.streams.contains_key(stream_id) {
        TableView {
            ref_counts: released(table.ref_counts, refs_of(table.streams[stream_id])),
            streams: table.streams.remove(stream_id),
            ..table
        }
    } else {
        table
    }
}

/// The table with `field`, which is insertion number `index`, made known by its
/// name and value, and by its name where the static table has none such.
pub open spec fn mapped(table: TableView, field: FieldView, index: usize) -> TableView {
    TableView {
        lines: table.lines.insert(line_key(field), index),
        names: if find_name_spec(field.name) is Some {
            table.names
        } else {
            table.names.insert(field.name, index)
        },
        ..table
    }
}

/// The table with another capacity, and without the oldest entries that have to go
/// for that and may.
pub open spec fn resized(table: TableView, size: usize) -> TableView {
    let kept = if size >= table.max_size {
        table
    } else {
        match can_free_spec(table, table.max_size - size) {
            Ok(Some(n)) => evicted(table, n as int),
            _ => table,
        }
    };
    TableView { max_size: size, ..kept }
}

/// Resizing inserts nothing.
pub proof fn lemma_resized(table: TableView, size: usize)
    ensures
        resized(table, size).inserted() == table.inserted(),
{
    if size < table.max_size {
        lemma_evictions(table.fields, size as int);
    }
}

/// A table that nothing refers to can be shrunk to any capacity.
pub proof fn unreferenced_table_shrinks(table: TableView, size: usize)
    requires
        forall|absolute: int| !#[trigger] table.is_tracked(absolute),
        table.size() <= table.max_size,
    ensures
        resized(table, size).size() <= size,
{
    if size < table.max_size {
        lemma_evictions(table.fields, size as int);
    }
}

/// An entry that is referred to stays in the table, whatever is inserted and however the
/// capacity changes, and it keeps its number.
pub proof fn referenced_entries_stay(
    table: TableView,
    absolute: int,
    field: FieldView,
    size: usize,
)
    requires
        table.holds(absolute),
        table.is_tracked(absolute),
    ensures
        inserted_view(table, field).holds(absolute),
        inserted_view(table, field).entry(absolute) == table.entry(absolute),
        resized(table, size).holds(absolute),
        resized(table, size).entry(absolute) == table.entry(absolute),
{
    if insert_result(table, field) matches Ok(Some(_)) {
        let n = evictions(table.fields, table.max_size - field.size());
        lemma_evictions(table.fields, table.max_size - field.size());
        if absolute <= table.dropped + n {
            assert(!table.is_tracked(table.dropped + 1 + (absolute - table.dropped - 1)));
        }
    }
    if size < table.max_size {
        let n = evictions(table.fields, size as int);
        lemma_evictions(table.fields, size as int);
        if can_free_spec(table, table.max_size - size) matches Ok(Some(_)) {
            if absolute <= table.dropped + n {
                assert(!table.is_tracked(table.dropped + 1 + (absolute - table.dropped - 1)));
            }
        }
    }
}

/// Looks entries up for a field section, by their distance from its Base, among
/// the insertions that it requires.
pub struct DynamicTableDecoder<'a> {
    table: &'a DynamicTable,
    base: usize,
    required_ref: usize,
}

/// The insertion that is `index` before `base`: found where the section requires
/// it and it is in the table.
pub open spec fn relative_spec(table: TableView, base: int, required: int, index: usize) -> Result<
    FieldView,
    Error,
> {
    let absolute = base - index;
    if !(1 <= absolute <= required) || absolute <= table.dropped || table.fields.len() == 0 {
        Err(Error::BadRelativeIndex(index))
    } else if absolute > table.inserted() {
        Err(Error::BadIndex((absolute - table.dropped - 1) as usize))
    } else {
        Ok(table.entry(absolute))
    }
}

/// The insertion that is `index` after `base`: found where the section requires
/// it and it is in the table.
pub open spec fn postbase_spec(table: TableView, base: int, required: int, index: usize) -> Result<
    FieldView,
    Error,
> {
    let absolute = base + index + 1;
    if absolute <= required && table.holds(absolute) {
        Ok(table.entry(absolute))
    } else {
        Err(Error::BadPostbaseIndex(index))
    }
}

impl<'a> DynamicTableDecoder<'a> {
    pub closed spec fn wf(&self) -> bool {
        self.table.wf()
    }

    pub closed spec fn table(&self) -> TableView {
        self.table@
    }

    pub closed spec fn base(&self) -> int {
        self.base as int
    }

    pub closed spec fn required_ref(&self) -> int {
        self.required_ref as int
    }

    /// The entry that is `index` before the Base.
    ///
    /// A field section cannot refer to an insertion beyond its Required Insert
    /// Count.
    ///
    /// See <https://www.rfc-editor.org/rfc/rfc9204.html#section-4.5.1.1>.
    pub fn get_relative(&self, index: usize) -> (field: Result<&'a HeaderField, Error>)
        requires
            self.wf(),
        ensures
            crate::buf::view_ref(field) == relative_spec(
                self.table(),
                self.base(),
                self.required_ref(),
                index,
            ),
    {
        if index >= self.base || self.base - index > self.required_ref {
            return Err(Error::BadRelativeIndex(index));
        }
        let table = self.table;
        proof {
            table.vas.lemma_bounds();
        }
        match table.vas.relative_base(self.base, index) {
            Ok(position) => if position < table.fields.len() {
                Ok(&table.fields[position])
            } else {
                Err(Error::BadIndex(position))
            },
            Err(error) => Err(from_vas_error(error)),
        }
    }

    /// The entry that is `index` after the Base.
    ///
    /// See <https://www.rfc-editor.org/rfc/rfc9204.html#section-4.5.1.1>.
    pub fn get_postbase(&self, index: usize) -> (field: Result<&'a HeaderField, Error>)
        requires
            self.wf(),
        ensures
            crate::buf::view_ref(field) == postbase_spec(
                self.table(),
                self.base(),
                self.required_ref(),
                index,
            ),
    {
        match self.base.checked_add(index) {
            Some(before) => if before >= self.required_ref {
                return Err(Error::BadPostbaseIndex(index));
            },
            None => return Err(Error::BadPostbaseIndex(index)),
        }
        let table = self.table;
        proof {
            table.vas.lemma_bounds();
        }
        match table.vas.post_base(self.base, index) {
            Ok(position) => Ok(&table.fields[position]),
            Err(error) => Err(from_vas_error(error)),
        }
    }
}

} // verus!
