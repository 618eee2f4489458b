//! Pseudo-header fields: their order, and which of them are sensitive.
use vstd::prelude::*;

verus! {

/// A pseudo-header field.
///
/// The order of these fields in a header block can be chosen.
#[derive(Debug, Clone, Copy, PartialEq, Eq, Hash, Structural)]
pub enum PseudoId {
    /// The `:method` pseudo-header field.
    Method,
    /// The `:scheme` pseudo-header field.
    Scheme,
    /// The `:authority` pseudo-header field.
    Authority,
    /// The `:path` pseudo-header field.
    Path,
    /// The `:protocol` pseudo-header field.
    Protocol,
    /// The `:status` pseudo-header field.
    Status,
}

/// The bit that stands for a field.
pub open spec fn mask_of(id: PseudoId) -> u8 {
    match id {
        PseudoId::Method => 0x01,
        PseudoId::Scheme => 0x02,
        PseudoId::Authority => 0x04,
        PseudoId::Path => 0x08,
        PseudoId::Protocol => 0x10,
        PseudoId::Status => 0x20,
    }
}

/// Whether the bit of a field is set.
pub open spec fn marked(mask: u8, id: PseudoId) -> bool {
    mask & mask_of(id) != 0
}

impl PseudoId {
    /// How many pseudo-header fields there are.
    pub const DEFAULT_STACK_SIZE: usize = 6;

    /// All pseudo-header fields, in the order that is used where none is chosen.
    pub const DEFAULT_IDS: [PseudoId; 6] = [
        PseudoId::Method,
        PseudoId::Scheme,
        PseudoId::Authority,
        PseudoId::Path,
        PseudoId::Protocol,
        PseudoId::Status,
    ];

    /// The bit that stands for the field.
    pub fn mask_id(self) -> (mask: u8)
        ensures
            mask == mask_of(self),
    {
        match self {
            PseudoId::Method => 0x01,
            PseudoId::Scheme => 0x02,
            PseudoId::Authority => 0x04,
            PseudoId::Path => 0x08,
            PseudoId::Protocol => 0x10,
            PseudoId::Status => 0x20,
        }
    }
}

/// A mask with the bit of a field set or cleared.
pub open spec fn mask_with(mask: u8, id: PseudoId, on: bool) -> u8 {
    if on {
        mask | mask_of(id)
    } else {
        mask & !mask_of(id)
    }
}

/// `mask` with the bit of a field set or cleared.
pub fn with_mark(mask: u8, id: PseudoId, on: bool) -> (changed: u8)
    ensures
        changed == mask_with(mask, id, on),
        forall|other: PseudoId| #[trigger]
            marked(changed, other) == if other == id {
                on
            } else {
                marked(mask, other)
            },
{
    proof {
        lemma_mask_with(mask, id, on);
    }
    let bit: u8 = id.mask_id();
    let changed: u8 = if on {
        mask | bit
    } else {
        mask & !bit
    };
    assert(changed == mask_with(mask, id, on));
    changed
}

/// Setting or clearing a bit leaves the others as they are.
pub proof fn lemma_mask_with(mask: u8, id: PseudoId, on: bool)
    ensures
        forall|other: PseudoId| #[trigger]
            marked(mask_with(mask, id, on), other) == if other == id {
                on
            } else {
                marked(mask, other)
            },
{
    let bit = mask_of(id);
    assert forall|other: PseudoId| #[trigger]
        marked(mask_with(mask, id, on), other) == if other == id {
            on
        } else {
            marked(mask, other)
        } by {
        let b = mask_of(other);
        assert((mask | bit) & b == if b == bit {
            bit
        } else {
            mask & b
        } && (mask & !bit) & b == if b == bit {
            0u8
        } else {
            mask & b
        }) by (bit_vector)
            requires
                bit == 1 || bit == 2 || bit == 4 || bit == 8 || bit == 16 || bit == 32,
                b == 1 || b == 2 || b == 4 || b == 8 || b == 16 || b == 32,
        ;
    }
}

/// No field is marked in an empty mask.
pub proof fn lemma_unmarked()
    ensures
        forall|id: PseudoId| !#[trigger] marked(0, id),
{
    assert forall|id: PseudoId| !#[trigger] marked(0, id) by {
        let b = mask_of(id);
        assert(0u8 & b == 0) by (bit_vector);
    }
}

/// Which pseudo-header fields have to stay out of compression contexts.
///
/// See <https://www.rfc-editor.org/rfc/rfc9204.html#section-7.1.3>.
#[derive(Debug, Clone, Copy, PartialEq, Eq, Structural)]
pub struct PseudoHeaderSensitivity {
    pub mask: u8,
}

impl Default for PseudoHeaderSensitivity {
    fn default() -> (sensitivity: Self)
        ensures
            sensitivity.mask == 0,
            forall|id: PseudoId| !#[trigger] marked(sensitivity.mask, id),
    {
        proof {
            lemma_unmarked();
        }
        PseudoHeaderSensitivity { mask: 0 }
    }
}

impl PseudoHeaderSensitivity {
    /// Marks a pseudo-header field as sensitive or not.
    pub fn set_sensitive(&mut self, id: PseudoId, sensitive: bool)
        ensures
            final(self).mask == mask_with(old(self).mask, id, sensitive),
            forall|other: PseudoId| #[trigger]
                marked(final(self).mask, other) == if other == id {
                    sensitive
                } else {
                    marked(old(self).mask, other)
                },
    {
        self.mask = with_mark(self.mask, id, sensitive);
    }

    /// Whether the pseudo-header field is sensitive.
    pub fn is_sensitive(&self, id: PseudoId) -> (sensitive: bool)
        ensures
            sensitive == marked(self.mask, id),
    {
        self.mask & id.mask_id() != 0
    }

    pub fn is_empty(&self) -> (empty: bool)
        ensures
            empty == (self.mask == 0),
    {
        self.mask == 0
    }
}

/// The order of the pseudo-header fields in a header block: each of them, once.
#[derive(Debug, Clone, Copy, PartialEq, Eq, Hash)]
pub struct PseudoOrder {
    ids: [PseudoId; 6],
}

impl View for PseudoOrder {
    type V = Seq<PseudoId>;

    closed spec fn view(&self) -> Seq<PseudoId> {
        self.ids@
    }
}

impl PseudoOrder {
    #[verifier::type_invariant]
    spec fn complete(self) -> bool {
        is_complete(self@)
    }

    /// The fields in their order.
    pub fn ids(&self) -> (ids: [PseudoId; 6])
        ensures
            ids@ == self@,
            is_complete(self@),
    {
        proof {
            use_type_invariant(self);
        }
        self.ids
    }
}

/// All pseudo-header fields, in the order that is used where none is chosen.
pub open spec fn default_ids() -> Seq<PseudoId> {
    PseudoId::DEFAULT_IDS@
}

/// An order with one more field, unless it has it.
pub open spec fn pushed(ids: Seq<PseudoId>, id: PseudoId) -> Seq<PseudoId> {
    if ids.contains(id) {
        ids
    } else {
        ids.push(id)
    }
}

/// An order with more fields, of which those that it has are passed over.
pub open spec fn extended(ids: Seq<PseudoId>, more: Seq<PseudoId>) -> Seq<PseudoId>
    decreases more.len(),
{
    if more.len() == 0 {
        ids
    } else {
        pushed(extended(ids, more.drop_last()), more.last())
    }
}

/// Pseudo-header fields in a small vector that needs no allocation for all of them.
#[verifier::external_body]
#[derive(Debug)]
pub struct IdList {
    ids: smallvec::SmallVec<[PseudoId; 6]>,
}

/// What a list holds, in its order.
pub uninterp spec fn listed_ids(list: IdList) -> Seq<PseudoId>;

/// `SmallVec::new` makes a vector that holds nothing.
#[verifier::external_body]
fn new_list() -> (list: IdList)
    ensures
        listed_ids(list) == Seq::<PseudoId>::empty(),
{
    IdList { ids: smallvec::SmallVec::new() }
}

/// `SmallVec::push` appends an item to the vector.
#[verifier::external_body]
fn push_id(list: &mut IdList, id: PseudoId)
    ensures
        listed_ids(*final(list)) == listed_ids(*old(list)).push(id),
{
    list.ids.push(id);
}

/// `SmallVec::len` tells how many items the vector holds.
#[verifier::external_body]
fn list_len(list: &IdList) -> (n: usize)
    ensures
        n == listed_ids(*list).len(),
{
    list.ids.len()
}

/// Indexing a `SmallVec` gives the item at that place, in the order in which they were
/// pushed; a place beyond the end would panic.
#[verifier::external_body]
fn id_at(list: &IdList, i: usize) -> (id: PseudoId)
    requires
        i < listed_ids(*list).len(),
    ensures
        id == listed_ids(*list)[i as int],
{
    list.ids[i]
}

/// A builder for a [`PseudoOrder`].
#[derive(Debug)]
pub struct PseudoOrderBuilder {
    ids: IdList,
    mask: u8,
}

impl View for PseudoOrderBuilder {
    type V = Seq<PseudoId>;

    closed spec fn view(&self) -> Seq<PseudoId> {
        listed_ids(self.ids)
    }
}

impl PseudoOrderBuilder {
    /// The bits of the mask stand for the fields that were pushed, and none was twice.
    pub closed spec fn wf(&self) -> bool {
        &&& self@.no_duplicates()
        &&& forall|id: PseudoId| #[trigger] marked(self.mask, id) == self@.contains(id)
    }

    /// Pushes a pseudo-header field to the order, unless it has it.
    pub fn push(self, id: PseudoId) -> (builder: Self)
        requires
            self.wf(),
        ensures
            builder.wf(),
            builder@ == pushed(self@, id),
    {
        let ghost before = self@;
        let mut builder = self;
        let present: bool = builder.mask & id.mask_id() != 0;
        assert(present == marked(builder.mask, id));
        if !present {
            builder.mask = with_mark(builder.mask, id, true);
            push_id(&mut builder.ids, id);
            proof {
                assert forall|other: PseudoId| #[trigger]
                    marked(builder.mask, other) == before.push(id).contains(other) by {
                    if before.contains(other) {
                        let i = before.index_of(other);
                        assert(before.push(id)[i] == other);
                    }
                    assert(before.push(id)[before.len() as int] == id);
                }
            }
        }
        builder
    }

    /// Extends the order with more pseudo-header fields.
    pub fn extend(self, more: &[PseudoId]) -> (builder: Self)
        requires
            self.wf(),
        ensures
            builder.wf(),
            builder@ == extended(self@, more@),
    {
        let mut builder = self;
        let mut i: usize = 0;
        assert(more@.take(0) =~= Seq::<PseudoId>::empty());
        while i < more.len()
            invariant
                i <= more@.len(),
                builder.wf(),
                builder@ == extended(self@, more@.take(i as int)),
            decreases more@.len() - i,
        {
            assert(more@.take(i + 1).drop_last() =~= more@.take(i as int));
            builder = builder.push(more[i]);
            i = i + 1;
        }
        assert(more@.take(i as int) =~= more@);
        builder
    }

    /// Builds the [`PseudoOrder`], with the fields that were not pushed in the default order.
    pub fn build(self) -> (order: PseudoOrder)
        requires
            self.wf(),
        ensures
            order@ == extended(self@, default_ids()),
            is_complete(order@),
    {
        let ghost start = self@;
        let mut builder = self;
        proof {
            lemma_complete(start);
        }
        if list_len(&builder.ids) != PseudoId::DEFAULT_STACK_SIZE {
            builder = builder.extend(PseudoId::DEFAULT_IDS.as_slice());
        } else {
            proof {
                lemma_six(start);
                lemma_extend_none(start, default_ids());
            }
        }
        let mut ids: [PseudoId; 6] = PseudoId::DEFAULT_IDS;
        let mut i: usize = 0;
        while i < 6
            invariant
                i <= 6,
                builder@.len() == 6,
                forall|j: int| 0 <= j < i ==> ids@[j] == builder@[j],
            decreases 6 - i,
        {
            ids[i] = id_at(&builder.ids, i);
            i = i + 1;
        }
        assert(ids@ =~= builder@);
        PseudoOrder { ids }
    }
}

/// Whether an order has each pseudo-header field once.
pub open spec fn is_complete(ids: Seq<PseudoId>) -> bool {
    &&& ids.len() == 6
    &&& ids.no_duplicates()
    &&& forall|id: PseudoId| #[trigger] ids.contains(id)
}

/// The set of all pseudo-header fields.
spec fn all_ids() -> Set<PseudoId> {
    set![
        PseudoId::Method,
        PseudoId::Scheme,
        PseudoId::Authority,
        PseudoId::Path,
        PseudoId::Protocol,
        PseudoId::Status,
    ]
}

/// A list of six different pseudo-header fields has them all.
proof fn lemma_six(ids: Seq<PseudoId>)
    requires
        ids.no_duplicates(),
        ids.len() == 6,
    ensures
        is_complete(ids),
{
    ids.unique_seq_to_set();
    assert(all_ids().len() == 6);
    assert(ids.to_set().subset_of(all_ids()));
    vstd::set_lib::lemma_subset_equality(ids.to_set(), all_ids());
    assert forall|id: PseudoId| #[trigger] ids.contains(id) by {
        assert(all_ids().contains(id));
        assert(ids.to_set().contains(id));
    }
}

/// A list to which all pseudo-header fields were pushed has each of them once, with those
/// that it had before in front.
pub proof fn lemma_complete(ids: Seq<PseudoId>)
    requires
        ids.no_duplicates(),
    ensures
        is_complete(extended(ids, default_ids())),
{
    let all = extended(ids, default_ids());
    lemma_extended(ids, default_ids());
    assert(default_ids()[0] == PseudoId::Method);
    assert(default_ids()[1] == PseudoId::Scheme);
    assert(default_ids()[2] == PseudoId::Authority);
    assert(default_ids()[3] == PseudoId::Path);
    assert(default_ids()[4] == PseudoId::Protocol);
    assert(default_ids()[5] == PseudoId::Status);
    assert forall|id: PseudoId| #[trigger] all.contains(id) by {
        assert(default_ids().contains(id));
    }
    all.unique_seq_to_set();
    assert(all.to_set() =~= all_ids());
    assert(all_ids().len() == 6);
}

/// Extending a list keeps it in front, adds what is new, and nothing twice.
proof fn lemma_extended(ids: Seq<PseudoId>, more: Seq<PseudoId>)
    requires
        ids.no_duplicates(),
    ensures
        extended(ids, more).no_duplicates(),
        ids.len() <= extended(ids, more).len(),
        extended(ids, more).take(ids.len() as int) == ids,
        forall|id: PseudoId| #[trigger]
            extended(ids, more).contains(id) == (ids.contains(id) || more.contains(id)),
    decreases more.len(),
{
    if more.len() == 0 {
        assert(ids.take(ids.len() as int) =~= ids);
    } else {
        let front = extended(ids, more.drop_last());
        let last = more.last();
        lemma_extended(ids, more.drop_last());
        let all = extended(ids, more);
        assert(all.take(ids.len() as int) =~= ids);
        assert forall|id: PseudoId| #[trigger] all.contains(id) == (ids.contains(id)
            || more.contains(id)) by {
            if more.drop_last().contains(id) {
                let i = more.drop_last().index_of(id);
                assert(more[i] == id);
            }
            if more.contains(id) && id != last {
                let i = more.index_of(id);
                assert(more.drop_last()[i] == id);
            }
            assert(more[more.len() - 1] == last);
            if !front.contains(last) {
                assert(front.push(last)[front.len() as int] == last);
                if front.contains(id) {
                    let i = front.index_of(id);
                    assert(front.push(last)[i] == id);
                }
            }
        }
    }
}

/// A list that has everything is not changed by an extension.
proof fn lemma_extend_none(ids: Seq<PseudoId>, more: Seq<PseudoId>)
    requires
        forall|id: PseudoId| #[trigger] ids.contains(id),
    ensures
        extended(ids, more) == ids,
    decreases more.len(),
{
    if more.len() > 0 {
        lemma_extend_none(ids, more.drop_last());
    }
}

/// Fields that are all different make an order as they are.
proof fn lemma_extend_all(ids: Seq<PseudoId>)
    requires
        ids.no_duplicates(),
    ensures
        extended(Seq::empty(), ids) == ids,
    decreases ids.len(),
{
    if ids.len() > 0 {
        let front = ids.drop_last();
        lemma_extend_all(front);
        if front.contains(ids.last()) {
            let i = front.index_of(ids.last());
            assert(ids[i] == ids[ids.len() - 1]);
        }
        assert(front.push(ids.last()) =~= ids);
    }
}

/// An order has each pseudo-header field once, and begins with the fields that were pushed,
/// each where it was pushed first.
pub proof fn order_is_complete(pushed_ids: Seq<PseudoId>)
    ensures
        ({
            let chosen = extended(Seq::empty(), pushed_ids);
            let order = extended(chosen, default_ids());
            &&& is_complete(order)
            &&& order.take(chosen.len() as int) == chosen
        }),
{
    let none = Seq::<PseudoId>::empty();
    lemma_extended(none, pushed_ids);
    let chosen = extended(none, pushed_ids);
    lemma_complete(chosen);
    lemma_extended(chosen, default_ids());
}

impl PseudoOrder {
    /// Starts a new order.
    pub fn builder() -> (builder: PseudoOrderBuilder)
        ensures
            builder.wf(),
            builder@ == Seq::<PseudoId>::empty(),
    {
        proof {
            lemma_unmarked();
        }
        PseudoOrderBuilder { ids: new_list(), mask: 0 }
    }
}

impl Default for PseudoOrder {
    fn default() -> (order: Self)
        ensures
            order@ == default_ids(),
    {
        proof {
            lemma_complete(Seq::empty());
            lemma_extend_all(default_ids());
        }
        PseudoOrder { ids: PseudoId::DEFAULT_IDS }
    }
}

/// Fields that are chosen in an order, none of them twice, come in that order, before all
/// others.
pub proof fn choices_are_kept(chosen: Seq<PseudoId>)
    requires
        chosen.no_duplicates(),
    ensures
        extended(Seq::empty(), chosen) == chosen,
        extended(chosen, default_ids()).take(chosen.len() as int) == chosen,
        extended(Seq::empty(), default_ids()) == seq![
            PseudoId::Method,
            PseudoId::Scheme,
            PseudoId::Authority,
            PseudoId::Path,
            PseudoId::Protocol,
            PseudoId::Status,
        ],
{
    lemma_choices(chosen);
    order_is_complete(chosen);
    let all = default_ids();
    assert(all =~= seq![
        PseudoId::Method,
        PseudoId::Scheme,
        PseudoId::Authority,
        PseudoId::Path,
        PseudoId::Protocol,
        PseudoId::Status,
    ]);
    assert(all.no_duplicates());
    lemma_choices(all);
}

proof fn lemma_choices(chosen: Seq<PseudoId>)
    requires
        chosen.no_duplicates(),
    ensures
        extended(Seq::empty(), chosen) == chosen,
    decreases chosen.len(),
{
    if chosen.len() > 0 {
        let before = chosen.drop_last();
        lemma_choices(before);
        if before.contains(chosen.last()) {
            let i = choose|i: int| 0 <= i < before.len() && before[i] == chosen.last();
            assert(chosen[i] == chosen[chosen.len() - 1]);
        }
        assert(before.push(chosen.last()) =~= chosen);
    } else {
        assert(chosen =~= Seq::<PseudoId>::empty());
    }
}

} // verus!
