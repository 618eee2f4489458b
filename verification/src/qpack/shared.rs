//! The QPACK state that the streams of a connection share.
use bytes::BytesMut;
use vstd::prelude::*;
use crate::buf::{view_ok, Reader};
use crate::encode_buffer::{buffered, fill, is_empty, new_buffer, split};
use crate::quic::StreamId;
use super::block::prefix_of;
use super::decoder::{
    decode_stateless_limited, section_prefix, section_spec, stateless_spec, views, Decoded,
    DecodedView, Decoder, DecoderError, FieldSectionPrefix,
};
use super::dynamic::encoder::has_headroom;
use super::dynamic::{cancel_result, canceled, empty_table, lines_size, TableView};
use super::encoder::{
    after_section, encode_stateless, follow_spec, section_of, stateless_section, Encoder,
    EncoderError,
};
use super::field::{FieldView, HeaderField};
use super::stream::DynamicTableSizeUpdate;

verus! {

/// The request encoder of a connection, whose dynamic table is off until the peer's
/// settings permit it.
pub struct QpackEncoder {
    pub encoder: Encoder,
    /// Instructions for the peer's decoder that are to be sent. Encoding uses the
    /// dynamic table only while there are none; what a section added is never taken
    /// back.
    ///
    /// See <https://www.rfc-editor.org/rfc/rfc9204.html#section-4.4.3>.
    pub pending: BytesMut,
    pub enabled: bool,
}

/// The state of a request encoder.
#[verifier::ext_equal]
pub struct QpackEncoderView {
    pub table: TableView,
    pub max_table_capacity: usize,
    pub pending: Seq<u8>,
    pub enabled: bool,
}

impl View for QpackEncoder {
    type V = QpackEncoderView;

    open spec fn view(&self) -> QpackEncoderView {
        QpackEncoderView {
            table: self.encoder.table@,
            max_table_capacity: self.encoder.max_table_capacity,
            pending: buffered(self.pending),
            enabled: self.enabled,
        }
    }
}

/// What becomes of encoding a field section: the result, the bytes of the section,
/// and the state.
///
/// A section is sent only where the peer has all the insertions that it requires, so
/// that no stream is ever blocked: otherwise it is encoded again without the dynamic
/// table, and only its insertions remain.
pub open spec fn shared_encode(
    state: QpackEncoderView,
    stream_id: u64,
    fields: Seq<FieldView>,
) -> (Result<bool, EncoderError>, Seq<u8>, QpackEncoderView) {
    if !state.enabled || state.pending.len() > 0 {
        (Ok(false), stateless_section(fields), state)
    } else {
        let section = section_of(state.table, stream_id, fields);
        let table = after_section(section, stream_id);
        let block = prefix_of(
            section.required,
            state.table.fields.len() as usize,
            state.max_table_capacity,
        ).encode_spec() + section.block;
        let failed = QpackEncoderView { table, pending: Seq::empty(), enabled: false, ..state };
        let encoded = QpackEncoderView { table, pending: section.instructions, ..state };
        match section.error {
            Some(error) => (Err(EncoderError::Insertion(error)), Seq::empty(), failed),
            None => if section.required <= table.known_received {
                (Ok(section.instructions.len() > 0), block, encoded)
            } else {
                match cancel_result(table, stream_id) {
                    Err(error) => (Err(EncoderError::Insertion(error)), Seq::empty(), failed),
                    Ok(_) => (
                        Ok(section.instructions.len() > 0),
                        stateless_section(fields),
                        QpackEncoderView { table: canceled(table, stream_id), ..encoded },
                    ),
                }
            },
        }
    }
}

impl Default for QpackEncoder {
    fn default() -> (encoder: Self)
        ensures
            encoder.wf(),
            encoder@ == (QpackEncoderView {
                table: empty_table(),
                max_table_capacity: 0,
                pending: Seq::<u8>::empty(),
                enabled: false,
            }),
    {
        QpackEncoder { encoder: Encoder::default(), pending: new_buffer(), enabled: false }
    }
}

impl QpackEncoder {
    pub open spec fn wf(&self) -> bool {
        self.encoder.wf()
    }

    /// Whether the next section can use the dynamic table.
    pub fn dynamic_ready(&self) -> (ready: bool)
        ensures
            ready == (self@.enabled && self@.pending.len() == 0),
    {
        self.enabled && is_empty(&self.pending)
    }

    /// Turns the dynamic table on, with the largest capacity that the peer permits and
    /// the capacity to use.
    ///
    /// One stream may be blocked while its section is encoded; no such section is
    /// sent, so the peer's own allowance is never used.
    pub fn configure(&mut self, max_table_capacity: usize, capacity: usize) -> (result: Result<
        (),
        EncoderError,
    >)
        requires
            old(self).wf(),
            capacity == 0 || old(self)@.table.max_size <= capacity <= max_table_capacity,
        ensures
            final(self).wf(),
            result == Ok::<(), EncoderError>(()),
            final(self)@ == if capacity == 0 {
                old(self)@
            } else {
                QpackEncoderView {
                    table: TableView { max_size: capacity, blocked_max: 1, ..old(self)@.table },
                    max_table_capacity,
                    pending: old(self)@.pending + DynamicTableSizeUpdate(capacity).encode_spec(),
                    enabled: true,
                }
            },
    {
        if capacity == 0 {
            return Ok(());
        }
        let mut pending = split(&mut self.pending);
        if let Err(error) = self.encoder.configure(&mut pending, max_table_capacity, capacity, 1) {
            return Err(error);
        }
        fill(&mut self.pending, pending.as_slice());
        self.enabled = true;
        Ok(())
    }

    /// Encodes one field section, and tells whether there are instructions to send.
    ///
    /// After an error the dynamic table is off.
    pub fn encode(&mut self, stream_id: StreamId, block: &mut Vec<u8>, fields: &[HeaderField]) -> (result:
        Result<bool, EncoderError>)
        requires
            old(self).wf(),
            has_headroom(old(self)@.table, 3 * (fields@.len() as int)),
            lines_size(views(fields@)) <= u64::MAX,
        ensures
            final(self).wf(),
            ({
                let (outcome, section, state) = shared_encode(
                    old(self)@,
                    stream_id.0,
                    views(fields@),
                );
                &&& result == outcome
                &&& final(block)@ == old(block)@ + section
                &&& final(self)@ == state
            }),
    {
        let ghost before = self@;
        let ghost all = views(fields@);
        if !self.enabled || !is_empty(&self.pending) {
            if let Err(error) = encode_stateless(block, fields) {
                return Err(error);
            }
            return Ok(false);
        }
        let block_start: usize = block.len();
        assert(before.pending =~= Seq::<u8>::empty());
        let mut instructions: Vec<u8> = Vec::new();
        let required: usize = match self.encoder.encode(
            stream_id.into_inner(),
            block,
            &mut instructions,
            fields,
        ) {
            Ok(required) => required,
            Err(error) => {
                self.enabled = false;
                assert(block@ =~= old(block)@ + Seq::<u8>::empty());
                assert(self@ =~= shared_encode(before, stream_id.0, all).2);
                return Err(error);
            },
        };
        let ghost section = section_of(before.table, stream_id.0, all);
        assert(instructions@ =~= section.instructions);
        if self.encoder.field_section_is_blocked(required) {
            let canceled = self.encoder.cancel_stream(stream_id.into_inner());
            block.truncate(block_start);
            assert(block@ =~= old(block)@);
            if let Err(error) = canceled {
                self.enabled = false;
                assert(block@ =~= old(block)@ + Seq::<u8>::empty());
                assert(self@ =~= shared_encode(before, stream_id.0, all).2);
                return Err(error);
            }
            if let Err(error) = encode_stateless(block, fields) {
                return Err(error);
            }
        } else {
            assert(block@ =~= old(block)@ + shared_encode(before, stream_id.0, all).1);
        }
        fill(&mut self.pending, instructions.as_slice());
        assert(self@ =~= shared_encode(before, stream_id.0, all).2);
        Ok(instructions.len() > 0)
    }

    /// Takes the instructions that are to be sent.
    ///
    /// They have to be sent whole before more are taken.
    pub fn take_pending_instructions(&mut self) -> (instructions: Vec<u8>)
        requires
            old(self).wf(),
        ensures
            final(self).wf(),
            instructions@ == old(self)@.pending,
            final(self)@ == (QpackEncoderView { pending: Seq::<u8>::empty(), ..old(self)@ }),
    {
        let instructions = split(&mut self.pending);
        assert(self@ =~= (QpackEncoderView { pending: Seq::<u8>::empty(), ..old(self)@ }));
        instructions
    }

    /// Follows the instructions that were received on the peer's decoder stream.
    pub fn on_decoder_recv(&mut self, read: &mut Reader) -> (result: Result<(), EncoderError>)
        requires
            old(self).wf(),
        ensures
            final(self).wf(),
            ({
                let (outcome, table, rest) = follow_spec(old(self)@.table, old(read)@);
                &&& result == outcome
                &&& final(read)@ == rest
                &&& final(self)@ == (QpackEncoderView { table, ..old(self)@ })
            }),
    {
        self.encoder.on_decoder_recv(read)
    }

    /// Whether the peer is known to have received every insertion.
    pub fn has_acknowledged_all_insertions(&self) -> (all: bool)
        requires
            self.wf(),
        ensures
            all == (self@.table.known_received == self@.table.inserted()),
    {
        self.encoder.has_acknowledged_all_insertions()
    }
}

/// A section that is sent requires no insertion that the peer is not known to have
/// received, so no stream of the peer is ever blocked on it.
pub proof fn sent_sections_never_block(
    state: QpackEncoderView,
    stream_id: u64,
    fields: Seq<FieldView>,
)
    ensures
        ({
            let (outcome, section, after) = shared_encode(state, stream_id, fields);
            outcome is Ok ==> section == stateless_section(fields) || ({
                let encoded = section_of(state.table, stream_id, fields);
                &&& encoded.required <= after.table.known_received
                &&& section == prefix_of(
                    encoded.required,
                    state.table.fields.len() as usize,
                    state.max_table_capacity,
                ).encode_spec() + encoded.block
            })
        }),
{
}

/// What a request stream asks of the connection's driver. `W` is what wakes the task
/// of a stream.
#[derive(Debug, PartialEq, Eq)]
pub enum QpackEvent<W> {
    HeaderAck(StreamId),
    StreamCancel(StreamId),
    RegisterBlocked { stream_id: StreamId, required_ref: usize, waker: W },
    ReleaseBlocked { stream_id: StreamId, required_ref: usize },
    DecoderAccessWaker(W),
}

/// Events for the connection's driver, which takes none once it has closed the queue.
#[derive(Debug)]
pub struct EventQueue<W> {
    pub events: Vec<QpackEvent<W>>,
    pub closed: bool,
}

impl<W> View for EventQueue<W> {
    type V = (Seq<QpackEvent<W>>, bool);

    open spec fn view(&self) -> (Seq<QpackEvent<W>>, bool) {
        (self.events@, self.closed)
    }
}

/// A queue with one more event, unless it is closed.
pub open spec fn with_event<W>(
    queue: (Seq<QpackEvent<W>>, bool),
    event: QpackEvent<W>,
) -> (Seq<QpackEvent<W>>, bool) {
    if queue.1 {
        queue
    } else {
        (queue.0.push(event), queue.1)
    }
}

/// What a queue that is closed means to a stream.
pub open spec fn queue_result(closed: bool) -> Result<(), DecoderError> {
    if closed {
        Err(DecoderError::Internal("QPACK decoder event channel is closed"))
    } else {
        Ok(())
    }
}

impl<W> EventQueue<W> {
    pub fn new() -> (queue: Self)
        ensures
            queue.events@ == Seq::<QpackEvent<W>>::empty(),
            !queue.closed,
    {
        EventQueue { events: Vec::new(), closed: false }
    }

    /// Appends an event, and tells whether the queue was open.
    pub fn send(&mut self, event: QpackEvent<W>) -> (sent: bool)
        ensures
            sent == !old(self).closed,
            final(self)@ == with_event(old(self)@, event),
    {
        if self.closed {
            return false;
        }
        self.events.push(event);
        true
    }
}

/// A stream whose field section waits for insertions, and what wakes its task.
#[derive(Debug)]
pub struct BlockedStream<W> {
    pub required_ref: usize,
    pub stream_id: StreamId,
    pub waker: W,
}

impl<W> BlockedStream<W> {
    /// Whether this comes before the stream `id` that waits for `required`.
    pub open spec fn before(self, required: usize, id: u64) -> bool {
        self.required_ref < required || self.required_ref == required && self.stream_id.0 < id
    }

    pub open spec fn is(self, required: usize, id: u64) -> bool {
        self.required_ref == required && self.stream_id.0 == id
    }
}

/// The streams whose field sections wait for insertions, in the order of the
/// insertions.
pub struct BlockedStreamRegistry<W> {
    max_blocked_streams: u64,
    insert_count: usize,
    streams: Vec<BlockedStream<W>>,
}

impl<W> BlockedStreamRegistry<W> {
    pub closed spec fn limit(&self) -> u64 {
        self.max_blocked_streams
    }

    pub closed spec fn inserted(&self) -> usize {
        self.insert_count
    }

    /// The streams that wait.
    pub closed spec fn streams(&self) -> Seq<BlockedStream<W>> {
        self.streams@
    }

    /// The streams are in order, none twice, and each waits for insertions still to
    /// come.
    pub open spec fn wf(&self) -> bool {
        &&& forall|i: int, j: int|
            0 <= i < j < self.streams().len() ==> (#[trigger] self.streams()[i]).before(
                (#[trigger] self.streams()[j]).required_ref,
                self.streams()[j].stream_id.0,
            )
        &&& forall|i: int|
            0 <= i < self.streams().len() ==> (#[trigger] self.streams()[i]).required_ref
                > self.inserted()
    }

    /// Whether the stream waits for so many insertions.
    pub open spec fn waits(&self, stream_id: StreamId, required_ref: usize) -> bool {
        exists|i: int|
            0 <= i < self.streams().len() && (#[trigger] self.streams()[i]).is(
                required_ref,
                stream_id.0,
            )
    }

    pub fn new(max_blocked_streams: u64) -> (registry: Self)
        ensures
            registry.wf(),
            registry.limit() == max_blocked_streams,
            registry.inserted() == 0,
            registry.streams() == Seq::<BlockedStream<W>>::empty(),
    {
        BlockedStreamRegistry { max_blocked_streams, insert_count: 0, streams: Vec::new() }
    }

    /// The number of streams that come before one.
    fn position(&self, stream_id: StreamId, required_ref: usize) -> (p: usize)
        requires
            self.wf(),
        ensures
            p <= self.streams().len(),
            forall|i: int|
                0 <= i < p ==> (#[trigger] self.streams()[i]).before(required_ref, stream_id.0),
            forall|i: int|
                p <= i < self.streams().len() ==> !(#[trigger] self.streams()[i]).before(
                    required_ref,
                    stream_id.0,
                ),
    {
        let mut p: usize = 0;
        while p < self.streams.len() && (self.streams[p].required_ref < required_ref || (
        self.streams[p].required_ref == required_ref && self.streams[p].stream_id.0
            < stream_id.0))
            invariant
                self.wf(),
                p <= self.streams().len(),
                forall|i: int|
                    0 <= i < p ==> (#[trigger] self.streams()[i]).before(
                        required_ref,
                        stream_id.0,
                    ),
            decreases self.streams().len() - p,
        {
            p = p + 1;
        }
        proof {
            assert forall|i: int| p <= i < self.streams().len() implies !(
            #[trigger] self.streams()[i]).before(required_ref, stream_id.0) by {
                if i > p {
                    let first = self.streams()[p as int];
                    assert(first.before(
                        self.streams()[i].required_ref,
                        self.streams()[i].stream_id.0,
                    ));
                }
            }
        }
        p
    }

    /// Registers a field section that waits for insertions.
    ///
    /// A stream that waits already takes no other slot; its task is then woken as it
    /// asked last. Where the insertions have come already, the task is to be woken at
    /// once, and what wakes it is handed back. Where no slot is left, the peer has
    /// broken its promise, and what wakes the task is handed back as the error, so that
    /// the error can be published before the task is woken.
    ///
    /// See <https://www.rfc-editor.org/rfc/rfc9204.html#section-2.1.2>.
    pub fn register(&mut self, stream_id: StreamId, required_ref: usize, waker: W) -> (result: Result<
        Option<W>,
        W,
    >)
        requires
            old(self).wf(),
        ensures
            final(self).wf(),
            final(self).limit() == old(self).limit(),
            final(self).inserted() == old(self).inserted(),
            old(self).streams().len() <= old(self).limit() ==> final(self).streams().len() <= final(self).limit(),
            if required_ref <= old(self).inserted() {
                &&& result == Ok::<Option<W>, W>(Some(waker))
                &&& final(self).streams() == old(self).streams()
            } else if old(self).waits(stream_id, required_ref) {
                &&& result == Ok::<Option<W>, W>(None)
                &&& exists|p: int|
                    0 <= p < old(self).streams().len() && old(self).streams()[p].is(
                        required_ref,
                        stream_id.0,
                    ) && final(self).streams() == #[trigger] old(self).streams().update(
                        p,
                        BlockedStream { required_ref, stream_id, waker },
                    )
            } else if old(self).streams().len() >= old(self).limit() {
                &&& result == Err::<Option<W>, W>(waker)
                &&& final(self).streams() == old(self).streams()
            } else {
                &&& result == Ok::<Option<W>, W>(None)
                &&& exists|p: int|
                    0 <= p <= old(self).streams().len() && final(self).streams()
                        == #[trigger] old(self).streams().insert(
                        p,
                        BlockedStream { required_ref, stream_id, waker },
                    )
            },
    {
        if required_ref <= self.insert_count {
            return Ok(Some(waker));
        }
        let p: usize = self.position(stream_id, required_ref);
        let ghost before = self.streams();
        if p < self.streams.len() && self.streams[p].required_ref == required_ref
            && self.streams[p].stream_id.0 == stream_id.0 {
            assert(before[p as int].is(required_ref, stream_id.0));
            self.streams.set(p, BlockedStream { required_ref, stream_id, waker });
            proof {
                assert(self.streams() == before.update(
                    p as int,
                    BlockedStream { required_ref, stream_id, waker },
                ));
            }
            return Ok(None);
        }
        proof {
            assert forall|i: int| 0 <= i < before.len() implies !(#[trigger] before[i]).is(
                required_ref,
                stream_id.0,
            ) by {
                if i > p {
                    assert(before[p as int].before(before[i].required_ref, before[i].stream_id.0));
                }
            }
        }
        if self.streams.len() as u64 >= self.max_blocked_streams {
            return Err(waker);
        }
        self.streams.insert(p, BlockedStream { required_ref, stream_id, waker });
        proof {
            let added = BlockedStream { required_ref, stream_id, waker };
            assert(self.streams() == before.insert(p as int, added));
            assert forall|i: int, j: int| 0 <= i < j < self.streams().len() implies (
            #[trigger] self.streams()[i]).before(
                (#[trigger] self.streams()[j]).required_ref,
                self.streams()[j].stream_id.0,
            ) by {
                let a = if i < p {
                    i
                } else {
                    i - 1
                };
                let b = if j < p {
                    j
                } else {
                    j - 1
                };
                if i == p {
                    assert(self.streams()[j] == before[j - 1]);
                    assert(!before[j - 1].before(required_ref, stream_id.0));
                    assert(!before[j - 1].is(required_ref, stream_id.0));
                } else if j == p {
                    assert(self.streams()[i] == before[i]);
                } else {
                    assert(self.streams()[i] == before[a]);
                    assert(self.streams()[j] == before[b]);
                }
            }
            assert forall|i: int| 0 <= i < self.streams().len() implies (
            #[trigger] self.streams()[i]).required_ref > self.inserted() by {
                if i < p {
                    assert(self.streams()[i] == before[i]);
                } else if i > p {
                    assert(self.streams()[i] == before[i - 1]);
                }
            }
        }
        Ok(None)
    }

    /// Removes a field section that was decoded or whose stream was abandoned.
    ///
    /// The insertions may have removed it already.
    pub fn release(&mut self, stream_id: StreamId, required_ref: usize)
        requires
            old(self).wf(),
        ensures
            final(self).wf(),
            final(self).limit() == old(self).limit(),
            final(self).inserted() == old(self).inserted(),
            !final(self).waits(stream_id, required_ref),
            if old(self).waits(stream_id, required_ref) {
                exists|p: int|
                    0 <= p < old(self).streams().len() && old(self).streams()[p].is(
                        required_ref,
                        stream_id.0,
                    ) && final(self).streams() == #[trigger] old(self).streams().remove(p)
            } else {
                final(self).streams() == old(self).streams()
            },
    {
        let p: usize = self.position(stream_id, required_ref);
        let ghost before = self.streams();
        proof {
            assert forall|i: int| 0 <= i < before.len() && i != p implies !(#[trigger] before[i]).is(
                required_ref,
                stream_id.0,
            ) by {
                if i > p {
                    assert(before[p as int].before(before[i].required_ref, before[i].stream_id.0));
                }
            }
        }
        if p < self.streams.len() && self.streams[p].required_ref == required_ref
            && self.streams[p].stream_id.0 == stream_id.0 {
            assert(before[p as int].is(required_ref, stream_id.0));
            self.streams.remove(p);
            proof {
                assert(self.streams() == before.remove(p as int));
                assert forall|i: int| 0 <= i < self.streams().len() implies #[trigger] self.streams()[i]
                    == before[if i < p { i } else { i + 1 }] by {}
            }
        }
    }

    /// Notes how many insertions there are, and takes out the streams that need wait no
    /// longer: their tasks are to be woken, in this order.
    ///
    /// See <https://www.rfc-editor.org/rfc/rfc9204.html#section-2.2.1>.
    pub fn update_insert_count(&mut self, insert_count: usize) -> (woken: Vec<BlockedStream<W>>)
        requires
            old(self).wf(),
        ensures
            final(self).wf(),
            final(self).limit() == old(self).limit(),
            final(self).inserted() == if insert_count > old(self).inserted() {
                insert_count
            } else {
                old(self).inserted()
            },
            woken@ + final(self).streams() == old(self).streams(),
            forall|i: int|
                0 <= i < woken@.len() ==> (#[trigger] woken@[i]).required_ref <= final(self).inserted(),
    {
        let ghost before = self.streams();
        if insert_count <= self.insert_count {
            let none: Vec<BlockedStream<W>> = Vec::new();
            assert(none@ + self.streams() =~= before);
            return none;
        }
        self.insert_count = insert_count;
        let mut n: usize = 0;
        while n < self.streams.len() && self.streams[n].required_ref <= insert_count
            invariant
                n <= self.streams().len(),
                self.streams() == before,
                self.limit() == old(self).limit(),
                self.inserted() == insert_count,
                forall|i: int|
                    0 <= i < n ==> (#[trigger] self.streams()[i]).required_ref <= insert_count,
            decreases self.streams().len() - n,
        {
            n = n + 1;
        }
        let rest: Vec<BlockedStream<W>> = self.streams.split_off(n);
        let mut woken: Vec<BlockedStream<W>> = rest;
        std::mem::swap(&mut woken, &mut self.streams);
        proof {
            assert(woken@ =~= before.take(n as int));
            assert(self.streams() =~= before.skip(n as int));
            assert(woken@ + self.streams() =~= before);
            assert forall|i: int| 0 <= i < self.streams().len() implies (
            #[trigger] self.streams()[i]).required_ref > insert_count by {
                assert(self.streams()[i] == before[n + i]);
                if i > 0 {
                    assert(before[n as int].before(
                        before[n + i].required_ref,
                        before[n + i].stream_id.0,
                    ));
                }
            }
            assert forall|i: int, j: int| 0 <= i < j < self.streams().len() implies (
            #[trigger] self.streams()[i]).before(
                (#[trigger] self.streams()[j]).required_ref,
                self.streams()[j].stream_id.0,
            ) by {
                assert(before[n + i].before(before[n + j].required_ref, before[n + j].stream_id.0));
            }
        }
        woken
    }

    /// Takes out all the streams: their tasks are to be woken, in this order.
    pub fn wake_all(&mut self) -> (woken: Vec<BlockedStream<W>>)
        requires
            old(self).wf(),
        ensures
            final(self).wf(),
            final(self).limit() == old(self).limit(),
            final(self).inserted() == old(self).inserted(),
            final(self).streams() == Seq::<BlockedStream<W>>::empty(),
            woken@ == old(self).streams(),
    {
        let mut woken: Vec<BlockedStream<W>> = Vec::new();
        std::mem::swap(&mut woken, &mut self.streams);
        woken
    }

    /// The number of streams that wait.
    pub fn len(&self) -> (n: usize)
        ensures
            n == self.streams().len(),
    {
        self.streams.len()
    }
}

/// What the streams of a connection have to know of its decoder.
#[derive(Debug, Clone, Copy, PartialEq, Eq, Structural)]
pub struct QpackDecoder {
    pub dynamic_table: bool,
    pub allows_blocking: bool,
    pub max_encoded_string_size: usize,
}

impl QpackDecoder {
    pub fn new(decoder: &Decoder) -> (shared: Self)
        ensures
            shared.dynamic_table == (decoder.max_table_capacity > 0),
            shared.allows_blocking == (decoder.max_blocked_streams != 0),
            shared.max_encoded_string_size == decoder.max_encoded_string_size,
    {
        QpackDecoder {
            dynamic_table: decoder.dynamic_table_enabled(),
            allows_blocking: decoder.max_blocked_streams() != 0,
            max_encoded_string_size: decoder.max_encoded_string_size(),
        }
    }

    /// Whether the peer may refer to the dynamic table.
    pub fn dynamic_table_enabled(&self) -> (enabled: bool)
        ensures
            enabled == self.dynamic_table,
    {
        self.dynamic_table
    }

    /// Tells the driver of a field section that waits for insertions.
    ///
    /// Where no stream may be blocked, the section is in error at once. See
    /// <https://www.rfc-editor.org/rfc/rfc9204.html#section-2.1.2>.
    pub fn queue_blocked_stream<W>(
        &self,
        stream_id: StreamId,
        required_ref: usize,
        waker: W,
        events: &mut EventQueue<W>,
    ) -> (result: Result<(), DecoderError>)
        ensures
            if !self.allows_blocking {
                &&& result == Err::<(), DecoderError>(DecoderError::TooManyBlockedStreams)
                &&& *final(events) == *old(events)
            } else {
                &&& result == queue_result(old(events).closed)
                &&& final(events)@ == with_event(old(events)@, QpackEvent::RegisterBlocked { stream_id, required_ref, waker })
            },
    {
        if !self.allows_blocking {
            return Err(DecoderError::TooManyBlockedStreams);
        }
        if events.send(QpackEvent::RegisterBlocked { stream_id, required_ref, waker }) {
            Ok(())
        } else {
            Err(DecoderError::Internal("QPACK decoder event channel is closed"))
        }
    }

    /// Tells the driver that a field section waits no longer.
    pub fn release_blocked_stream<W>(
        &self,
        stream_id: StreamId,
        required_ref: usize,
        events: &mut EventQueue<W>,
    ) -> (told: bool)
        ensures
            told == !old(events).closed,
            final(events)@ == with_event(old(events)@, QpackEvent::ReleaseBlocked { stream_id, required_ref }),
    {
        events.send(QpackEvent::ReleaseBlocked { stream_id, required_ref })
    }

    /// Tells the driver that a field section which refers to the dynamic table was decoded.
    ///
    /// See <https://www.rfc-editor.org/rfc/rfc9204.html#section-4.4.1>.
    pub fn queue_section_acknowledgment<W>(&self, stream_id: StreamId, events: &mut EventQueue<W>) -> (result:
        Result<(), DecoderError>)
        ensures
            result == queue_result(old(events).closed),
            final(events)@ == with_event(old(events)@, QpackEvent::HeaderAck(stream_id)),
    {
        if events.send(QpackEvent::HeaderAck(stream_id)) {
            Ok(())
        } else {
            Err(DecoderError::Internal("QPACK decoder event channel is closed"))
        }
    }

    /// Tells the driver that a stream is no longer read.
    ///
    /// See <https://www.rfc-editor.org/rfc/rfc9204.html#section-4.4.2>.
    pub fn queue_stream_cancellation<W>(&self, stream_id: StreamId, events: &mut EventQueue<W>) -> (told: bool)
        ensures
            told == !old(events).closed,
            final(events)@ == with_event(old(events)@, QpackEvent::StreamCancel(stream_id)),
    {
        events.send(QpackEvent::StreamCancel(stream_id))
    }

    /// Decodes one field section with the connection's decoder: without its table where
    /// the peer may not refer to it.
    pub fn decode_field_section(
        &self,
        decoder: &Decoder,
        field_section: &mut Reader,
        max_field_section_size: u64,
        prefix: &mut Option<FieldSectionPrefix>,
    ) -> (result: Result<Decoded, DecoderError>)
        requires
            decoder.wf(),
        ensures
            !self.dynamic_table ==> *final(prefix) == *old(prefix) && (
                view_ok(result),
                final(field_section)@,
            ) == stateless_spec(
                self.max_encoded_string_size,
                max_field_section_size,
                old(field_section)@,
            ),
            self.dynamic_table ==> match section_prefix(
                decoder.table@.inserted(),
                decoder.max_table_capacity,
                *old(prefix),
                old(field_section)@,
            ) {
                (Ok(found), rest) => {
                    &&& *final(prefix) == Some(found)
                    &&& (view_ok(result), final(field_section)@) == section_spec(
                        decoder.table@,
                        found,
                        decoder.max_encoded_string_size,
                        max_field_section_size,
                        rest,
                    )
                },
                (Err(error), rest) => {
                    &&& *final(prefix) == *old(prefix)
                    &&& (view_ok(result), final(field_section)@) == (
                        Err::<DecodedView, DecoderError>(error),
                        rest,
                    )
                },
            },
    {
        if !self.dynamic_table {
            return decode_stateless_limited(
                field_section,
                max_field_section_size,
                self.max_encoded_string_size,
            );
        }
        decoder.decode_header_limited(field_section, max_field_section_size, prefix)
    }
}

/// What an attempt to get at the connection's decoder came to.
#[derive(Debug, Clone, Copy, PartialEq, Eq, Structural)]
pub enum Access {
    Granted,
    WouldBlock,
    Poisoned,
}

/// What to do after an attempt to get at the connection's decoder.
#[derive(Debug, Clone, Copy, PartialEq, Eq)]
pub enum AccessStep {
    /// Use the decoder.
    Proceed,
    /// Ask to be woken, and try again: the holder may be done in between.
    RegisterAndRetry,
    Wait,
    Fail(DecoderError),
}

/// What to do after an attempt to get at the connection's decoder, which is the second
/// where `registered`.
pub fn access_step(access: Access, registered: bool) -> (step: AccessStep)
    ensures
        access == Access::Granted ==> step == AccessStep::Proceed,
        access == Access::WouldBlock && !registered ==> step == AccessStep::RegisterAndRetry,
        access == Access::WouldBlock && registered ==> step == AccessStep::Wait,
        access == Access::Poisoned ==> step == AccessStep::Fail(
            DecoderError::Internal("QPACK decoder lock is poisoned"),
        ),
{
    match access {
        Access::Granted => AccessStep::Proceed,
        Access::WouldBlock => if registered {
            AccessStep::Wait
        } else {
            AccessStep::RegisterAndRetry
        },
        Access::Poisoned => AccessStep::Fail(
            DecoderError::Internal("QPACK decoder lock is poisoned"),
        ),
    }
}

} // verus!
