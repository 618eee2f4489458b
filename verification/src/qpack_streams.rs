//! The QPACK streams of a connection.
//!
//! Each direction is a critical stream of its own; see
//! <https://www.rfc-editor.org/rfc/rfc9204.html#section-4.2>.
use vstd::prelude::*;
use crate::buf::{to_vec, Reader};
use crate::buf_list::BufList;
use crate::critical::{critical_stream_failed, use_failure, CriticalStream};
use crate::error::{
    detailed_error, internal_error, Code, Detail, ErrorOrigin, InternalConnectionError,
    StreamErrorIncoming,
};
use crate::frame::BufRecvStream;
use crate::qpack::decoder::{ack_header, run_spec, stream_canceled, Decoder, DecoderError};
use crate::qpack::dynamic::TableView;
use crate::qpack::encoder::follow_spec;
use crate::qpack::shared::{
    BlockedStream, BlockedStreamRegistry, EventQueue, QpackEncoder, QpackEncoderView, QpackEvent,
};
use crate::qpack::stream::{HeaderAck, InsertCountIncrement, StreamCancel};
use crate::quic::StreamId;

verus! {

/// The QPACK state of a connection's driver. `W` is what wakes the task of a stream.
pub struct QpackStreams<W> {
    pub decoder: Decoder,
    pub encoder: QpackEncoder,
    pub blocked_streams: BlockedStreamRegistry<W>,
    /// Decoder instructions that are to be sent.
    pub decoder_send_buf: Vec<u8>,
    /// Encoder instructions that were taken to be sent; they cannot be taken back.
    pub encoder_send_buf: Vec<u8>,
    /// The peer's encoder stream.
    pub encoder_recv: Option<BufRecvStream>,
    /// The peer's decoder stream.
    pub decoder_recv: Option<BufRecvStream>,
    /// What is to be woken.
    pub woken: Vec<W>,
}

/// The state of the QPACK streams.
#[verifier::ext_equal]
pub struct QpackView<W> {
    pub table: TableView,
    pub max_table_capacity: usize,
    pub string_limit: usize,
    pub max_blocked_streams: u64,
    pub encoder: QpackEncoderView,
    pub waiting: Seq<BlockedStream<W>>,
    pub inserted: usize,
    pub limit: u64,
    pub decoder_send: Seq<u8>,
    pub encoder_send: Seq<u8>,
    pub encoder_recv: Option<DeliveredView>,
    pub decoder_recv: Option<DeliveredView>,
    pub woken: Seq<W>,
}

/// A stream of the peer, and what it delivered that was not read.
#[verifier::ext_equal]
pub struct DeliveredView {
    pub id: StreamId,
    pub eos: bool,
    pub bytes: Seq<u8>,
}

/// What a stream is, where there is one.
pub open spec fn delivered(stream: Option<BufRecvStream>) -> Option<DeliveredView> {
    match stream {
        Some(stream) => Some(
            DeliveredView { id: stream.id, eos: stream.eos, bytes: stream.buf.bytes() },
        ),
        None => None,
    }
}

impl<W> View for QpackStreams<W> {
    type V = QpackView<W>;

    open spec fn view(&self) -> QpackView<W> {
        QpackView {
            table: self.decoder.table@,
            max_table_capacity: self.decoder.max_table_capacity,
            string_limit: self.decoder.max_encoded_string_size,
            max_blocked_streams: self.decoder.max_blocked_streams,
            encoder: self.encoder@,
            waiting: self.blocked_streams.streams(),
            inserted: self.blocked_streams.inserted(),
            limit: self.blocked_streams.limit(),
            decoder_send: self.decoder_send_buf@,
            encoder_send: self.encoder_send_buf@,
            encoder_recv: delivered(self.encoder_recv),
            decoder_recv: delivered(self.decoder_recv),
            woken: self.woken@,
        }
    }
}

/// The stream when it has delivered more.
pub open spec fn with_chunk(stream: DeliveredView, chunk: Seq<u8>) -> DeliveredView {
    DeliveredView { bytes: stream.bytes + chunk, ..stream }
}

/// What wakes the tasks of streams.
pub open spec fn wakers<W>(streams: Seq<BlockedStream<W>>) -> Seq<W> {
    streams.map_values(|stream: BlockedStream<W>| stream.waker)
}

/// How many of the streams need wait no longer when there are so many insertions.
pub open spec fn ready_streams<W>(waiting: Seq<BlockedStream<W>>, inserted: usize) -> nat
    decreases waiting.len(),
{
    if waiting.len() == 0 || waiting[0].required_ref > inserted {
        0
    } else {
        1 + ready_streams(waiting.skip(1), inserted)
    }
}

/// The state when there are so many insertions: those who need wait no longer are woken.
pub open spec fn advanced<W>(v: QpackView<W>, inserted: usize) -> QpackView<W> {
    if inserted <= v.inserted {
        v
    } else {
        let n = ready_streams(v.waiting, inserted) as int;
        QpackView {
            inserted,
            waiting: v.waiting.skip(n),
            woken: v.woken + wakers(v.waiting.take(n)),
            ..v
        }
    }
}

/// How an instruction on the encoder stream fails the connection.
///
/// See <https://www.rfc-editor.org/rfc/rfc9204.html#section-6>.
pub open spec fn encoder_stream_error(error: DecoderError) -> InternalConnectionError {
    if error is Internal {
        detailed_error(
            Code::H3_INTERNAL_ERROR,
            "local QPACK decoder failed while processing the encoder stream: {}",
            Detail::Decoder(error),
        )
    } else {
        detailed_error(
            Code::QPACK_ENCODER_STREAM_ERROR,
            "invalid QPACK encoder stream instruction: {}",
            Detail::Decoder(error),
        )
    }
}

/// What becomes of the instructions that the peer's encoder stream delivered. After an
/// error the stream is let go.
pub open spec fn decoder_runs<W>(v: QpackView<W>) -> (
    Result<(), InternalConnectionError>,
    QpackView<W>,
) {
    match v.encoder_recv {
        None => (Ok(()), v),
        Some(stream) => if stream.bytes.len() == 0 {
            (Ok(()), v)
        } else {
            let (outcome, table, rest) = run_spec(
                v.table,
                v.max_table_capacity,
                v.string_limit,
                stream.bytes,
            );
            let read = QpackView {
                table,
                encoder_recv: Some(DeliveredView { bytes: rest, ..stream }),
                ..v
            };
            match outcome {
                Err(error) => (
                    Err(encoder_stream_error(error)),
                    QpackView { encoder_recv: None, ..read },
                ),
                Ok(_) => (
                    Ok(()),
                    advanced(
                        QpackView {
                            decoder_send: v.decoder_send + if table.inserted()
                                != v.table.inserted() {
                                InsertCountIncrement(
                                    (table.inserted() - v.table.inserted()) as usize,
                                ).encode_spec()
                            } else {
                                Seq::empty()
                            },
                            ..read
                        },
                        table.inserted() as usize,
                    ),
                ),
            }
        },
    }
}

/// What becomes of the instructions that the peer's decoder stream delivered. After an
/// error the stream is let go.
pub open spec fn encoder_follows<W>(v: QpackView<W>) -> (
    Result<(), InternalConnectionError>,
    QpackView<W>,
) {
    match v.decoder_recv {
        None => (Ok(()), v),
        Some(stream) => if stream.bytes.len() == 0 {
            (Ok(()), v)
        } else {
            let (outcome, table, rest) = follow_spec(v.encoder.table, stream.bytes);
            let read = QpackView {
                encoder: QpackEncoderView { table, ..v.encoder },
                decoder_recv: Some(DeliveredView { bytes: rest, ..stream }),
                ..v
            };
            match outcome {
                Ok(_) => (Ok(()), read),
                Err(error) => (
                    Err(
                        detailed_error(
                            Code::QPACK_DECODER_STREAM_ERROR,
                            "invalid QPACK decoder stream instruction: {}",
                            Detail::Encoder(error),
                        ),
                    ),
                    QpackView { decoder_recv: None, ..read },
                ),
            }
        },
    }
}

/// What becomes of an event of a stream.
pub open spec fn event_spec<W>(v: QpackView<W>, event: QpackEvent<W>, after: QpackView<W>) -> bool {
    match event {
        QpackEvent::HeaderAck(stream_id) => after == (QpackView {
            decoder_send: v.decoder_send + HeaderAck(stream_id.0).encode_spec(),
            ..v
        }),
        QpackEvent::StreamCancel(stream_id) => after == (QpackView {
            decoder_send: v.decoder_send + StreamCancel(stream_id.0).encode_spec(),
            ..v
        }),
        QpackEvent::RegisterBlocked { stream_id, required_ref, waker } => if required_ref
            <= v.inserted {
            after == (QpackView { woken: v.woken.push(waker), ..v })
        } else {
            let stream = BlockedStream { required_ref, stream_id, waker };
            exists|waiting: Seq<BlockedStream<W>>|
                after == (QpackView { waiting, ..v }) && #[trigger] registered(
                    v.waiting,
                    stream,
                    waiting,
                )
        },
        QpackEvent::ReleaseBlocked { stream_id, required_ref } => exists|
            waiting: Seq<BlockedStream<W>>,
        |
            after == (QpackView { waiting, ..v }) && #[trigger] released(
                v.waiting,
                required_ref,
                stream_id.0,
                waiting,
            ),
        QpackEvent::DecoderAccessWaker(waker) => after == (QpackView {
            woken: v.woken.push(waker),
            ..v
        }),
    }
}

/// Whether a stream waits for so many insertions.
pub open spec fn is_waiting<W>(waiting: Seq<BlockedStream<W>>, required: usize, id: u64) -> bool {
    exists|i: int| 0 <= i < waiting.len() && (#[trigger] waiting[i]).is(required, id)
}

/// Whether the streams that wait are those of before and one more, which takes its own place
/// where it waited already.
pub open spec fn registered<W>(
    before: Seq<BlockedStream<W>>,
    stream: BlockedStream<W>,
    after: Seq<BlockedStream<W>>,
) -> bool {
    if is_waiting(before, stream.required_ref, stream.stream_id.0) {
        exists|p: int|
            0 <= p < before.len() && before[p].is(stream.required_ref, stream.stream_id.0) && after
                == #[trigger] before.update(p, stream)
    } else {
        exists|p: int| 0 <= p <= before.len() && after == #[trigger] before.insert(p, stream)
    }
}

/// Whether the streams that wait are those of before without one.
pub open spec fn released<W>(
    before: Seq<BlockedStream<W>>,
    required: usize,
    id: u64,
    after: Seq<BlockedStream<W>>,
) -> bool {
    if is_waiting(before, required, id) {
        exists|p: int|
            0 <= p < before.len() && before[p].is(required, id) && after == #[trigger] before.remove(
                p,
            )
    } else {
        after == before
    }
}

/// Whether an event asks for more blocked streams than were permitted.
pub open spec fn exceeds_limit<W>(v: QpackView<W>, event: QpackEvent<W>) -> bool {
    event matches QpackEvent::RegisterBlocked { stream_id, required_ref, waker } && required_ref
        > v.inserted && !is_waiting(v.waiting, required_ref, stream_id.0) && v.waiting.len()
        >= v.limit
}

/// The streams of a connection that is to be set up, given what its decoder is.
pub open spec fn fresh_streams<W>(
    table: TableView,
    max_table_capacity: usize,
    string_limit: usize,
    limit: u64,
) -> QpackView<W> {
    QpackView {
        table,
        max_table_capacity,
        string_limit,
        max_blocked_streams: limit,
        encoder: QpackEncoderView {
            table: crate::qpack::dynamic::empty_table(),
            max_table_capacity: 0,
            pending: Seq::empty(),
            enabled: false,
        },
        waiting: Seq::empty(),
        inserted: 0,
        limit,
        decoder_send: Seq::empty(),
        encoder_send: Seq::empty(),
        encoder_recv: None,
        decoder_recv: None,
        woken: Seq::empty(),
    }
}

impl<W> QpackStreams<W> {
    pub open spec fn wf(&self) -> bool {
        &&& self.decoder.wf()
        &&& self.encoder.wf()
        &&& self.blocked_streams.wf()
        &&& self.encoder_recv matches Some(stream) ==> stream.buf.wf()
        &&& self.decoder_recv matches Some(stream) ==> stream.buf.wf()
    }

    pub fn new(decoder: Decoder) -> (streams: Self)
        requires
            decoder.wf(),
        ensures
            streams.wf(),
            streams.decoder == decoder,
            streams@ == fresh_streams::<W>(
                decoder.table@,
                decoder.max_table_capacity,
                decoder.max_encoded_string_size,
                decoder.max_blocked_streams,
            ),
    {
        let limit: u64 = decoder.max_blocked_streams();
        let ghost fresh = fresh_streams::<W>(
            decoder.table@,
            decoder.max_table_capacity,
            decoder.max_encoded_string_size,
            decoder.max_blocked_streams,
        );
        let streams = QpackStreams {
            decoder,
            encoder: QpackEncoder::default(),
            blocked_streams: BlockedStreamRegistry::new(limit),
            decoder_send_buf: Vec::new(),
            encoder_send_buf: Vec::new(),
            encoder_recv: None,
            decoder_recv: None,
            woken: Vec::new(),
        };
        assert(streams@ =~= fresh);
        streams
    }

    /// Takes an event of a stream.
    ///
    /// Where the peer blocked more streams than it was permitted, what wakes the task is
    /// handed back with the error, so that the error can be published first. See
    /// <https://www.rfc-editor.org/rfc/rfc9204.html#section-2.1.2>.
    pub fn on_event(&mut self, event: QpackEvent<W>) -> (result: Result<
        (),
        (InternalConnectionError, W),
    >)
        requires
            old(self).wf(),
        ensures
            final(self).wf(),
            if exceeds_limit(old(self)@, event) {
                &&& result == Err::<(), (InternalConnectionError, W)>(
                    (
                        detailed_error(
                            Code::QPACK_DECOMPRESSION_FAILED,
                            "QPACK blocked-stream limit exceeded: {}",
                            Detail::Decoder(DecoderError::TooManyBlockedStreams),
                        ),
                        event->RegisterBlocked_waker,
                    ),
                )
                &&& final(self)@ == old(self)@
            } else {
                &&& result == Ok::<(), (InternalConnectionError, W)>(())
                &&& event_spec(old(self)@, event, final(self)@)
            },
    {
        let ghost before = self@;
        match event {
            QpackEvent::HeaderAck(stream_id) => {
                ack_header(stream_id.into_inner(), &mut self.decoder_send_buf);
            },
            QpackEvent::StreamCancel(stream_id) => {
                stream_canceled(stream_id.into_inner(), &mut self.decoder_send_buf);
            },
            QpackEvent::RegisterBlocked { stream_id, required_ref, waker } => {
                assert(self.blocked_streams.waits(stream_id, required_ref) == is_waiting(
                    before.waiting,
                    required_ref,
                    stream_id.0,
                ));
                let registration = self.blocked_streams.register(stream_id, required_ref, waker);
                match registration {
                    Ok(None) => {
                        proof {
                            let stream = BlockedStream { required_ref, stream_id, waker };
                            assert(self@ =~= (QpackView { waiting: self@.waiting, ..before }));
                            assert(registered(before.waiting, stream, self@.waiting));
                        }
                    },
                    Ok(Some(waker)) => {
                        self.woken.push(waker);
                    },
                    Err(waker) => {
                        return Err(
                            (
                                InternalConnectionError::with_detail(
                                    Code::QPACK_DECOMPRESSION_FAILED,
                                    "QPACK blocked-stream limit exceeded: {}",
                                    Detail::Decoder(DecoderError::TooManyBlockedStreams),
                                ),
                                waker,
                            ),
                        );
                    },
                }
            },
            QpackEvent::ReleaseBlocked { stream_id, required_ref } => {
                assert(self.blocked_streams.waits(stream_id, required_ref) == is_waiting(
                    before.waiting,
                    required_ref,
                    stream_id.0,
                ));
                self.blocked_streams.release(stream_id, required_ref);
                proof {
                    assert(self@ =~= (QpackView { waiting: self@.waiting, ..before }));
                    assert(released(before.waiting, required_ref, stream_id.0, self@.waiting));
                }
            },
            QpackEvent::DecoderAccessWaker(waker) => {
                self.woken.push(waker);
            },
        }
        Ok(())
    }

    /// Notes how many insertions there are.
    fn advance(&mut self, inserted: usize)
        requires
            old(self).wf(),
        ensures
            final(self).wf(),
            final(self)@ == advanced(old(self)@, inserted),
            final(self).decoder == old(self).decoder,
            final(self).encoder == old(self).encoder,
    {
        let ghost before = self@;
        let woken = self.blocked_streams.update_insert_count(inserted);
        let ghost streams = woken@;
        proof {
            if inserted > before.inserted {
                lemma_ready(streams, self@.waiting, inserted);
                assert(streams =~= before.waiting.take(streams.len() as int));
                assert(self@.waiting =~= before.waiting.skip(streams.len() as int));
            } else {
                assert(streams.len() == 0) by {
                    if streams.len() > 0 {
                        assert((streams + self@.waiting)[0] == streams[0]);
                        assert(before.waiting[0] == streams[0]);
                    }
                }
                assert(self@.waiting =~= before.waiting);
            }
        }
        let ghost start = self.woken@;
        assert(wakers(streams.take(0)) =~= Seq::<W>::empty());
        assert(start + wakers(streams.take(0)) =~= start);
        for stream in it: woken.into_iter()
            invariant
                it.seq() == streams,
                self.wf(),
                self.woken@ == start + wakers(streams.take(it.index() as int)),
                self@ == (QpackView { woken: self.woken@, ..self@ }),
                self.decoder == old(self).decoder,
                self.encoder == old(self).encoder,
                self@.waiting == if inserted > before.inserted {
                    before.waiting.skip(streams.len() as int)
                } else {
                    before.waiting
                },
                self@ == (QpackView {
                    woken: self@.woken,
                    waiting: self@.waiting,
                    inserted: self@.inserted,
                    ..before
                }),
                self@.inserted == if inserted > before.inserted {
                    inserted
                } else {
                    before.inserted
                },
        {
            let ghost i = it.index() as int;
            assert(streams.take(i + 1) =~= streams.take(i).push(streams[i]));
            assert(wakers(streams.take(i + 1)) =~= wakers(streams.take(i)).push(streams[i].waker));
            self.woken.push(stream.waker);
            assert(self.woken@ =~= start + wakers(streams.take(i + 1)));
        }
        assert(streams.take(streams.len() as int) =~= streams);
        assert(self@ =~= advanced(before, inserted));
    }

    /// Takes the instructions that the peer's encoder stream delivered; after an error the
    /// stream is let go.
    ///
    /// An instruction that has not arrived whole is left. See
    /// <https://www.rfc-editor.org/rfc/rfc9204.html#section-4.3>.
    pub fn receive_encoder_instructions(&mut self) -> (result: Result<(), InternalConnectionError>)
        requires
            old(self).wf(),
        ensures
            final(self).wf(),
            (result, final(self)@) == decoder_runs(old(self)@),
    {
        let ghost before = self@;
        let mut stream = match self.encoder_recv.take() {
            None => {
                assert(self@ =~= before);
                return Ok(());
            },
            Some(stream) => stream,
        };
        let data = all_bytes(&stream.buf);
        if data.len() == 0 {
            self.encoder_recv = Some(stream);
            assert(self@ =~= before);
            return Ok(());
        }
        let mut read = Reader::new(data.as_slice());
        let result = self.decoder.on_encoder_recv(&mut read, &mut self.decoder_send_buf);
        match result {
            Ok(inserted) => {
                stream.buf = held(read.chunk());
                self.encoder_recv = Some(stream);
                self.advance(inserted);
                assert(self@ =~= decoder_runs(before).1);
                Ok(())
            },
            Err(error) => {
                assert(self@ =~= decoder_runs(before).1);
                if error.is_internal() {
                    Err(
                        InternalConnectionError::with_detail(
                            Code::H3_INTERNAL_ERROR,
                            "local QPACK decoder failed while processing the encoder stream: {}",
                            Detail::Decoder(error),
                        ),
                    )
                } else {
                    Err(
                        InternalConnectionError::with_detail(
                            Code::QPACK_ENCODER_STREAM_ERROR,
                            "invalid QPACK encoder stream instruction: {}",
                            Detail::Decoder(error),
                        ),
                    )
                }
            },
        }
    }

    /// Takes the instructions that the peer's decoder stream delivered; after an error the
    /// stream is let go.
    ///
    /// See <https://www.rfc-editor.org/rfc/rfc9204.html#section-4.4>.
    pub fn receive_decoder_instructions(&mut self) -> (result: Result<(), InternalConnectionError>)
        requires
            old(self).wf(),
        ensures
            final(self).wf(),
            (result, final(self)@) == encoder_follows(old(self)@),
    {
        let ghost before = self@;
        let mut stream = match self.decoder_recv.take() {
            None => {
                assert(self@ =~= before);
                return Ok(());
            },
            Some(stream) => stream,
        };
        let data = all_bytes(&stream.buf);
        if data.len() == 0 {
            self.decoder_recv = Some(stream);
            assert(self@ =~= before);
            return Ok(());
        }
        let mut read = Reader::new(data.as_slice());
        let result = self.encoder.on_decoder_recv(&mut read);
        match result {
            Ok(()) => {
                stream.buf = held(read.chunk());
                self.decoder_recv = Some(stream);
                assert(self@ =~= encoder_follows(before).1);
                Ok(())
            },
            Err(error) => {
                assert(self@ =~= encoder_follows(before).1);
                Err(
                    InternalConnectionError::with_detail(
                        Code::QPACK_DECODER_STREAM_ERROR,
                        "invalid QPACK decoder stream instruction: {}",
                        Detail::Encoder(error),
                    ),
                )
            },
        }
    }
}

/// Those that were woken are all who need wait no longer.
proof fn lemma_ready<W>(woken: Seq<BlockedStream<W>>, rest: Seq<BlockedStream<W>>, inserted: usize)
    requires
        forall|i: int| 0 <= i < woken.len() ==> (#[trigger] woken[i]).required_ref <= inserted,
        forall|i: int| 0 <= i < rest.len() ==> (#[trigger] rest[i]).required_ref > inserted,
    ensures
        ready_streams(woken + rest, inserted) == woken.len(),
    decreases woken.len(),
{
    let all = woken + rest;
    if woken.len() > 0 {
        lemma_ready(woken.skip(1), rest, inserted);
        assert(all.skip(1) =~= woken.skip(1) + rest);
        assert(all[0] == woken[0]);
    } else if rest.len() > 0 {
        assert(all[0] == rest[0]);
    }
}

/// The bytes that are held, in one piece.
fn all_bytes(buf: &BufList) -> (data: Vec<u8>)
    requires
        buf.wf(),
    ensures
        data@ == buf.bytes(),
{
    let mut data: Vec<u8> = Vec::new();
    buf.copy_all(&mut data);
    assert(data@ =~= buf.bytes());
    data
}

/// A list with these bytes.
fn held(bytes: &[u8]) -> (buf: BufList)
    ensures
        buf.wf(),
        buf.bytes() == bytes@,
{
    let mut buf = BufList::new();
    buf.push(to_vec(bytes));
    assert(buf.bytes() =~= bytes@);
    buf
}

/// What wakes every task that waits for the QPACK streams, once the connection has failed:
/// those that are registered, and those whose events were not taken. The queue is closed.
pub fn wake_qpack_waiters_on_connection_error<W>(
    blocked_streams: &mut BlockedStreamRegistry<W>,
    events: &mut EventQueue<W>,
) -> (woken: Vec<W>)
    requires
        old(blocked_streams).wf(),
    ensures
        final(blocked_streams).wf(),
        final(blocked_streams).streams() == Seq::<BlockedStream<W>>::empty(),
        final(events)@ == (Seq::<QpackEvent<W>>::empty(), true),
        woken@ == wakers(old(blocked_streams).streams()) + event_wakers(old(events)@.0),
{
    let streams = blocked_streams.wake_all();
    let ghost waiting = streams@;
    let mut woken: Vec<W> = Vec::new();
    assert(wakers(waiting.take(0)) =~= Seq::<W>::empty());
    for stream in it: streams.into_iter()
        invariant
            it.seq() == waiting,
            woken@ == wakers(waiting.take(it.index() as int)),
    {
        let ghost i = it.index() as int;
        assert(wakers(waiting.take(i + 1)) =~= wakers(waiting.take(i)).push(waiting[i].waker));
        woken.push(stream.waker);
    }
    assert(waiting.take(waiting.len() as int) =~= waiting);
    events.closed = true;
    let mut left: Vec<QpackEvent<W>> = Vec::new();
    std::mem::swap(&mut left, &mut events.events);
    let ghost all = left@;
    let ghost first = wakers(waiting);
    assert(all.take(0) =~= Seq::<QpackEvent<W>>::empty());
    assert(first + event_wakers(all.take(0)) =~= first);
    for event in it: left.into_iter()
        invariant
            it.seq() == all,
            woken@ == first + event_wakers(all.take(it.index() as int)),
    {
        let ghost i = it.index() as int;
        assert(all.take(i + 1).drop_last() =~= all.take(i));
        assert(all.take(i + 1).last() == all[i]);
        match event {
            QpackEvent::RegisterBlocked { waker, .. } => woken.push(waker),
            QpackEvent::DecoderAccessWaker(waker) => woken.push(waker),
            QpackEvent::HeaderAck(_) => {},
            QpackEvent::StreamCancel(_) => {},
            QpackEvent::ReleaseBlocked { .. } => {},
        }
        assert(woken@ =~= first + event_wakers(all.take(i + 1)));
    }
    assert(all.take(all.len() as int) =~= all);
    woken
}

/// What wakes the tasks that events are about.
pub open spec fn event_wakers<W>(events: Seq<QpackEvent<W>>) -> Seq<W>
    decreases events.len(),
{
    if events.len() == 0 {
        Seq::empty()
    } else {
        let before = event_wakers(events.drop_last());
        match events.last() {
            QpackEvent::RegisterBlocked { waker, .. } => before.push(waker),
            QpackEvent::DecoderAccessWaker(waker) => before.push(waker),
            _ => before,
        }
    }
}

/// What came of what a driver was asked to do with a QPACK stream.
pub enum QpackIo {
    /// Nothing has been done yet.
    Start,
    /// The events of the requests were taken.
    EventsTaken,
    /// An event of a request fails the connection.
    EventsFailed(InternalConnectionError),
    /// So many bytes were sent.
    Sent(usize),
    SendPending,
    SendFailed(StreamErrorIncoming),
    /// There is no stream to send on.
    SendUnavailable,
    Received(Vec<u8>),
    /// The peer ended the stream.
    Ended,
    ReceivePending,
    ReceiveFailed(StreamErrorIncoming),
}

/// What a driver is to do with a QPACK stream.
#[derive(Debug, Clone, Copy, PartialEq, Eq, Structural)]
pub enum QpackStep {
    /// Take the events of the requests: what they have to say goes out with the next flush.
    TakeEvents,
    /// Send what waits to be sent.
    Send,
    /// Receive more.
    Receive,
    /// Nothing, until something changes.
    Pending,
    /// Nothing; it is done.
    Done,
}

/// Where decoder instructions are flushed: before the encoder stream is read, or after.
#[derive(Debug, Clone, Copy, PartialEq, Eq, Structural)]
pub enum FlushAt {
    Before,
    After,
}

/// Whether there are decoder instructions to send.
pub open spec fn flush_due<W>(v: QpackView<W>) -> bool {
    v.max_table_capacity > 0 && v.decoder_send.len() > 0
}

/// What is left of bytes when so many were sent.
pub open spec fn unsent(bytes: Seq<u8>, n: usize) -> Seq<u8> {
    if n < bytes.len() {
        bytes.skip(n as int)
    } else {
        Seq::empty()
    }
}

/// An error of a QPACK stream.
pub open spec fn qpack_failure(code: Code, message: &'static str) -> ErrorOrigin {
    ErrorOrigin::Internal(internal_error(code, message))
}

/// Going on with what the peer's encoder stream delivered: what it makes the decoder and the
/// requests say is sent before more is received.
pub open spec fn read_on<W>(v: QpackView<W>) -> (
    Result<QpackStep, ErrorOrigin>,
    QpackView<W>,
    FlushAt,
) {
    if v.encoder_recv is None {
        (Ok(QpackStep::Pending), v, FlushAt::Before)
    } else {
        let (result, after) = decoder_runs(v);
        match result {
            Err(error) => (Err(ErrorOrigin::Internal(error)), after, FlushAt::After),
            Ok(_) => (Ok(flush_first(after, QpackStep::Receive)), after, FlushAt::After),
        }
    }
}

/// A flush begins with the events of the requests; without a dynamic table there is nothing
/// to flush.
pub open spec fn flush_first<W>(v: QpackView<W>, otherwise: QpackStep) -> QpackStep {
    if v.max_table_capacity > 0 {
        QpackStep::TakeEvents
    } else {
        otherwise
    }
}

/// Going on with a flush: once all is sent, the encoder stream is read.
pub open spec fn flush_on<W>(v: QpackView<W>, at: FlushAt) -> (
    Result<QpackStep, ErrorOrigin>,
    QpackView<W>,
    FlushAt,
) {
    if flush_due(v) {
        (Ok(QpackStep::Send), v, at)
    } else if at == FlushAt::Before {
        read_on(v)
    } else {
        (Ok(QpackStep::Receive), v, at)
    }
}

/// The streams when a flush has failed: the encoder stream is let go where it was being read.
pub open spec fn flush_failed<W>(v: QpackView<W>, at: FlushAt) -> QpackView<W> {
    match at {
        FlushAt::Before => v,
        FlushAt::After => QpackView { encoder_recv: None, ..v },
    }
}

/// One step with the peer's encoder stream, which is let go once it has failed.
///
/// Decoder instructions do not pile up while the decoder stream is blocked; see
/// <https://www.rfc-editor.org/rfc/rfc9204.html#section-7.3>.
pub open spec fn encoder_stream_spec<W>(v: QpackView<W>, at: FlushAt, io: QpackIo) -> (
    Result<QpackStep, ErrorOrigin>,
    QpackView<W>,
    FlushAt,
) {
    match io {
        QpackIo::Start => if v.max_table_capacity > 0 {
            (Ok(QpackStep::TakeEvents), v, FlushAt::Before)
        } else {
            read_on(v)
        },
        QpackIo::EventsTaken => flush_on(v, at),
        QpackIo::EventsFailed(error) => (
            Err(ErrorOrigin::Internal(error)),
            flush_failed(v, at),
            at,
        ),
        QpackIo::Sent(n) => if n == 0 {
            (
                Err(
                    qpack_failure(
                        Code::H3_INTERNAL_ERROR,
                        "QPACK decoder stream made no write progress",
                    ),
                ),
                flush_failed(v, at),
                at,
            )
        } else {
            flush_on(QpackView { decoder_send: unsent(v.decoder_send, n), ..v }, at)
        },
        QpackIo::SendPending => (Ok(QpackStep::Pending), v, at),
        QpackIo::ReceivePending => (Ok(QpackStep::Pending), v, at),
        QpackIo::SendUnavailable => (
            Err(
                qpack_failure(
                    Code::H3_CLOSED_CRITICAL_STREAM,
                    "QPACK decoder stream is unavailable",
                ),
            ),
            flush_failed(v, at),
            at,
        ),
        QpackIo::SendFailed(error) => (
            Err(use_failure(CriticalStream::QpackDecoder, error)),
            flush_failed(v, at),
            at,
        ),
        QpackIo::Received(chunk) => match v.encoder_recv {
            None => read_on(v),
            Some(stream) => read_on(
                QpackView { encoder_recv: Some(with_chunk(stream, chunk@)), ..v },
            ),
        },
        QpackIo::Ended => (
            Err(qpack_failure(Code::H3_CLOSED_CRITICAL_STREAM, "QPACK encoder stream closed")),
            QpackView { encoder_recv: None, ..v },
            at,
        ),
        QpackIo::ReceiveFailed(error) => (
            Err(use_failure(CriticalStream::QpackEncoder, error)),
            QpackView { encoder_recv: None, ..v },
            at,
        ),
    }
}

/// One step with the peer's decoder stream, which is let go once it has failed.
pub open spec fn decoder_stream_spec<W>(v: QpackView<W>, io: QpackIo) -> (
    Result<QpackStep, ErrorOrigin>,
    QpackView<W>,
) {
    let arrived = match io {
        QpackIo::Received(chunk) => match v.decoder_recv {
            None => v,
            Some(stream) => QpackView { decoder_recv: Some(with_chunk(stream, chunk@)), ..v },
        },
        _ => v,
    };
    match io {
        QpackIo::Ended => (
            Err(qpack_failure(Code::H3_CLOSED_CRITICAL_STREAM, "QPACK decoder stream closed")),
            QpackView { decoder_recv: None, ..v },
        ),
        QpackIo::ReceiveFailed(error) => (
            Err(use_failure(CriticalStream::QpackDecoder, error)),
            QpackView { decoder_recv: None, ..v },
        ),
        QpackIo::ReceivePending => (Ok(QpackStep::Pending), v),
        _ => if arrived.decoder_recv is None {
            (Ok(QpackStep::Pending), arrived)
        } else {
            let (result, after) = encoder_follows(arrived);
            match result {
                Err(error) => (Err(ErrorOrigin::Internal(error)), after),
                Ok(_) => (Ok(QpackStep::Receive), after),
            }
        },
    }
}

/// What is sent next on the encoder stream: what was taken to be sent, then what came since.
pub open spec fn next_batch<W>(v: QpackView<W>) -> (QpackStep, QpackView<W>) {
    if v.encoder_send.len() > 0 {
        (QpackStep::Send, v)
    } else {
        (
            if v.encoder.pending.len() > 0 {
                QpackStep::Send
            } else {
                QpackStep::Done
            },
            QpackView {
                encoder_send: v.encoder.pending,
                encoder: QpackEncoderView { pending: Seq::empty(), ..v.encoder },
                ..v
            },
        )
    }
}

/// One step of flushing this endpoint's encoder instructions.
pub open spec fn flush_encoder_spec<W>(v: QpackView<W>, io: QpackIo) -> (
    Result<QpackStep, ErrorOrigin>,
    QpackView<W>,
) {
    match io {
        QpackIo::Sent(n) => if n == 0 {
            (
                Err(
                    qpack_failure(
                        Code::H3_INTERNAL_ERROR,
                        "QPACK encoder stream made no write progress",
                    ),
                ),
                v,
            )
        } else {
            let (step, after) = next_batch(
                QpackView { encoder_send: unsent(v.encoder_send, n), ..v },
            );
            (Ok(step), after)
        },
        QpackIo::SendPending => (Ok(QpackStep::Pending), v),
        QpackIo::SendUnavailable => (
            Err(
                qpack_failure(
                    Code::H3_CLOSED_CRITICAL_STREAM,
                    "QPACK encoder stream is unavailable",
                ),
            ),
            v,
        ),
        QpackIo::SendFailed(error) => (Err(use_failure(CriticalStream::QpackEncoder, error)), v),
        _ => {
            let (step, after) = next_batch(v);
            (Ok(step), after)
        },
    }
}

/// What is left of bytes when so many were sent.
fn drop_sent(bytes: &mut Vec<u8>, n: usize)
    ensures
        final(bytes)@ == unsent(old(bytes)@, n),
{
    if n < bytes.len() {
        let rest = to_vec(vstd::slice::slice_subrange(bytes.as_slice(), n, bytes.len()));
        assert(rest@ =~= bytes@.skip(n as int));
        *bytes = rest;
    } else {
        bytes.clear();
        assert(bytes@ =~= Seq::<u8>::empty());
    }
}

fn internal(code: Code, message: &'static str) -> (error: ErrorOrigin)
    ensures
        error == qpack_failure(code, message),
{
    ErrorOrigin::Internal(InternalConnectionError::new(code, message))
}

impl<W> QpackStreams<W> {
    /// Whether there are decoder instructions to send.
    fn has_flush(&self) -> (due: bool)
        ensures
            due == flush_due(self@),
    {
        self.decoder.dynamic_table_enabled() && self.decoder_send_buf.len() > 0
    }

    fn poll_read_on(&mut self, at: &mut FlushAt) -> (step: Result<QpackStep, ErrorOrigin>)
        requires
            old(self).wf(),
        ensures
            final(self).wf(),
            (step, final(self)@, *final(at)) == read_on(old(self)@),
    {
        if self.encoder_recv.is_none() {
            *at = FlushAt::Before;
            return Ok(QpackStep::Pending);
        }
        *at = FlushAt::After;
        match self.receive_encoder_instructions() {
            Err(error) => Err(ErrorOrigin::Internal(error)),
            Ok(()) => if self.decoder.dynamic_table_enabled() {
                Ok(QpackStep::TakeEvents)
            } else {
                Ok(QpackStep::Receive)
            },
        }
    }

    fn poll_flush_on(&mut self, at: &mut FlushAt) -> (step: Result<QpackStep, ErrorOrigin>)
        requires
            old(self).wf(),
        ensures
            final(self).wf(),
            (step, final(self)@, *final(at)) == flush_on(old(self)@, *old(at)),
    {
        if self.has_flush() {
            Ok(QpackStep::Send)
        } else if *at == FlushAt::Before {
            self.poll_read_on(at)
        } else {
            Ok(QpackStep::Receive)
        }
    }

    /// Lets the encoder stream go where it was being read when a flush failed.
    fn flush_failed(&mut self, at: &FlushAt)
        requires
            old(self).wf(),
        ensures
            final(self).wf(),
            final(self)@ == flush_failed(old(self)@, *at),
    {
        let ghost before = self@;
        if *at == FlushAt::After {
            self.encoder_recv = None;
        }
        assert(self@ =~= flush_failed(before, *at));
    }

    /// One step with the peer's encoder stream: what to do next, given what came of what was
    /// to be done. Once it has failed, the stream is let go.
    pub fn poll_qpack_encoder_stream(&mut self, at: &mut FlushAt, io: QpackIo) -> (step: Result<
        QpackStep,
        ErrorOrigin,
    >)
        requires
            old(self).wf(),
        ensures
            final(self).wf(),
            (step, final(self)@, *final(at)) == encoder_stream_spec(old(self)@, *old(at), io),
    {
        let ghost before = self@;
        match io {
            QpackIo::Start => if self.decoder.dynamic_table_enabled() {
                *at = FlushAt::Before;
                Ok(QpackStep::TakeEvents)
            } else {
                self.poll_read_on(at)
            },
            QpackIo::EventsTaken => self.poll_flush_on(at),
            QpackIo::EventsFailed(error) => {
                self.flush_failed(at);
                Err(ErrorOrigin::Internal(error))
            },
            QpackIo::Sent(n) => {
                if n == 0 {
                    self.flush_failed(at);
                    return Err(
                        internal(
                            Code::H3_INTERNAL_ERROR,
                            "QPACK decoder stream made no write progress",
                        ),
                    );
                }
                drop_sent(&mut self.decoder_send_buf, n);
                assert(self@ =~= (QpackView {
                    decoder_send: unsent(before.decoder_send, n),
                    ..before
                }));
                self.poll_flush_on(at)
            },
            QpackIo::SendPending => Ok(QpackStep::Pending),
            QpackIo::ReceivePending => Ok(QpackStep::Pending),
            QpackIo::SendUnavailable => {
                self.flush_failed(at);
                Err(
                    internal(
                        Code::H3_CLOSED_CRITICAL_STREAM,
                        "QPACK decoder stream is unavailable",
                    ),
                )
            },
            QpackIo::SendFailed(error) => {
                self.flush_failed(at);
                Err(critical_stream_failed(error, CriticalStream::QpackDecoder))
            },
            QpackIo::Received(chunk) => {
                if let Some(mut stream) = self.encoder_recv.take() {
                    stream.buf.push(chunk);
                    self.encoder_recv = Some(stream);
                    assert(self@ =~= (QpackView {
                        encoder_recv: Some(with_chunk(before.encoder_recv->Some_0, chunk@)),
                        ..before
                    }));
                } else {
                    assert(self@ =~= before);
                }
                self.poll_read_on(at)
            },
            QpackIo::Ended => {
                self.encoder_recv = None;
                Err(internal(Code::H3_CLOSED_CRITICAL_STREAM, "QPACK encoder stream closed"))
            },
            QpackIo::ReceiveFailed(error) => {
                self.encoder_recv = None;
                Err(critical_stream_failed(error, CriticalStream::QpackEncoder))
            },
        }
    }

    /// One step with the peer's decoder stream: what to do next, given what came of what was
    /// to be done. Once it has failed, the stream is let go.
    pub fn poll_qpack_decoder_stream(&mut self, io: QpackIo) -> (step: Result<QpackStep, ErrorOrigin>)
        requires
            old(self).wf(),
        ensures
            final(self).wf(),
            (step, final(self)@) == decoder_stream_spec(old(self)@, io),
    {
        let ghost before = self@;
        match io {
            QpackIo::Ended => {
                self.decoder_recv = None;
                return Err(internal(Code::H3_CLOSED_CRITICAL_STREAM, "QPACK decoder stream closed"));
            },
            QpackIo::ReceiveFailed(error) => {
                self.decoder_recv = None;
                return Err(critical_stream_failed(error, CriticalStream::QpackDecoder));
            },
            QpackIo::ReceivePending => return Ok(QpackStep::Pending),
            QpackIo::Received(chunk) => {
                if let Some(mut stream) = self.decoder_recv.take() {
                    stream.buf.push(chunk);
                    self.decoder_recv = Some(stream);
                    assert(self@ =~= (QpackView {
                        decoder_recv: Some(with_chunk(before.decoder_recv->Some_0, chunk@)),
                        ..before
                    }));
                } else {
                    assert(self@ =~= before);
                }
            },
            _ => {},
        }
        if self.decoder_recv.is_none() {
            return Ok(QpackStep::Pending);
        }
        match self.receive_decoder_instructions() {
            Err(error) => Err(ErrorOrigin::Internal(error)),
            Ok(()) => Ok(QpackStep::Receive),
        }
    }

    /// Chooses what is sent next on the encoder stream.
    fn take_batch(&mut self) -> (step: QpackStep)
        requires
            old(self).wf(),
        ensures
            final(self).wf(),
            (step, final(self)@) == next_batch(old(self)@),
    {
        let ghost before = self@;
        if self.encoder_send_buf.len() > 0 {
            return QpackStep::Send;
        }
        self.encoder_send_buf = self.encoder.take_pending_instructions();
        assert(self@ =~= next_batch(before).1);
        if self.encoder_send_buf.len() > 0 {
            QpackStep::Send
        } else {
            QpackStep::Done
        }
    }

    /// One step of flushing this endpoint's encoder instructions: what to do next, given what
    /// came of what was to be done.
    pub fn poll_flush_qpack_encoder(&mut self, io: QpackIo) -> (step: Result<QpackStep, ErrorOrigin>)
        requires
            old(self).wf(),
        ensures
            final(self).wf(),
            (step, final(self)@) == flush_encoder_spec(old(self)@, io),
    {
        let ghost before = self@;
        match io {
            QpackIo::Sent(n) => {
                if n == 0 {
                    return Err(
                        internal(
                            Code::H3_INTERNAL_ERROR,
                            "QPACK encoder stream made no write progress",
                        ),
                    );
                }
                drop_sent(&mut self.encoder_send_buf, n);
                assert(self@ =~= (QpackView {
                    encoder_send: unsent(before.encoder_send, n),
                    ..before
                }));
                Ok(self.take_batch())
            },
            QpackIo::SendPending => Ok(QpackStep::Pending),
            QpackIo::SendUnavailable => Err(
                internal(Code::H3_CLOSED_CRITICAL_STREAM, "QPACK encoder stream is unavailable"),
            ),
            QpackIo::SendFailed(error) => Err(
                critical_stream_failed(error, CriticalStream::QpackEncoder),
            ),
            _ => Ok(self.take_batch()),
        }
    }
}

/// No instruction is lost or sent twice: what was sent, what was taken to be sent and what is
/// still pending are, one after the other, what they were before.
pub proof fn encoder_instructions_are_sent_once<W>(v: QpackView<W>, n: usize)
    requires
        0 < n <= v.encoder_send.len(),
    ensures
        ({
            let (step, after) = flush_encoder_spec(v, QpackIo::Sent(n));
            &&& step is Ok
            &&& v.encoder_send.take(n as int) + after.encoder_send + after.encoder.pending
                == v.encoder_send + v.encoder.pending
        }),
{
    let (step, after) = flush_encoder_spec(v, QpackIo::Sent(n));
    assert(v.encoder_send.take(n as int) + after.encoder_send + after.encoder.pending
        =~= v.encoder_send + v.encoder.pending);
}

/// More of the encoder stream is received only when no decoder instruction waits to be sent.
pub proof fn decoder_instructions_do_not_pile_up<W>(v: QpackView<W>, at: FlushAt, io: QpackIo)
    ensures
        ({
            let (step, after, _) = encoder_stream_spec(v, at, io);
            step == Ok::<QpackStep, ErrorOrigin>(QpackStep::Receive) ==> !flush_due(after)
        }),
{
}

/// A stream of the peer that failed while it was read is not read again.
pub proof fn failed_streams_are_let_go<W>(v: QpackView<W>, at: FlushAt, io: QpackIo)
    ensures
        ({
            let (step, after, _) = encoder_stream_spec(v, at, io);
            step is Err && !(at == FlushAt::Before && (io == QpackIo::Sent(0) || io is SendUnavailable
                || io is SendFailed || io is EventsFailed)) ==> after.encoder_recv is None
        }),
        ({
            let (step, after) = decoder_stream_spec(v, io);
            step is Err ==> after.decoder_recv is None
        }),
{
}

} // verus!
