//! What an endpoint writes to its peer.
//!
//! What is written says what was meant, all of it: a request its fields, an answer of the
//! decoder the stream and the number that it is about, a stream its type.
use vstd::prelude::*;
use crate::buf_list::joined;
use crate::client::{encoded_request, is_read, PreparedView};
use crate::delivery::{between_frames, spelled};
use crate::error::{Code, ErrorOrigin, StreamError};
use crate::frame::unread_stream;
use crate::proto::frame::settings_bytes;
use crate::proto::headers::{no_pseudo, section_fields};
use crate::proto::varint;
use crate::qpack::answers::{acknowledgment, cancellation, increment};
use crate::qpack::decoder::{
    run_spec, section_prefix, section_spec, stateless_spec, DecodedView, DecoderError,
};
use crate::qpack::dynamic::{lines_size, TableView};
use crate::qpack::encoder::stateless_section;
use crate::qpack::field::FieldView;
use crate::qpack::laws::{
    codec_ready, lines_encodable, section_round_trip, section_within, stateless_round_trip,
};
use crate::qpack::shared::{
    shared_encode, BlockedStream, QpackDecoder, QpackEncoderView, QpackEvent,
};
use crate::qpack_streams::{
    advanced, decoder_runs, decoder_stream_spec, encoder_follows, encoder_stream_spec, event_spec,
    event_wakers, exceeds_limit, flush_encoder_spec, fresh_streams, next_batch, ready_streams,
    wakers, DeliveredView, FlushAt, QpackIo, QpackStep, QpackView,
};
use crate::quic::{StreamId, MAX_VARINT};
use crate::request::{fresh_decode, DecodeView};
use crate::request_stream::{trailers_encoded, RequestView};
use crate::shared_state::{fresh_state, SharedState};
use crate::stream::{control_header_bytes, type_spec};

verus! {

/// A control stream begins with its type, which is zero, and a SETTINGS frame.
///
/// See <https://www.rfc-editor.org/rfc/rfc9114.html#section-6.2.1>.
pub proof fn control_streams_begin_with_settings(entries: Seq<(u64, u64)>)
    ensures
        control_header_bytes(entries) == seq![0u8] + spelled(0x4, settings_bytes(entries)),
{
    varint::integers_are_written_short(0);
    varint::integers_are_their_bits(varint::encode_spec(0));
    assert(varint::encode_spec(0) =~= seq![0u8]);
    assert(control_header_bytes(entries) =~= seq![0u8] + spelled(0x4, settings_bytes(entries)));
}

/// The type of a stream is the number at its front. A push stream and a WebTransport stream have
/// the number of the push or of the session after it; of any other stream what follows the
/// type is left as it is.
///
/// See <https://www.rfc-editor.org/rfc/rfc9114.html#section-6.2>.
pub proof fn stream_types_are_read(ty: u64, id: u64, rest: Seq<u8>)
    requires
        ty <= MAX_VARINT,
        id <= MAX_VARINT,
    ensures
        ty == 0x1 || ty == 0x54 ==> type_spec(
            varint::encode_spec(ty) + varint::encode_spec(id) + rest,
        ) == Some((ty, Some(id), rest)),
        ty == 0x1 || ty == 0x54 ==> type_spec(varint::encode_spec(ty)) is None,
        ty != 0x1 && ty != 0x54 ==> type_spec(varint::encode_spec(ty) + rest) == Some(
            (ty, None::<u64>, rest),
        ),
        type_spec(Seq::empty()) is None,
{
    let s = varint::encode_spec(ty) + varint::encode_spec(id) + rest;
    assert(s =~= varint::encode_spec(ty) + (varint::encode_spec(id) + rest));
    varint::round_trip(ty, varint::encode_spec(id) + rest);
    varint::round_trip(id, rest);
    varint::round_trip(ty, rest);
    varint::round_trip(ty, Seq::empty());
    assert(varint::encode_spec(ty) + Seq::<u8>::empty() =~= varint::encode_spec(ty));
}

/// Where the streams that wait are in the order of what they wait for, those that wait for no
/// more insertions than there are now are woken, each of them, in their order, and those that
/// wait for more go on waiting.
pub proof fn streams_wait_no_longer_than_they_must<W>(v: QpackView<W>, inserted: usize)
    requires
        inserted > v.inserted,
        forall|i: int, j: int|
            0 <= i < j < v.waiting.len() ==> (#[trigger] v.waiting[i]).required_ref <= (
            #[trigger] v.waiting[j]).required_ref,
    ensures
        ({
            let after = advanced(v, inserted);
            let n = v.waiting.len() - after.waiting.len();
            &&& after.inserted == inserted
            &&& 0 <= n <= v.waiting.len()
            &&& after.waiting == v.waiting.skip(n)
            &&& forall|i: int|
                0 <= i < v.waiting.len() ==> ((#[trigger] v.waiting[i]).required_ref <= inserted
                    <==> i < n)
            &&& after.woken.len() == v.woken.len() + n
            &&& forall|i: int| 0 <= i < v.woken.len() ==> #[trigger] after.woken[i] == v.woken[i]
            &&& forall|i: int|
                0 <= i < n ==> after.woken[v.woken.len() + i] == (#[trigger] v.waiting[i]).waker
        }),
{
    lemma_ready_streams(v.waiting, inserted);
    let n = ready_streams(v.waiting, inserted) as int;
    let after = advanced(v, inserted);
    assert(after.waiting.len() == v.waiting.len() - n);
    assert forall|i: int| 0 <= i < n implies after.woken[v.woken.len() + i] == (
    #[trigger] v.waiting[i]).waker by {
        assert(v.waiting.take(n)[i] == v.waiting[i]);
        assert(wakers(v.waiting.take(n))[i] == v.waiting.take(n)[i].waker);
    }
}

proof fn lemma_ready_streams<W>(waiting: Seq<BlockedStream<W>>, inserted: usize)
    requires
        forall|i: int, j: int|
            0 <= i < j < waiting.len() ==> (#[trigger] waiting[i]).required_ref <= (
            #[trigger] waiting[j]).required_ref,
    ensures
        ready_streams(waiting, inserted) <= waiting.len(),
        forall|i: int|
            0 <= i < waiting.len() ==> ((#[trigger] waiting[i]).required_ref <= inserted <==> i
                < ready_streams(waiting, inserted)),
    decreases waiting.len(),
{
    if waiting.len() > 0 {
        let rest = waiting.skip(1);
        if waiting[0].required_ref <= inserted {
            assert forall|i: int, j: int| 0 <= i < j < rest.len() implies (
            #[trigger] rest[i]).required_ref <= (#[trigger] rest[j]).required_ref by {
                assert(rest[i] == waiting[i + 1]);
                assert(rest[j] == waiting[j + 1]);
            }
            lemma_ready_streams(rest, inserted);
            assert forall|i: int| 0 <= i < waiting.len() implies ((
            #[trigger] waiting[i]).required_ref <= inserted <==> i < ready_streams(
                waiting,
                inserted,
            )) by {
                if i > 0 {
                    assert(rest[i - 1] == waiting[i]);
                }
            }
        } else {
            assert forall|i: int| 0 <= i < waiting.len() implies (
            #[trigger] waiting[i]).required_ref > inserted by {
                if i > 0 {
                    assert(waiting[0].required_ref <= waiting[i].required_ref);
                }
            }
        }
    }
}

/// What the peer's encoder stream has delivered is followed, and the peer is told of exactly the
/// insertions that were made, all at once; where there were none it is told nothing. Streams
/// are woken as far as the insertions go.
///
/// See <https://www.rfc-editor.org/rfc/rfc9204.html#section-4.4.3>.
pub proof fn insertions_are_told<W>(v: QpackView<W>, stream: DeliveredView)
    requires
        v.encoder_recv == Some(stream),
        stream.bytes.len() > 0,
    ensures
        ({
            let (followed, table, rest) = run_spec(
                v.table,
                v.max_table_capacity,
                v.string_limit,
                stream.bytes,
            );
            let (outcome, after) = decoder_runs(v);
            let n = table.inserted() - v.table.inserted();
            &&& outcome is Ok <==> followed is Ok
            &&& after.table == table
            &&& followed is Ok && 0 <= v.table.inserted() <= table.inserted() <= usize::MAX ==> {
                &&& after.decoder_send == if n > 0 {
                    v.decoder_send + increment(n as usize)
                } else {
                    v.decoder_send
                }
                &&& after.encoder_recv == Some(DeliveredView { bytes: rest, ..stream })
                &&& table.inserted() > v.inserted ==> after.inserted == table.inserted()
                &&& table.inserted() <= v.inserted ==> after.inserted == v.inserted
                    && after.waiting == v.waiting && after.woken == v.woken
                &&& table.inserted() > v.inserted ==> {
                    &&& after.waiting == advanced(v, table.inserted() as usize).waiting
                    &&& after.woken == advanced(v, table.inserted() as usize).woken
                }
            }
            &&& followed is Err ==> {
                &&& after.encoder_recv is None
                &&& after.decoder_send == v.decoder_send
                &&& outcome->Err_0.code == if followed->Err_0 is Internal {
                    Code::H3_INTERNAL_ERROR
                } else {
                    Code::QPACK_ENCODER_STREAM_ERROR
                }
            }
            &&& after.encoder == v.encoder
            &&& after.encoder_send == v.encoder_send
            &&& after.decoder_recv == v.decoder_recv
        }),
{
    assert(v.decoder_send + Seq::<u8>::empty() =~= v.decoder_send);
}

/// What the peer's decoder stream has delivered is followed. What it says that is not in order
/// is an error of the stream, which is then let go of.
pub proof fn answers_are_followed<W>(v: QpackView<W>, stream: DeliveredView)
    requires
        v.decoder_recv == Some(stream),
        stream.bytes.len() > 0,
    ensures
        ({
            let (followed, table, rest) = crate::qpack::encoder::follow_spec(
                v.encoder.table,
                stream.bytes,
            );
            let (outcome, after) = encoder_follows(v);
            &&& outcome is Ok <==> followed is Ok
            &&& after.encoder.table == table
            &&& after.encoder.pending == v.encoder.pending
            &&& after.encoder.enabled == v.encoder.enabled
            &&& after.table == v.table
            &&& after.waiting == v.waiting
            &&& after.decoder_send == v.decoder_send
            &&& followed is Ok ==> after.decoder_recv == Some(
                DeliveredView { bytes: rest, ..stream },
            )
            &&& followed is Err ==> after.decoder_recv is None && outcome->Err_0.code
                == Code::QPACK_DECODER_STREAM_ERROR
        }),
{
}

/// What a stream has to tell the peer's encoder is written with the stream's number, after all
/// that was to be written before, and nothing else changes.
///
/// See <https://www.rfc-editor.org/rfc/rfc9204.html#section-4.4>.
pub proof fn answers_are_written<W>(v: QpackView<W>, stream_id: StreamId, after: QpackView<W>)
    ensures
        event_spec(v, QpackEvent::HeaderAck(stream_id), after) <==> after == (QpackView {
            decoder_send: v.decoder_send + acknowledgment(stream_id.0),
            ..v
        }),
        event_spec(v, QpackEvent::StreamCancel(stream_id), after) <==> after == (QpackView {
            decoder_send: v.decoder_send + cancellation(stream_id.0),
            ..v
        }),
{
}

/// A stream that asks to be woken at insertions that have been made is woken at once; one that
/// asks for insertions to come waits for them, and no other stream is forgotten for it. One that
/// need wait no longer is taken off, and no other with it.
pub proof fn waiting_streams_are_kept<W>(
    v: QpackView<W>,
    stream_id: StreamId,
    required_ref: usize,
    waker: W,
    after: QpackView<W>,
    i: int,
)
    requires
        0 <= i < v.waiting.len(),
        v.waiting[i].required_ref != required_ref || v.waiting[i].stream_id != stream_id,
    ensures
        event_spec(v, QpackEvent::RegisterBlocked { stream_id, required_ref, waker }, after) ==> {
            &&& after.waiting.contains(v.waiting[i])
            &&& required_ref <= v.inserted ==> after.waiting == v.waiting && after.woken
                == v.woken.push(waker)
            &&& required_ref > v.inserted ==> after.woken == v.woken && after.waiting.contains(
                (BlockedStream { required_ref, stream_id, waker }),
            )
            &&& after.waiting.len() <= v.waiting.len() + 1
        },
        event_spec(v, QpackEvent::ReleaseBlocked { stream_id, required_ref }, after) ==> {
            &&& after.waiting.contains(v.waiting[i])
            &&& after.woken == v.woken
            &&& after.waiting.len() <= v.waiting.len()
        },
{
    let old = v.waiting[i];
    if event_spec(v, QpackEvent::RegisterBlocked { stream_id, required_ref, waker }, after) {
        if required_ref <= v.inserted {
            assert(after.waiting[i] == old);
        } else {
            let stream = BlockedStream { required_ref, stream_id, waker };
            let waiting = choose|waiting: Seq<BlockedStream<W>>|
                after == (QpackView { waiting, ..v })
                    && #[trigger] crate::qpack_streams::registered(v.waiting, stream, waiting);
            if crate::qpack_streams::is_waiting(v.waiting, required_ref, stream_id.0) {
                let p = choose|p: int|
                    0 <= p < v.waiting.len() && v.waiting[p].is(required_ref, stream_id.0)
                        && after.waiting == #[trigger] v.waiting.update(p, stream);
                assert(after.waiting[p] == stream);
                assert(after.waiting[i] == old);
            } else {
                let p = choose|p: int|
                    0 <= p <= v.waiting.len() && after.waiting == #[trigger] v.waiting.insert(
                        p,
                        stream,
                    );
                assert(after.waiting[p] == stream);
                if i < p {
                    assert(after.waiting[i] == old);
                } else {
                    assert(after.waiting[i + 1] == old);
                }
            }
        }
    }
    if event_spec(v, QpackEvent::ReleaseBlocked { stream_id, required_ref }, after) {
        if crate::qpack_streams::is_waiting(v.waiting, required_ref, stream_id.0) {
            let p = choose|p: int|
                0 <= p < v.waiting.len() && v.waiting[p].is(required_ref, stream_id.0)
                    && after.waiting == #[trigger] v.waiting.remove(p);
            if i < p {
                assert(after.waiting[i] == old);
            } else {
                assert(after.waiting[i - 1] == old);
            }
        } else {
            assert(after.waiting[i] == old);
        }
    }
}

/// Whether a decoder that has followed these instructions reads the section as these lines.
pub open spec fn decodes_to(
    decoder: TableView,
    max_table_capacity: usize,
    limit: usize,
    max_size: u64,
    instructions: Seq<u8>,
    section: Seq<u8>,
    fields: Seq<FieldView>,
) -> bool {
    let (followed, table, unread) = run_spec(decoder, max_table_capacity, limit, instructions);
    let (prefix, lines) = section_prefix(table.inserted(), max_table_capacity, None, section);
    &&& followed is Ok
    &&& unread == Seq::<u8>::empty()
    &&& prefix is Ok
    &&& section_spec(table, prefix->Ok_0, limit, max_size, lines).0 matches Ok(decoded)
    &&& decoded.fields == fields
}

/// A request goes out whole, whichever way it is encoded: its section is read as all of its
/// lines, marked as they were, in their order, either without the dynamic table, or by a
/// decoder that holds what the encoder held and has followed what is queued for it.
pub proof fn requests_are_encoded_whole(
    state: QpackEncoderView,
    decoder: TableView,
    stream_id: u64,
    fields: Seq<FieldView>,
    max_size: u64,
    limit: usize,
)
    requires
        codec_ready(state.table, decoder, state.max_table_capacity),
        section_within(state.table, stream_id, fields, state.max_table_capacity, limit),
        lines_encodable(fields, limit),
        lines_size(fields) <= max_size,
    ensures
        ({
            let (outcome, section, after) = shared_encode(state, stream_id, fields);
            outcome is Ok ==> {
                ||| stateless_spec(limit, max_size, section) == (
                    Ok::<DecodedView, DecoderError>(
                        DecodedView { fields, dyn_ref: false, mem_size: lines_size(fields) as u64 },
                    ),
                    Seq::<u8>::empty(),
                )
                ||| decodes_to(
                    decoder,
                    state.max_table_capacity,
                    limit,
                    max_size,
                    after.pending,
                    section,
                    fields,
                )
            }
        }),
{
    stateless_round_trip(fields, max_size, limit);
    section_round_trip(
        state.table,
        decoder,
        stream_id,
        fields,
        state.max_table_capacity,
        max_size,
        limit,
    );
}

/// A request is sent as a HEADERS frame with the section that it was prepared with, where
/// that fits in a frame; nothing else of the connection changes by it.
pub proof fn requests_are_sent_whole(
    stream_id: StreamId,
    section: Seq<u8>,
    encoder: QpackEncoderView,
    shared: SharedState,
    result: Result<(Vec<u8>, bool), StreamError>,
    encoder_after: QpackEncoderView,
    shared_after: SharedState,
)
    requires
        encoded_request(
            stream_id,
            PreparedView::Stateless(section),
            encoder,
            shared,
            result,
            encoder_after,
            shared_after,
        ),
        section.len() <= MAX_VARINT,
    ensures
        result matches Ok((frame, queued)) && frame@ == spelled(0x1, section) && !queued,
        encoder_after == encoder,
        shared_after == shared,
{
}

/// A request that is encoded against the dynamic table is sent as a HEADERS frame with a
/// section that is read as all of its lines.
pub proof fn dynamic_requests_are_sent_whole(
    stream_id: StreamId,
    fields: Seq<FieldView>,
    encoder: QpackEncoderView,
    shared: SharedState,
    result: Result<(Vec<u8>, bool), StreamError>,
    encoder_after: QpackEncoderView,
    shared_after: SharedState,
    decoder: TableView,
    max_size: u64,
    limit: usize,
)
    requires
        encoded_request(
            stream_id,
            PreparedView::Dynamic(fields),
            encoder,
            shared,
            result,
            encoder_after,
            shared_after,
        ),
        result is Ok,
        codec_ready(encoder.table, decoder, encoder.max_table_capacity),
        section_within(encoder.table, stream_id.0, fields, encoder.max_table_capacity, limit),
        lines_encodable(fields, limit),
        lines_size(fields) <= max_size,
    ensures
        shared_after == shared,
        exists|section: Seq<u8>|
            {
                &&& result->Ok_0.0@ == #[trigger] spelled(0x1, section)
                &&& stateless_spec(limit, max_size, section) == (
                    Ok::<DecodedView, DecoderError>(
                        DecodedView { fields, dyn_ref: false, mem_size: lines_size(fields) as u64 },
                    ),
                    Seq::<u8>::empty(),
                ) || decodes_to(
                    decoder,
                    encoder.max_table_capacity,
                    limit,
                    max_size,
                    encoder_after.pending,
                    section,
                    fields,
                )
            },
{
    requests_are_encoded_whole(encoder, decoder, stream_id.0, fields, max_size, limit);
    let section = shared_encode(encoder, stream_id.0, fields).1;
    assert(result->Ok_0.0@ == spelled(0x1, section));
}

/// Trailers are sent as a HEADERS frame with a section that is read as all of their fields,
/// where the peer accepts one of their size; where it does not, they are refused with their size
/// and the limit.
pub proof fn trailers_are_sent_whole(
    entries: Seq<(Seq<u8>, Seq<u8>, bool)>,
    peer_max: u64,
    shared: SharedState,
    result: Result<Vec<u8>, StreamError>,
    after: SharedState,
    limit: usize,
)
    requires
        trailers_encoded(entries, peer_max, shared, result, after),
        lines_size(section_fields(no_pseudo(), entries)) <= u64::MAX,
        stateless_section(section_fields(no_pseudo(), entries)).len() <= MAX_VARINT,
        stateless_section(section_fields(no_pseudo(), entries)).len() <= limit,
    ensures
        ({
            let fields = section_fields(no_pseudo(), entries);
            let size = lines_size(fields) as u64;
            &&& after == shared
            &&& size > peer_max ==> result == Err::<Vec<u8>, StreamError>(
                StreamError::HeaderTooBig { actual_size: size, max_size: peer_max },
            )
            &&& size <= peer_max ==> result is Ok && exists|section: Seq<u8>|
                result->Ok_0@ == #[trigger] spelled(0x1, section) && stateless_spec(
                    limit,
                    peer_max,
                    section,
                ).0 == Ok::<DecodedView, DecoderError>(
                    DecodedView { fields, dyn_ref: false, mem_size: size },
                )
        }),
{
    let fields = section_fields(no_pseudo(), entries);
    let section = stateless_section(fields);
    crate::qpack::dynamic::lemma_lines_size_nonneg(fields);
    if lines_size(fields) <= peer_max {
        stateless_round_trip(fields, peer_max, limit);
        assert(result->Ok_0@ == spelled(0x1, section));
    }
}

/// Decoder instructions are sent in their order, none twice and none left out: what was sent is
/// taken off the front, and as long as something is left, that is sent next.
pub proof fn decoder_instructions_are_sent_once<W>(v: QpackView<W>, at: FlushAt, n: usize)
    requires
        0 < n <= v.decoder_send.len(),
        v.max_table_capacity > 0,
    ensures
        ({
            let (step, after, place) = encoder_stream_spec(v, at, QpackIo::Sent(n));
            &&& n < v.decoder_send.len() ==> {
                &&& step == Ok::<QpackStep, ErrorOrigin>(QpackStep::Send)
                &&& v.decoder_send.take(n as int) + after.decoder_send == v.decoder_send
                &&& after == (QpackView { decoder_send: after.decoder_send, ..v })
                &&& place == at
            }
            &&& n == v.decoder_send.len() && at == FlushAt::After ==> {
                &&& step == Ok::<QpackStep, ErrorOrigin>(QpackStep::Receive)
                &&& after.decoder_send == Seq::<u8>::empty()
                &&& after == (QpackView { decoder_send: after.decoder_send, ..v })
            }
        }),
{
    let after = encoder_stream_spec(v, at, QpackIo::Sent(n)).1;
    if n < v.decoder_send.len() {
        assert(v.decoder_send.take(n as int) + after.decoder_send =~= v.decoder_send);
    }
}

/// What is pending for the encoder stream is taken to be sent, all of it.
pub proof fn pending_instructions_are_taken<W>(v: QpackView<W>)
    requires
        v.encoder_send.len() == 0,
    ensures
        ({
            let (step, after) = next_batch(v);
            &&& after.encoder_send == v.encoder.pending
            &&& after.encoder.pending == Seq::<u8>::empty()
            &&& step == if v.encoder.pending.len() > 0 {
                QpackStep::Send
            } else {
                QpackStep::Done
            }
        }),
{
}

/// What arrives on the peer's encoder stream and on its decoder stream is read behind what was
/// left there before, so that no byte is lost, and none is read twice.
pub proof fn chunks_are_read_in_order<W>(
    v: QpackView<W>,
    at: FlushAt,
    stream: DeliveredView,
    chunk: Vec<u8>,
)
    requires
        chunk@.len() > 0,
    ensures
        v.encoder_recv == Some(stream) ==> {
            let (step, after, place) = encoder_stream_spec(v, at, QpackIo::Received(chunk));
            let (followed, table, rest) = run_spec(
                v.table,
                v.max_table_capacity,
                v.string_limit,
                stream.bytes + chunk@,
            );
            &&& after.table == table
            &&& step is Ok <==> followed is Ok
            &&& followed is Ok ==> after.encoder_recv == Some(
                DeliveredView { bytes: rest, ..stream },
            )
            &&& followed is Err ==> after.encoder_recv is None
        },
        v.decoder_recv == Some(stream) ==> {
            let (step, after) = decoder_stream_spec(v, QpackIo::Received(chunk));
            let (followed, table, rest) = crate::qpack::encoder::follow_spec(
                v.encoder.table,
                stream.bytes + chunk@,
            );
            &&& after.encoder.table == table
            &&& step is Ok <==> followed is Ok
            &&& followed is Ok ==> after.decoder_recv == Some(
                DeliveredView { bytes: rest, ..stream },
            )
            &&& followed is Err ==> after.decoder_recv is None
        },
{
}

/// That the peer ends a stream that it must not end fails the connection, and so does a
/// transport that takes nothing.
///
/// See <https://www.rfc-editor.org/rfc/rfc9204.html#section-4.2>.
pub proof fn qpack_streams_stay_open<W>(v: QpackView<W>, at: FlushAt)
    ensures
        encoder_stream_spec(v, at, QpackIo::Ended).0 matches Err(ErrorOrigin::Internal(error))
            && error.code == Code::H3_CLOSED_CRITICAL_STREAM,
        decoder_stream_spec(v, QpackIo::Ended).0 matches Err(ErrorOrigin::Internal(error))
            && error.code == Code::H3_CLOSED_CRITICAL_STREAM,
        encoder_stream_spec(v, at, QpackIo::SendUnavailable).0 matches Err(
            ErrorOrigin::Internal(error),
        ) && error.code == Code::H3_CLOSED_CRITICAL_STREAM,
        encoder_stream_spec(v, at, QpackIo::Sent(0)).0 matches Err(ErrorOrigin::Internal(error))
            && error.code == Code::H3_INTERNAL_ERROR,
        flush_encoder_spec(v, QpackIo::Sent(0)).0 matches Err(ErrorOrigin::Internal(error))
            && error.code == Code::H3_INTERNAL_ERROR,
        encoder_stream_spec(v, at, QpackIo::SendPending) == (
            Ok::<QpackStep, ErrorOrigin>(QpackStep::Pending),
            v,
            at,
        ),
        encoder_stream_spec(v, at, QpackIo::ReceivePending) == (
            Ok::<QpackStep, ErrorOrigin>(QpackStep::Pending),
            v,
            at,
        ),
{
}

/// The tasks of all events that wait for something are woken, in the order of the events.
pub proof fn event_tasks_are_woken<W>(events: Seq<QpackEvent<W>>, event: QpackEvent<W>)
    ensures
        event_wakers(Seq::<QpackEvent<W>>::empty()) == Seq::<W>::empty(),
        event matches QpackEvent::RegisterBlocked { stream_id, required_ref, waker }
            ==> event_wakers(events.push(event)) == event_wakers(events).push(waker),
        event matches QpackEvent::DecoderAccessWaker(waker) ==> event_wakers(events.push(event))
            == event_wakers(events).push(waker),
        event is HeaderAck || event is StreamCancel || event is ReleaseBlocked ==> event_wakers(
            events.push(event),
        ) == event_wakers(events),
{
    assert(events.push(event).drop_last() =~= events);
}

/// A stream is one too many exactly where it has to wait, does not wait already for the same
/// insertions, and as many wait as are permitted.
pub proof fn streams_may_wait_up_to_the_limit<W>(
    v: QpackView<W>,
    stream_id: StreamId,
    required_ref: usize,
    waker: W,
)
    ensures
        ({
            let event = QpackEvent::RegisterBlocked { stream_id, required_ref, waker };
            &&& v.waiting.len() < v.limit ==> !exceeds_limit(v, event)
            &&& required_ref <= v.inserted ==> !exceeds_limit(v, event)
            &&& v.waiting.len() >= v.limit && required_ref > v.inserted && (forall|i: int|
                0 <= i < v.waiting.len() ==> (#[trigger] v.waiting[i]).required_ref != required_ref
                    || v.waiting[i].stream_id != stream_id) ==> exceeds_limit(v, event)
        }),
{
}

/// The streams of a connection that begins hold nothing and tell nothing, and its decoder keeps
/// to the capacity, the limits and the table that it was set up with.
pub proof fn connections_begin_with_nothing<W>(
    table: TableView,
    max_table_capacity: usize,
    string_limit: usize,
    limit: u64,
)
    ensures
        ({
            let v = fresh_streams::<W>(table, max_table_capacity, string_limit, limit);
            &&& v.table == table
            &&& v.max_table_capacity == max_table_capacity
            &&& v.string_limit == string_limit
            &&& v.limit == limit
            &&& v.max_blocked_streams == limit
            &&& v.inserted == 0
            &&& v.waiting.len() == 0
            &&& v.woken.len() == 0
            &&& v.decoder_send.len() == 0
            &&& v.encoder_send.len() == 0
            &&& v.encoder.pending.len() == 0
            &&& v.encoder.table.fields.len() == 0
            &&& v.encoder.table.max_size == 0
            &&& !v.encoder.enabled
            &&& v.encoder_recv is None
            &&& v.decoder_recv is None
        }),
        ({
            let state = fresh_state();
            &&& state.settings is None
            &&& state.connection_error is None
            &&& !state.closing
            &&& state.peer_goaway > MAX_VARINT
        }),
{
}

/// A stream that begins has delivered nothing, stands between two frames, and may be told to be
/// of any size that the endpoint accepts. Its field sections are decoded within the limit that
/// it was given, or by the connection's decoder.
pub proof fn streams_begin_with_nothing(
    stream_id: StreamId,
    limit: usize,
    decoder: Option<QpackDecoder>,
)
    ensures
        between_frames(unread_stream(stream_id), Seq::<u8>::empty()),
        !unread_stream(stream_id).eos,
        unread_stream(stream_id).id == stream_id,
        !unread_stream(stream_id).data_until_eos,
        decoder is None ==> fresh_decode(stream_id, limit, decoder) == DecodeView::Stateless(limit),
        decoder matches Some(shared) ==> {
            &&& fresh_decode(stream_id, limit, decoder) matches DecodeView::Dynamic(guard)
            &&& guard.stream_id == stream_id
            &&& guard.decoder == shared
            &&& guard.cancel_on_drop
            &&& guard.blocked is None
            &&& guard.prefix is None
        },
{
}

/// A message is read once its stream has ended, all of it was taken and no trailers wait; before
/// that it is not.
pub proof fn messages_are_read_to_their_end(request: RequestView)
    ensures
        is_read(request) ==> joined(request.stream.chunks) == Seq::<u8>::empty(),
        !request.stream.eos ==> !is_read(request),
        joined(request.stream.chunks).len() > 0 ==> !is_read(request),
        request.trailers is Some ==> !is_read(request),
        request.stream.eos && joined(request.stream.chunks).len() == 0 && request.trailers is None
            ==> is_read(request),
{
    assert(is_read(request) ==> joined(request.stream.chunks) =~= Seq::<u8>::empty());
}

} // verus!
