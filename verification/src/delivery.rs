//! What arrives of what a peer sends.
//!
//! A peer sends frames, and in them field sections and content. What a step of receiving gives
//! is what was sent, all of it, in order, and nothing else.
use vstd::prelude::*;
use crate::buf_list::{joined, lemma_skipped_joined};
use crate::error::{Code, ErrorOrigin, StreamError};
use crate::frame::{
    arrived, arrives_in_order, decode_one_spec, decode_spec as next_frame, payload_run,
    lemma_data_taken, payloads_are_read_whole, poll_data_chunk_spec, poll_next_spec,
    with_arrival, Arrival, FrameDecoder, FrameStreamError, Poll, StreamView,
};
use crate::proto::frame::{
    acceptable_settings, frame_bytes, frame_round_trip, frame_spec, settings_bytes,
    settings_round_trip, settings_spec, unknown_prefix_spec, FrameError, FrameView, PayloadLen,
};
use crate::proto::headers::{
    parsed_section, response_pseudo, section_fields, sendable, MessageExtensions,
};
use crate::proto::messages::responses_are_received_as_sent;
use crate::proto::varint;
use crate::qpack::decoder::{section_prefix, section_spec, stateless_spec, Decoder, DecoderError};
use crate::qpack::dynamic::{lines_size, TableView};
use crate::qpack::encoder::stateless_section;
use crate::qpack::field::FieldView;
use crate::qpack::laws::stateless_round_trip;
use crate::qpack::shared::QpackEvent;
use crate::qpack::wire::{
    is_dynamic, line_meaning, lines_bytes, lines_readable, meanings, stateless_sections_are_read,
    Line,
};
use crate::quic::MAX_VARINT;
use crate::request::{DecodeView, DecoderGuard};
use crate::request_stream::{
    data_frame_spec, nothing_follows, payload_spec, response_spec, trailers_spec, RecvFailure,
    RecvStep, RecvView, RequestView,
};

verus! {

/// The bytes of a frame with this type and this payload.
///
/// See <https://www.rfc-editor.org/rfc/rfc9114.html#section-7.1>.
pub open spec fn spelled(ty: u64, payload: Seq<u8>) -> Seq<u8> {
    varint::encode_spec(ty) + varint::encode_spec(payload.len() as u64) + payload
}

/// Each frame is written with its type, and with what it says as its payload.
///
/// See <https://www.rfc-editor.org/rfc/rfc9114.html#section-7.2>.
pub proof fn frames_are_spelled(data: Seq<u8>, id: u64, entries: Seq<(u64, u64)>)
    ensures
        frame_bytes(FrameView::Data(data)) == spelled(0x0, data),
        frame_bytes(FrameView::Headers(data)) == spelled(0x1, data),
        frame_bytes(FrameView::CancelPush(id)) == spelled(0x3, varint::encode_spec(id)),
        frame_bytes(FrameView::Settings(entries)) == spelled(0x4, settings_bytes(entries)),
        frame_bytes(FrameView::PushPromise(id, data)) == spelled(0x5, varint::encode_spec(id) + data),
        frame_bytes(FrameView::Goaway(id)) == spelled(0x7, varint::encode_spec(id)),
        frame_bytes(FrameView::MaxPushId(id)) == spelled(0xd, varint::encode_spec(id)),
        frame_bytes(FrameView::WebTransportStream(id)) == varint::encode_spec(0x41)
            + varint::encode_spec(id),
{
}

/// Whether a stream is between two frames, with these bytes delivered.
pub open spec fn between_frames(v: StreamView, bytes: Seq<u8>) -> bool {
    &&& v.remaining_data == 0
    &&& v.decoder.ignored_payload == 0
    &&& v.decoder.expected is None
    &&& joined(v.chunks) == bytes
}

/// Whether one state of a stream is another with fewer bytes.
pub open spec fn only_read(before: StreamView, after: StreamView) -> bool {
    &&& after.eos == before.eos
    &&& after.id == before.id
    &&& after.decoder == before.decoder
    &&& after.data_until_eos == before.data_until_eos
}

#[verifier::spinoff_prover]
#[verifier::rlimit(40)]
proof fn lemma_frame_found(v: StreamView, frame: FrameView<Seq<u8>>, rest: Seq<u8>, left: Seq<u8>)
    requires
        between_frames(v, frame_bytes(frame) + rest),
        frame_bytes(frame).len() > 0,
        unknown_prefix_spec(frame_bytes(frame) + rest) == Ok::<
            Option<(u64, u64, Seq<u8>)>,
            FrameError,
        >(None),
        frame_spec(frame_bytes(frame) + rest, v.decoder.max_field_section_size) matches Ok((_, after))
            && after == left && left.len() <= (frame_bytes(frame) + rest).len()
            && (frame_bytes(frame) + rest).skip((frame_bytes(frame) + rest).len() - left.len())
            == left,
    ensures
        ({
            let s = frame_bytes(frame) + rest;
            let found = frame_spec(s, v.decoder.max_field_section_size)->Ok_0.0;
            let (result, after) = poll_next_spec(v);
            &&& result == Ok::<Poll<Option<FrameView<PayloadLen>>>, FrameStreamError>(
                Poll::Ready(Some(found)),
            )
            &&& joined(after.chunks) == left
            &&& after.eos == v.eos
            &&& after.id == v.id
            &&& after.decoder == v.decoder
            &&& !(found is Data) && !(found is WebTransportStream) ==> after.remaining_data == 0
                && after.data_until_eos == v.data_until_eos
            &&& found matches FrameView::Data(len) ==> after.remaining_data == len.0
                && !after.data_until_eos
            &&& found is WebTransportStream ==> after.remaining_data == usize::MAX
                && after.data_until_eos
        }),
{
    let s = frame_bytes(frame) + rest;
    lemma_skipped_joined(v.chunks, (s.len() - left.len()) as nat);
    assert(next_frame(v.decoder, s).2 == left);
}

/// The type at the front of a frame tells that it has a meaning.
proof fn lemma_known(ty: u64, tail: Seq<u8>)
    requires
        ty == 0x0 || ty == 0x1 || ty == 0x3 || ty == 0x4 || ty == 0x5 || ty == 0x7 || ty == 0xd || ty
            == 0x41,
    ensures
        unknown_prefix_spec(varint::encode_spec(ty) + tail) == Ok::<
            Option<(u64, u64, Seq<u8>)>,
            FrameError,
        >(None),
        varint::encode_spec(ty).len() > 0,
{
    varint::round_trip(ty, tail);
}

/// A HEADERS frame is found at the front of what was delivered, with all of its field section,
/// and nothing of what follows it is taken.
#[verifier::spinoff_prover]
#[verifier::rlimit(40)]
pub proof fn field_sections_are_found(v: StreamView, section: Seq<u8>, rest: Seq<u8>)
    requires
        between_frames(v, spelled(0x1, section) + rest),
        section.len() <= v.decoder.max_field_section_size,
        section.len() <= MAX_VARINT,
        spelled(0x1, section).len() <= usize::MAX,
    ensures
        ({
            let (result, after) = poll_next_spec(v);
            &&& result == Ok::<Poll<Option<FrameView<PayloadLen>>>, FrameStreamError>(
                Poll::Ready(Some(FrameView::Headers(section))),
            )
            &&& between_frames(after, rest)
            &&& only_read(v, after)
        }),
{
    let frame: FrameView<Seq<u8>> = FrameView::Headers(section);
    let s = spelled(0x1, section) + rest;
    frame_round_trip(frame, v.decoder.max_field_section_size, rest);
    assert(s =~= varint::encode_spec(0x1) + (varint::encode_spec(section.len() as u64) + section
        + rest));
    lemma_known(0x1, varint::encode_spec(section.len() as u64) + section + rest);
    assert(s.skip(s.len() - rest.len()) =~= rest);
    lemma_frame_found(v, frame, rest, rest);
}

/// A field section that is larger than permitted is an error, however much of it has arrived.
pub proof fn large_field_sections_are_refused(v: StreamView, len: u64, rest: Seq<u8>)
    requires
        between_frames(v, varint::encode_spec(0x1) + varint::encode_spec(len) + rest),
        len > v.decoder.max_field_section_size,
        len <= MAX_VARINT,
    ensures
        poll_next_spec(v).0 == Err::<Poll<Option<FrameView<PayloadLen>>>, FrameStreamError>(
            FrameStreamError::Proto(
                crate::frame::FrameProtocolError::ExcessiveLoad {
                    len,
                    limit: v.decoder.max_field_section_size,
                },
            ),
        ),
{
    let s = varint::encode_spec(0x1) + varint::encode_spec(len) + rest;
    assert(s =~= varint::encode_spec(0x1) + (varint::encode_spec(len) + rest));
    varint::round_trip(0x1, varint::encode_spec(len) + rest);
    varint::round_trip(len, rest);
}

/// A DATA frame is found at the front of what was delivered, with its length, and its payload
/// is what is read next.
#[verifier::spinoff_prover]
#[verifier::rlimit(40)]
pub proof fn contents_are_found(v: StreamView, data: Seq<u8>, rest: Seq<u8>)
    requires
        between_frames(v, spelled(0x0, data) + rest),
        data.len() <= MAX_VARINT,
        spelled(0x0, data).len() <= usize::MAX,
    ensures
        ({
            let (result, after) = poll_next_spec(v);
            &&& result == Ok::<Poll<Option<FrameView<PayloadLen>>>, FrameStreamError>(
                Poll::Ready(Some(FrameView::Data(PayloadLen(data.len() as usize)))),
            )
            &&& joined(after.chunks) == data + rest
            &&& after.remaining_data == data.len()
            &&& !after.data_until_eos
            &&& after.eos == v.eos
            &&& after.id == v.id
            &&& after.decoder == v.decoder
        }),
{
    let frame: FrameView<Seq<u8>> = FrameView::Data(data);
    let s = spelled(0x0, data) + rest;
    frame_round_trip(frame, v.decoder.max_field_section_size, rest);
    assert(s =~= varint::encode_spec(0x0) + (varint::encode_spec(data.len() as u64) + data
        + rest));
    lemma_known(0x0, varint::encode_spec(data.len() as u64) + data + rest);
    assert(s.skip(s.len() - (data + rest).len()) =~= data + rest);
    lemma_frame_found(v, frame, rest, data + rest);
}

/// A GOAWAY, CANCEL_PUSH or MAX_PUSH_ID frame is found with its number.
pub proof fn numbers_are_found(v: StreamView, id: u64, rest: Seq<u8>)
    requires
        id <= MAX_VARINT,
    ensures
        between_frames(v, spelled(0x7, varint::encode_spec(id)) + rest) ==> {
            let (result, after) = poll_next_spec(v);
            &&& result == Ok::<Poll<Option<FrameView<PayloadLen>>>, FrameStreamError>(
                Poll::Ready(Some(FrameView::Goaway(id))),
            )
            &&& between_frames(after, rest)
            &&& only_read(v, after)
        },
        between_frames(v, spelled(0x3, varint::encode_spec(id)) + rest) ==> {
            let (result, after) = poll_next_spec(v);
            &&& result == Ok::<Poll<Option<FrameView<PayloadLen>>>, FrameStreamError>(
                Poll::Ready(Some(FrameView::CancelPush(id))),
            )
            &&& between_frames(after, rest)
            &&& only_read(v, after)
        },
        between_frames(v, spelled(0xd, varint::encode_spec(id)) + rest) ==> {
            let (result, after) = poll_next_spec(v);
            &&& result == Ok::<Poll<Option<FrameView<PayloadLen>>>, FrameStreamError>(
                Poll::Ready(Some(FrameView::MaxPushId(id))),
            )
            &&& between_frames(after, rest)
            &&& only_read(v, after)
        },
{
    if between_frames(v, spelled(0x7, varint::encode_spec(id)) + rest) {
        lemma_number_found(v, 0x7, FrameView::Goaway(id), id, rest);
    }
    if between_frames(v, spelled(0x3, varint::encode_spec(id)) + rest) {
        lemma_number_found(v, 0x3, FrameView::CancelPush(id), id, rest);
    }
    if between_frames(v, spelled(0xd, varint::encode_spec(id)) + rest) {
        lemma_number_found(v, 0xd, FrameView::MaxPushId(id), id, rest);
    }
}

/// A SETTINGS frame is found with the settings that its payload reads as.
#[verifier::spinoff_prover]
#[verifier::rlimit(40)]
pub proof fn settings_are_found(v: StreamView, entries: Seq<(u64, u64)>, rest: Seq<u8>)
    requires
        acceptable_settings(entries),
        between_frames(v, spelled(0x4, settings_bytes(entries)) + rest),
        settings_bytes(entries).len() <= MAX_VARINT,
        spelled(0x4, settings_bytes(entries)).len() <= usize::MAX,
    ensures
        ({
            let read = settings_spec(Seq::empty(), settings_bytes(entries));
            let (result, after) = poll_next_spec(v);
            &&& read is Ok
            &&& result == Ok::<Poll<Option<FrameView<PayloadLen>>>, FrameStreamError>(
                Poll::Ready(Some(FrameView::Settings(read->Ok_0))),
            )
            &&& between_frames(after, rest)
            &&& only_read(v, after)
        }),
{
    let payload = settings_bytes(entries);
    let frame: FrameView<Seq<u8>> = FrameView::Settings(entries);
    let s = spelled(0x4, payload) + rest;
    settings_round_trip(entries);
    frame_round_trip(frame, v.decoder.max_field_section_size, rest);
    let tail = varint::encode_spec(payload.len() as u64) + payload + rest;
    assert(s =~= varint::encode_spec(0x4) + tail);
    lemma_known(0x4, tail);
    assert(s.skip(s.len() - rest.len()) =~= rest);
    lemma_frame_found(v, frame, rest, rest);
}

#[verifier::spinoff_prover]
#[verifier::rlimit(40)]
proof fn lemma_number_found(
    v: StreamView,
    ty: u64,
    frame: FrameView<Seq<u8>>,
    id: u64,
    rest: Seq<u8>,
)
    requires
        id <= MAX_VARINT,
        ty == 0x3 || ty == 0x7 || ty == 0xd,
        frame == FrameView::<Seq<u8>>::Goaway(id) || frame == FrameView::<Seq<u8>>::CancelPush(id)
            || frame == FrameView::<Seq<u8>>::MaxPushId(id),
        frame_bytes(frame) == spelled(ty, varint::encode_spec(id)),
        between_frames(v, spelled(ty, varint::encode_spec(id)) + rest),
    ensures
        ({
            let (result, after) = poll_next_spec(v);
            &&& result == Ok::<Poll<Option<FrameView<PayloadLen>>>, FrameStreamError>(
                Poll::Ready(Some(crate::proto::frame::as_read(frame))),
            )
            &&& between_frames(after, rest)
            &&& only_read(v, after)
        }),
{
    let payload = varint::encode_spec(id);
    let s = spelled(ty, payload) + rest;
    varint::round_trip(id, Seq::empty());
    varint::round_trip(ty, Seq::empty());
    varint::round_trip(payload.len() as u64, Seq::empty());
    frame_round_trip(frame, v.decoder.max_field_section_size, rest);
    let tail = varint::encode_spec(payload.len() as u64) + payload + rest;
    assert(s =~= varint::encode_spec(ty) + tail);
    lemma_known(ty, tail);
    assert(s.skip(s.len() - rest.len()) =~= rest);
    lemma_frame_found(v, frame, rest, rest);
}

/// A frame without a meaning is passed over, whatever it holds and however long it is: what
/// follows it is found as if it were not there.
///
/// See <https://www.rfc-editor.org/rfc/rfc9114.html#section-9>.
pub proof fn unknown_frames_are_passed_over(
    decoder: FrameDecoder,
    ty: u64,
    payload: Seq<u8>,
    rest: Seq<u8>,
)
    requires
        decoder.ignored_payload == 0,
        decoder.expected is None,
        ty <= MAX_VARINT,
        payload.len() <= MAX_VARINT,
        ty > 0x9,
        ty != 0xd,
        ty != 0x41,
    ensures
        next_frame(decoder, spelled(ty, payload) + rest) == next_frame(decoder, rest),
{
    let len = payload.len() as u64;
    let s = spelled(ty, payload) + rest;
    let tail = payload + rest;
    assert(s =~= varint::encode_spec(ty) + (varint::encode_spec(len) + tail));
    varint::round_trip(ty, varint::encode_spec(len) + tail);
    varint::round_trip(len, tail);
    assert(tail.skip(len as int) =~= rest);
    let (found, after, left) = decode_one_spec(decoder, s);
    assert(after == decoder);
}

/// A frame of HTTP/2 that HTTP/3 forbids is an error.
///
/// See <https://www.rfc-editor.org/rfc/rfc9114.html#section-7.2.8>.
pub proof fn forbidden_frames_are_errors(v: StreamView, ty: u64, rest: Seq<u8>)
    requires
        ty == 0x2 || ty == 0x6 || ty == 0x8 || ty == 0x9,
        between_frames(v, varint::encode_spec(ty) + rest),
    ensures
        poll_next_spec(v).0 == Err::<Poll<Option<FrameView<PayloadLen>>>, FrameStreamError>(
            FrameStreamError::Proto(crate::frame::FrameProtocolError::ForbiddenFrame(ty)),
        ),
{
    varint::round_trip(ty, rest);
}

/// A stream that has ended between two frames has no more of them; one that has ended inside a
/// frame is an error; one that has not ended has to be read on.
pub proof fn streams_end_between_frames(v: StreamView, rest: Seq<u8>)
    requires
        v.remaining_data == 0,
        v.decoder.expected is None,
    ensures
        between_frames(v, Seq::<u8>::empty()) ==> poll_next_spec(v).0 == Ok::<
            Poll<Option<FrameView<PayloadLen>>>,
            FrameStreamError,
        >(
            if v.eos {
                Poll::Ready(None)
            } else {
                Poll::Pending
            },
        ),
        v.eos && joined(v.chunks).len() < v.decoder.ignored_payload ==> poll_next_spec(v).0 == Err::<
            Poll<Option<FrameView<PayloadLen>>>,
            FrameStreamError,
        >(FrameStreamError::UnexpectedEnd),
{
    let s = joined(v.chunks);
    lemma_skipped_joined(v.chunks, 0);
    lemma_skipped_joined(v.chunks, s.len());
    assert(s.skip(s.len() as int) =~= Seq::<u8>::empty());
}

/// Whether a field section says these lines to a stream that decodes it.
pub open spec fn section_says(
    decode: DecodeView,
    decoder: Decoder,
    max_size: u64,
    section: Seq<u8>,
    fields: Seq<FieldView>,
) -> bool {
    match decode {
        DecodeView::Stateless(limit) => {
            &&& stateless_spec(limit, max_size, section).0 matches Ok(decoded)
            &&& decoded.fields == fields
        },
        DecodeView::Dynamic(guard) => if !guard.decoder.dynamic_table {
            &&& stateless_spec(guard.decoder.max_encoded_string_size, max_size, section).0 matches Ok(
                decoded,
            )
            &&& decoded.fields == fields
        } else {
            let (prefix, lines) = section_prefix(
                decoder.table@.inserted(),
                decoder.max_table_capacity,
                guard.prefix,
                section,
            );
            &&& prefix is Ok
            &&& section_spec(
                decoder.table@,
                prefix->Ok_0,
                decoder.max_encoded_string_size,
                max_size,
                lines,
            ).0 matches Ok(decoded)
            &&& decoded.fields == fields
        },
        DecodeView::SendOnly => false,
    }
}

/// Whether what a request's stream has delivered begins with a header section that says these
/// lines.
pub open spec fn delivers_section<W>(
    v: RecvView<W>,
    decoder: Decoder,
    fields: Seq<FieldView>,
) -> bool {
    exists|section: Seq<u8>, rest: Seq<u8>|
        {
            &&& #[trigger] between_frames(v.request.stream, spelled(0x1, section) + rest)
            &&& section.len() <= v.request.stream.decoder.max_field_section_size
            &&& section.len() <= MAX_VARINT
            &&& spelled(0x1, section).len() <= usize::MAX
            &&& section_says(
                v.request.decode,
                decoder,
                v.request.max_field_section_size,
                section,
                fields,
            )
        }
}

/// Where the stream begins with a header section, its lines are what is given.
pub proof fn delivered_sections_are_received<W>(
    v: RecvView<W>,
    decoder: Decoder,
    waker: W,
)
    requires
        !v.events.1,
    ensures
        forall|fields: Seq<FieldView>| #[trigger]
            delivers_section(v, decoder, fields) ==> response_spec(v, None, decoder, waker).0
                == Ok::<RecvStep<Seq<FieldView>>, RecvFailure>(RecvStep::Ready(fields)),
{
    assert forall|fields: Seq<FieldView>| #[trigger]
        delivers_section(v, decoder, fields) implies response_spec(v, None, decoder, waker).0
        == Ok::<RecvStep<Seq<FieldView>>, RecvFailure>(RecvStep::Ready(fields)) by {
        let (section, rest) = choose|section: Seq<u8>, rest: Seq<u8>|
            {
                &&& #[trigger] between_frames(v.request.stream, spelled(0x1, section) + rest)
                &&& section.len() <= v.request.stream.decoder.max_field_section_size
                &&& section.len() <= MAX_VARINT
                &&& spelled(0x1, section).len() <= usize::MAX
                &&& section_says(
                    v.request.decode,
                    decoder,
                    v.request.max_field_section_size,
                    section,
                    fields,
                )
            };
        responses_are_received_whole(v, section, rest, fields, decoder, waker);
    }
}

/// A response is received with every field of its section: where the first frame is a HEADERS
/// frame and its section says these lines, they are what is given, all of them and in their
/// order. What follows the frame stays to be read, and the connection is not affected.
pub proof fn responses_are_received_whole<W>(
    v: RecvView<W>,
    section: Seq<u8>,
    rest: Seq<u8>,
    fields: Seq<FieldView>,
    decoder: Decoder,
    waker: W,
)
    requires
        between_frames(v.request.stream, spelled(0x1, section) + rest),
        section.len() <= v.request.stream.decoder.max_field_section_size,
        section.len() <= MAX_VARINT,
        spelled(0x1, section).len() <= usize::MAX,
        section_says(
            v.request.decode,
            decoder,
            v.request.max_field_section_size,
            section,
            fields,
        ),
        !v.events.1,
    ensures
        ({
            let (step, waiting, after) = response_spec(v, None, decoder, waker);
            &&& step == Ok::<RecvStep<Seq<FieldView>>, RecvFailure>(RecvStep::Ready(fields))
            &&& waiting is None
            &&& between_frames(after.request.stream, rest)
            &&& only_read(v.request.stream, after.request.stream)
            &&& after.request.trailers == v.request.trailers
            &&& after.request.max_field_section_size == v.request.max_field_section_size
            &&& after.request.send_grease_frame == v.request.send_grease_frame
            &&& after.shared == v.shared
        }),
{
    field_sections_are_found(v.request.stream, section, rest);
}

/// A response that waited for insertions is received with every field of its section once they
/// have come.
pub proof fn waiting_responses_are_received_whole<W>(
    v: RecvView<W>,
    section: Seq<u8>,
    fields: Seq<FieldView>,
    decoder: Decoder,
    waker: W,
)
    requires
        section_says(
            v.request.decode,
            decoder,
            v.request.max_field_section_size,
            section,
            fields,
        ),
        !v.events.1,
    ensures
        ({
            let (step, waiting, after) = response_spec(v, Some(section), decoder, waker);
            &&& step == Ok::<RecvStep<Seq<FieldView>>, RecvFailure>(RecvStep::Ready(fields))
            &&& waiting is None
            &&& after.request.stream == v.request.stream
            &&& after.request.trailers == v.request.trailers
            &&& after.shared == v.shared
        }),
{
}

/// A response whose section requires insertions that have not come waits, with all of the
/// section behind its prefix, and its stream is registered with what wakes its task.
pub proof fn responses_wait_for_insertions<W>(
    v: RecvView<W>,
    guard: DecoderGuard,
    section: Seq<u8>,
    required: usize,
    lines: Seq<u8>,
    decoder: Decoder,
    waker: W,
)
    requires
        v.request.decode == DecodeView::Dynamic(guard),
        guard.decoder.dynamic_table,
        guard.decoder.allows_blocking,
        guard.blocked is None,
        v.shared.connection_error is None,
        !v.events.1,
        section_prefix(
            decoder.table@.inserted(),
            decoder.max_table_capacity,
            guard.prefix,
            section,
        ) matches (Ok(prefix), rest) && prefix.required_ref == required && rest == lines,
        required > decoder.table@.inserted(),
        required > 0,
    ensures
        ({
            let (step, waiting, after) = response_spec(v, Some(section), decoder, waker);
            &&& step == Ok::<RecvStep<Seq<FieldView>>, RecvFailure>(RecvStep::Blocked)
            &&& waiting == Some(lines)
            &&& after.events.0 == v.events.0.push(
                QpackEvent::RegisterBlocked {
                    stream_id: guard.stream_id,
                    required_ref: required,
                    waker,
                },
            )
            &&& after.request.stream == v.request.stream
            &&& after.shared == v.shared
        }),
{
}

/// A response that is larger than permitted is refused with its size and the limit, and the
/// peer is to be asked to stop sending it.
pub proof fn large_responses_are_refused<W>(
    v: RecvView<W>,
    section: Seq<u8>,
    limit: usize,
    size: u64,
    decoder: Decoder,
    waker: W,
)
    requires
        v.request.decode == DecodeView::Stateless(limit),
        stateless_spec(limit, v.request.max_field_section_size, section).0 == Err::<
            crate::qpack::decoder::DecodedView,
            DecoderError,
        >(DecoderError::HeaderTooLong(size)),
    ensures
        ({
            let (step, waiting, after) = response_spec(v, Some(section), decoder, waker);
            &&& step matches Err(failure)
            &&& failure.error == StreamError::HeaderTooBig {
                actual_size: size,
                max_size: v.request.max_field_section_size,
            }
            &&& failure.stop == Some(Code::H3_REQUEST_CANCELLED)
            &&& waiting is None
        }),
        trailers_spec(
            RecvView {
                request: RequestView {
                    trailers: Some(section),
                    stream: StreamView { eos: true, chunks: Seq::empty(), ..v.request.stream },
                    ..v.request
                },
                ..v
            },
            decoder,
            waker,
        ).0 == Err::<RecvStep<Option<Seq<FieldView>>>, StreamError>(
            StreamError::HeaderTooBig {
                actual_size: size,
                max_size: v.request.max_field_section_size,
            },
        ),
{
}

/// Trailers are received with every field of their section, where they are the last frame of
/// the stream.
pub proof fn trailers_are_received_whole<W>(
    v: RecvView<W>,
    section: Seq<u8>,
    fields: Seq<FieldView>,
    decoder: Decoder,
    waker: W,
)
    requires
        v.request.trailers is None,
        between_frames(v.request.stream, spelled(0x1, section)),
        v.request.stream.eos,
        section.len() <= v.request.stream.decoder.max_field_section_size,
        section.len() <= MAX_VARINT,
        spelled(0x1, section).len() <= usize::MAX,
        section_says(
            v.request.decode,
            decoder,
            v.request.max_field_section_size,
            section,
            fields,
        ),
        !v.events.1,
    ensures
        ({
            let (step, after) = trailers_spec(v, decoder, waker);
            &&& step == Ok::<RecvStep<Option<Seq<FieldView>>>, StreamError>(
                RecvStep::Ready(Some(fields)),
            )
            &&& after.request.trailers is None
            &&& between_frames(after.request.stream, Seq::<u8>::empty())
            &&& after.shared == v.shared
        }),
        ({
            let (step, after) = data_frame_spec(v);
            &&& step == Ok::<RecvStep<bool>, StreamError>(RecvStep::Ready(false))
            &&& after.request.trailers == Some(section)
            &&& after.request.decode == v.request.decode
            &&& after.shared == v.shared
            &&& after.events == v.events
            &&& trailers_spec(after, decoder, waker).0 == Ok::<
                RecvStep<Option<Seq<FieldView>>>,
                StreamError,
            >(RecvStep::Ready(Some(fields)))
        }),
{
    assert(spelled(0x1, section) + Seq::<u8>::empty() =~= spelled(0x1, section));
    field_sections_are_found(v.request.stream, section, Seq::empty());
}

/// A message that ends without trailers has none.
pub proof fn messages_may_have_no_trailers<W>(v: RecvView<W>, decoder: Decoder, waker: W)
    requires
        v.request.trailers is None,
        between_frames(v.request.stream, Seq::<u8>::empty()),
        v.request.stream.eos,
    ensures
        trailers_spec(v, decoder, waker).0 == Ok::<RecvStep<Option<Seq<FieldView>>>, StreamError>(
            RecvStep::Ready(None),
        ),
        data_frame_spec(v).0 == Ok::<RecvStep<bool>, StreamError>(RecvStep::Ready(false)),
{
    streams_end_between_frames(v.request.stream, Seq::empty());
}

/// Content is told of where a DATA frame comes next, and all of its payload is then to be read.
pub proof fn content_is_told_of<W>(v: RecvView<W>, data: Seq<u8>, rest: Seq<u8>)
    requires
        between_frames(v.request.stream, spelled(0x0, data) + rest),
        data.len() <= MAX_VARINT,
        spelled(0x0, data).len() <= usize::MAX,
    ensures
        ({
            let (step, after) = data_frame_spec(v);
            &&& step == Ok::<RecvStep<bool>, StreamError>(RecvStep::Ready(true))
            &&& joined(after.request.stream.chunks) == data + rest
            &&& after.request.stream.remaining_data == data.len()
            &&& !after.request.stream.data_until_eos
            &&& after.request.stream.eos == v.request.stream.eos
            &&& after.request.trailers == v.request.trailers
            &&& after.request.decode == v.request.decode
            &&& after.shared == v.shared
            &&& after.events == v.events
        }),
{
    contents_are_found(v.request.stream, data, rest);
}

/// A piece of content is exactly the bytes that are taken off the stream for it.
pub proof fn content_is_taken_as_it_is<W>(v: RecvView<W>)
    ensures
        ({
            let (step, after) = payload_spec(v);
            &&& step matches Ok(RecvStep::Ready(Some(data))) ==> {
                &&& data + joined(after.request.stream.chunks) == joined(v.request.stream.chunks)
                &&& data.len() <= v.request.stream.remaining_data
                &&& !v.request.stream.data_until_eos ==> data.len()
                    + after.request.stream.remaining_data == v.request.stream.remaining_data
            }
            &&& step is Ok && !(step matches Ok(RecvStep::Ready(Some(_)))) ==> joined(
                after.request.stream.chunks,
            ) == joined(v.request.stream.chunks)
            &&& step is Ok ==> {
                &&& after.request.decode == v.request.decode
                &&& after.request.trailers == v.request.trailers
                &&& after.shared == v.shared
                &&& after.events == v.events
            }
        }),
{
    lemma_data_taken(v.request.stream);
}

/// Content goes on as long as there is some of it: where bytes have been delivered a piece is
/// given, which is not empty, where all was given the content is over, and where nothing has
/// been delivered more has to be read. A piece is all of the first chunk, as far as it belongs to
/// the content and is not longer than permitted.
pub proof fn content_goes_on<W>(v: RecvView<W>, max_len: usize)
    requires
        forall|i: int|
            0 <= i < v.request.stream.chunks.len() ==> (#[trigger] v.request.stream.chunks[i]).len()
                > 0,
    ensures
        ({
            let stream = v.request.stream;
            let step = payload_spec(v).0;
            let part = poll_data_chunk_spec(stream, max_len).0;
            &&& stream.remaining_data == 0 ==> step == Ok::<
                RecvStep<Option<Seq<u8>>>,
                StreamError,
            >(RecvStep::Ready(None)) && part == Ok::<Poll<Option<Seq<u8>>>, FrameStreamError>(
                Poll::Ready(None),
            )
            &&& stream.remaining_data > 0 && joined(stream.chunks).len() > 0 && !stream.eos ==> {
                &&& step matches Ok(RecvStep::Ready(Some(data))) && data.len() > 0
                &&& max_len > 0 ==> (part matches Ok(Poll::Ready(Some(data))) && 0 < data.len()
                    <= max_len)
                &&& step matches Ok(RecvStep::Ready(Some(data))) && (data == stream.chunks[0]
                    || data.len() == stream.remaining_data)
                &&& part matches Ok(Poll::Ready(Some(data))) && (data == stream.chunks[0]
                    || data.len() == stream.remaining_data || data.len() == max_len)
            }
            &&& stream.remaining_data > 0 && joined(stream.chunks).len() >= stream.remaining_data
                ==> (step matches Ok(RecvStep::Ready(Some(data))) && data.len() > 0)
            &&& stream.remaining_data > 0 && joined(stream.chunks).len() == 0 && !stream.eos
                ==> step == Ok::<RecvStep<Option<Seq<u8>>>, StreamError>(RecvStep::Read) && part
                == Ok::<Poll<Option<Seq<u8>>>, FrameStreamError>(Poll::Pending)
        }),
{
    let chunks = v.request.stream.chunks;
    if chunks.len() > 0 {
        assert(chunks[0].len() > 0);
        lemma_data_taken(v.request.stream);
        if v.request.stream.remaining_data > 0 {
            let data = crate::buf_list::chunk_taken(chunks, v.request.stream.remaining_data);
            lemma_skipped_joined(chunks, data.len());
        }
    }
}

/// The view of a stream that the transport had something to say to.
pub open spec fn with_delivery<W>(v: RecvView<W>, arrival: Arrival) -> RecvView<W> {
    RecvView {
        request: RequestView { stream: with_arrival(v.request.stream, arrival), ..v.request },
        ..v
    }
}

/// Reading content to its end, with one look at the transport before each step: the pieces,
/// one after the other, and how it ended, where it has.
pub open spec fn content_run<W>(v: RecvView<W>, arrivals: Seq<Arrival>) -> (
    Seq<u8>,
    Option<Result<(), StreamError>>,
)
    decreases arrivals.len(),
{
    if arrivals.len() == 0 {
        (Seq::empty(), None)
    } else {
        let (step, after) = payload_spec(with_delivery(v, arrivals[0]));
        match step {
            Err(error) => (Seq::empty(), Some(Err(error))),
            Ok(RecvStep::Ready(None)) => (Seq::empty(), Some(Ok(()))),
            Ok(RecvStep::Ready(Some(data))) => {
                let (rest, end) = content_run(after, arrivals.skip(1));
                (data + rest, end)
            },
            _ => content_run(after, arrivals.skip(1)),
        }
    }
}

proof fn lemma_content_run<W>(v: RecvView<W>, arrivals: Seq<Arrival>)
    ensures
        content_run(v, arrivals).0 == payload_run(v.request.stream, arrivals).0,
        match payload_run(v.request.stream, arrivals).1 {
            None => content_run(v, arrivals).1 is None,
            Some(Ok(_)) => content_run(v, arrivals).1 == Some(Ok::<(), StreamError>(())),
            Some(Err(_)) => content_run(v, arrivals).1 matches Some(Err(_)),
        },
    decreases arrivals.len(),
{
    if arrivals.len() > 0 {
        let now = with_delivery(v, arrivals[0]);
        let (step, after) = payload_spec(now);
        if step is Ok {
            lemma_content_run(after, arrivals.skip(1));
        }
    }
}

/// The content of a DATA frame is received whole: the pieces, however the transport cuts it,
/// are one after the other the payload of the frame, and never more. That the content of the
/// frame has ended is told exactly when all of it was given, and that the stream ends before is
/// told as an error.
pub proof fn contents_are_received_whole<W>(
    v: RecvView<W>,
    data: Seq<u8>,
    rest: Seq<u8>,
    arrivals: Seq<Arrival>,
)
    requires
        v.request.stream.remaining_data == data.len(),
        !v.request.stream.data_until_eos,
        forall|i: int|
            0 <= i < v.request.stream.chunks.len() ==> (#[trigger] v.request.stream.chunks[i]).len()
                > 0,
        arrives_in_order(v.request.stream.eos, arrivals),
        joined(v.request.stream.chunks) + arrived(arrivals) == data + rest,
    ensures
        ({
            let (read, end) = content_run(v, arrivals);
            &&& read.len() <= data.len()
            &&& read == data.take(read.len() as int)
            &&& end matches Some(result) ==> result is Ok && read == data
        }),
{
    lemma_content_run(v, arrivals);
    payloads_are_read_whole(v.request.stream, arrivals);
    let (read, end) = content_run(v, arrivals);
    assert((data + rest).take(read.len() as int) =~= data.take(read.len() as int));
    assert(data.take(data.len() as int) =~= data);
}

/// Where the stream ends inside the payload of a DATA frame, what is read is what there was of
/// it, and the end is an error.
pub proof fn cut_contents_are_errors<W>(v: RecvView<W>, arrivals: Seq<Arrival>)
    requires
        !v.request.stream.data_until_eos,
        forall|i: int|
            0 <= i < v.request.stream.chunks.len() ==> (#[trigger] v.request.stream.chunks[i]).len()
                > 0,
        arrives_in_order(v.request.stream.eos, arrivals),
        (joined(v.request.stream.chunks) + arrived(arrivals)).len() < v.request.stream.remaining_data,
    ensures
        content_run(v, arrivals).1 matches Some(result) ==> result is Err,
{
    lemma_content_run(v, arrivals);
    payloads_are_read_whole(v.request.stream, arrivals);
}

/// A response that was sent without the dynamic table is received as it was sent, whatever its
/// status and however many fields it has: what a step gives are lines that make its status and
/// its fields, each of them, in their order.
pub proof fn responses_arrive_as_sent<W>(
    v: RecvView<W>,
    status: u16,
    ext: MessageExtensions,
    entries: Seq<(Seq<u8>, Seq<u8>, bool)>,
    rest: Seq<u8>,
    limit: usize,
    decoder: Decoder,
    waker: W,
)
    requires
        100 <= status <= 999,
        sendable(entries),
        v.request.decode == DecodeView::Stateless(limit),
        !v.events.1,
        ({
            let fields = section_fields(response_pseudo(status, ext), entries);
            let section = stateless_section(fields);
            &&& between_frames(v.request.stream, spelled(0x1, section) + rest)
            &&& section.len() <= v.request.stream.decoder.max_field_section_size
            &&& section.len() <= MAX_VARINT
            &&& section.len() <= limit
            &&& spelled(0x1, section).len() <= usize::MAX
            &&& lines_size(fields) <= v.request.max_field_section_size
        }),
    ensures
        ({
            let (step, waiting, after) = response_spec(v, None, decoder, waker);
            &&& step matches Ok(RecvStep::Ready(fields))
            &&& parsed_section(fields) matches Ok(header)
            &&& header.pseudo.status == Some(status)
            &&& header.fields == entries
            &&& waiting is None
            &&& between_frames(after.request.stream, rest)
            &&& after.shared == v.shared
        }),
{
    let fields = section_fields(response_pseudo(status, ext), entries);
    let section = stateless_section(fields);
    stateless_round_trip(fields, v.request.max_field_section_size, limit);
    responses_are_received_whole(v, section, rest, fields, decoder, waker);
    responses_are_received_as_sent(status, ext, entries);
}

/// A PUSH_PROMISE frame is found with its number and all of its field section.
#[verifier::spinoff_prover]
#[verifier::rlimit(40)]
pub proof fn pushes_are_found(v: StreamView, id: u64, section: Seq<u8>, rest: Seq<u8>)
    requires
        id <= MAX_VARINT,
        section.len() + 8 <= MAX_VARINT,
        section.len() + 32 <= usize::MAX,
        between_frames(v, spelled(0x5, varint::encode_spec(id) + section) + rest),
    ensures
        ({
            let (result, after) = poll_next_spec(v);
            &&& result == Ok::<Poll<Option<FrameView<PayloadLen>>>, FrameStreamError>(
                Poll::Ready(Some(FrameView::PushPromise(id, section))),
            )
            &&& between_frames(after, rest)
            &&& only_read(v, after)
        }),
{
    let payload = varint::encode_spec(id) + section;
    let frame: FrameView<Seq<u8>> = FrameView::PushPromise(id, section);
    let s = spelled(0x5, payload) + rest;
    varint::round_trip(id, Seq::empty());
    varint::round_trip(0x5, Seq::empty());
    varint::round_trip(payload.len() as u64, Seq::empty());
    frame_round_trip(frame, v.decoder.max_field_section_size, rest);
    let tail = varint::encode_spec(payload.len() as u64) + payload + rest;
    assert(s =~= varint::encode_spec(0x5) + tail);
    lemma_known(0x5, tail);
    assert(s.skip(s.len() - rest.len()) =~= rest);
    lemma_frame_found(v, frame, rest, rest);
}

/// The front of a WebTransport stream is found with its session, and all that follows on the
/// stream is to be read as it is, up to the end of the stream.
#[verifier::spinoff_prover]
#[verifier::rlimit(40)]
pub proof fn sessions_are_found(v: StreamView, id: u64, rest: Seq<u8>)
    requires
        id <= MAX_VARINT,
        between_frames(v, varint::encode_spec(0x41) + varint::encode_spec(id) + rest),
    ensures
        ({
            let (result, after) = poll_next_spec(v);
            &&& result == Ok::<Poll<Option<FrameView<PayloadLen>>>, FrameStreamError>(
                Poll::Ready(Some(FrameView::WebTransportStream(id))),
            )
            &&& joined(after.chunks) == rest
            &&& after.data_until_eos
            &&& after.remaining_data == usize::MAX
            &&& after.eos == v.eos
        }),
{
    let frame: FrameView<Seq<u8>> = FrameView::WebTransportStream(id);
    let s = varint::encode_spec(0x41) + varint::encode_spec(id) + rest;
    varint::round_trip(0x41, Seq::empty());
    varint::round_trip(id, Seq::empty());
    assert(frame_bytes(frame) == varint::encode_spec(0x41) + varint::encode_spec(id));
    frame_round_trip(frame, v.decoder.max_field_section_size, rest);
    assert(s =~= varint::encode_spec(0x41) + (varint::encode_spec(id) + rest));
    lemma_known(0x41, varint::encode_spec(id) + rest);
    assert(s.skip(s.len() - rest.len()) =~= rest);
    lemma_frame_found(v, frame, rest, rest);
}

/// A GOAWAY, CANCEL_PUSH or MAX_PUSH_ID frame with anything behind its number, or with no whole
/// number in it, is malformed.
///
/// See <https://www.rfc-editor.org/rfc/rfc9114.html#section-7.1>.
pub proof fn odd_numbers_are_errors(v: StreamView, ty: u64, payload: Seq<u8>, rest: Seq<u8>)
    requires
        ty == 0x3 || ty == 0x7 || ty == 0xd,
        payload.len() <= MAX_VARINT,
        payload.len() + 32 <= usize::MAX,
        varint::decode_spec(payload) is None || varint::decode_spec(payload)->Some_0.1.len() > 0,
        between_frames(v, spelled(ty, payload) + rest),
    ensures
        poll_next_spec(v).0 == Err::<Poll<Option<FrameView<PayloadLen>>>, FrameStreamError>(
            FrameStreamError::Proto(crate::frame::FrameProtocolError::Malformed),
        ),
{
    let len = payload.len() as u64;
    let s = spelled(ty, payload) + rest;
    let tail = payload + rest;
    assert(s =~= varint::encode_spec(ty) + (varint::encode_spec(len) + tail));
    varint::round_trip(ty, varint::encode_spec(len) + tail);
    varint::round_trip(len, tail);
    assert(tail.take(len as int) =~= payload);
    lemma_known(ty, varint::encode_spec(len) + tail);
}

proof fn lemma_number_cut(value: u64, tail: Seq<u8>, n: int)
    requires
        value <= MAX_VARINT,
        0 <= n <= (varint::encode_spec(value) + tail).len(),
    ensures
        ({
            let front = varint::encode_spec(value).len();
            let cut = (varint::encode_spec(value) + tail).take(n);
            &&& n < front ==> varint::decode_spec(cut) is None
            &&& n >= front ==> varint::decode_spec(cut) == Some((value, tail.take(n - front)))
        }),
{
    let s = varint::encode_spec(value) + tail;
    let cut = s.take(n);
    let more = s.skip(n);
    let front = varint::encode_spec(value).len() as int;
    assert(cut + more =~= s);
    varint::round_trip(value, tail);
    if n >= front {
        assert(cut =~= varint::encode_spec(value) + tail.take(n - front));
        varint::round_trip(value, tail.take(n - front));
    } else {
        varint::lemma_extends(cut, more);
    }
}

/// A frame of which not all has arrived is not given, and nothing of it is taken: where the
/// stream goes on more has to be read, and where it has ended that is an error.
#[verifier::spinoff_prover]
#[verifier::rlimit(40)]
pub proof fn partial_frames_are_awaited(v: StreamView, ty: u64, payload: Seq<u8>, n: int)
    requires
        ty == 0x1 || ty == 0x3 || ty == 0x4 || ty == 0x5 || ty == 0x7 || ty == 0xd,
        payload.len() <= MAX_VARINT,
        payload.len() + 32 <= usize::MAX,
        ty == 0x1 ==> payload.len() <= v.decoder.max_field_section_size,
        0 < n < spelled(ty, payload).len(),
        between_frames(v, spelled(ty, payload).take(n)),
    ensures
        ({
            let (result, after) = poll_next_spec(v);
            &&& result == if v.eos {
                Err::<Poll<Option<FrameView<PayloadLen>>>, FrameStreamError>(
                    FrameStreamError::UnexpectedEnd,
                )
            } else {
                Ok(Poll::Pending)
            }
            &&& joined(after.chunks) == joined(v.chunks)
            &&& after.remaining_data == 0
        }),
{
    let len = payload.len() as u64;
    let middle = varint::encode_spec(len) + payload;
    let all = spelled(ty, payload);
    assert(all =~= varint::encode_spec(ty) + middle);
    let s = all.take(n);
    varint::round_trip(ty, Seq::empty());
    varint::round_trip(len, Seq::empty());
    lemma_number_cut(ty, middle, n);
    let a = varint::encode_spec(ty).len() as int;
    if n >= a {
        lemma_number_cut(len, payload, n - a);
    }
    assert(frame_spec(s, v.decoder.max_field_section_size) matches Err(FrameError::Incomplete(_)));
    lemma_skipped_joined(v.chunks, 0);
}

/// A response is received however its peer chose to write it: where its section is these
/// lines, each by index, with an indexed name or as it is, Huffman coded or not, what a step
/// gives are the lines that are meant, all of them and in their order.
pub proof fn written_responses_are_received<W>(
    v: RecvView<W>,
    table: TableView,
    lines: Seq<Line>,
    rest: Seq<u8>,
    limit: usize,
    decoder: Decoder,
    waker: W,
)
    requires
        v.request.decode == DecodeView::Stateless(limit),
        !v.events.1,
        0 <= table.dropped,
        lines_readable(table, 0, limit, lines),
        forall|i: int| 0 <= i < lines.len() ==> !is_dynamic(#[trigger] lines[i]),
        lines_size(meanings(table, lines)) <= v.request.max_field_section_size,
        ({
            let section = seq![0u8, 0u8] + lines_bytes(0, lines);
            &&& between_frames(v.request.stream, spelled(0x1, section) + rest)
            &&& section.len() <= v.request.stream.decoder.max_field_section_size
            &&& section.len() <= MAX_VARINT
            &&& spelled(0x1, section).len() <= usize::MAX
        }),
    ensures
        ({
            let (step, waiting, after) = response_spec(v, None, decoder, waker);
            &&& step matches Ok(RecvStep::Ready(fields))
            &&& fields.len() == lines.len()
            &&& forall|i: int|
                0 <= i < lines.len() ==> #[trigger] fields[i] == line_meaning(table, lines[i])
            &&& waiting is None
            &&& between_frames(after.request.stream, rest)
            &&& after.shared == v.shared
        }),
{
    let section = seq![0u8, 0u8] + lines_bytes(0, lines);
    stateless_sections_are_read(table, limit, v.request.max_field_section_size, lines);
    responses_are_received_whole(v, section, rest, meanings(table, lines), decoder, waker);
}

/// Content that comes where a response has to begin, or after its trailers, fails the
/// connection.
///
/// See <https://www.rfc-editor.org/rfc/rfc9114.html#section-4.1>.
pub proof fn content_is_an_error_out_of_place<W>(
    v: RecvView<W>,
    data: Seq<u8>,
    rest: Seq<u8>,
    decoder: Decoder,
    waker: W,
)
    requires
        between_frames(v.request.stream, spelled(0x0, data) + rest),
        data.len() <= MAX_VARINT,
        spelled(0x0, data).len() <= usize::MAX,
        v.shared.connection_error is None,
    ensures
        ({
            let (step, waiting, after) = response_spec(v, None, decoder, waker);
            &&& step matches Err(failure)
            &&& failure.error matches StreamError::ConnectionError(ErrorOrigin::Internal(error))
            &&& error.code == Code::H3_FRAME_UNEXPECTED
            &&& after.shared.connection_error == Some(ErrorOrigin::Internal(error))
        }),
        ({
            let (step, after) = nothing_follows(v);
            &&& step matches Err(StreamError::ConnectionError(ErrorOrigin::Internal(error)))
            &&& error.code == Code::H3_FRAME_UNEXPECTED
            &&& after.shared.connection_error == Some(ErrorOrigin::Internal(error))
        }),
{
    contents_are_found(v.request.stream, data, rest);
}

/// A response that never comes, since its stream ended, fails the connection; one that has not
/// come yet is waited for.
pub proof fn missing_responses_are_errors<W>(v: RecvView<W>, decoder: Decoder, waker: W)
    requires
        between_frames(v.request.stream, Seq::<u8>::empty()),
        v.shared.connection_error is None,
    ensures
        ({
            let (step, waiting, after) = response_spec(v, None, decoder, waker);
            if v.request.stream.eos {
                &&& step matches Err(failure)
                &&& failure.error matches StreamError::ConnectionError(ErrorOrigin::Internal(error))
                &&& error.code == Code::H3_FRAME_UNEXPECTED
            } else {
                &&& step == Ok::<RecvStep<Seq<FieldView>>, RecvFailure>(RecvStep::Read)
                &&& after.shared == v.shared
            }
        }),
{
    streams_end_between_frames(v.request.stream, Seq::empty());
}

} // verus!
