//! The messages of a request's stream.
//!
//! Each step works on what the stream has delivered. Where it asks for more to be read, the
//! caller reads from the transport, hands over what came, and takes the step again; where it
//! is blocked, the task is woken when the insertions have come. Where a step has queued events
//! the caller lets the driver run.
use http::{HeaderMap, HeaderValue};
use vstd::prelude::*;
use crate::buf_list::joined;
use crate::delivery::{delivered_sections_are_received, delivers_section};
use crate::error::{
    detailed_error, internal_error, Code, Detail, ErrorOrigin, InternalConnectionError,
    StreamError,
};
use crate::frame::{
    lemma_data_taken, poll_data_spec, poll_next_spec, unread_stream, FrameDecoder, FrameStream, FrameStreamError, Poll,
    StreamView,
};
use crate::proto::fields::header_entries;
use crate::proto::frame::{
    frame_bytes, frame_round_trip, frame_spec, put_frame, summary_of, Frame, FrameError,
    FrameSummary, FrameView, PayloadLen, HEADERS,
};
use crate::proto::headers::{
    no_pseudo, overfull, parsed_section, pseudo_field, readable, section_fields, section_is_received_as_sent,
    sendable, Header, HeaderError, HeaderErrorView, HeaderView,
    PseudoView,
};
use crate::proto::pseudo::{PseudoHeaderSensitivity, PseudoId};
use crate::qpack::decoder::{
    stateless_spec, views, Decoded, DecodedView, Decoder, DecoderError,
};
use crate::qpack::dynamic::lines_size;
use crate::qpack::encoder::{encode_stateless, stateless_section};
use crate::qpack::field::{FieldView, HeaderField, ENTRY_OVERHEAD};
use crate::qpack::laws::{lines_encodable, stateless_round_trip};
use crate::qpack::shared::{EventQueue, QpackDecoder};
use crate::quic::MAX_VARINT;
use crate::request::{
    abandoned, finished, fresh_decode, section_outcome, DecodeView, Events, RequestDecodeState,
};
use crate::shared_state::{failed, frame_failure, standing, SharedState};

verus! {

/// What a step of receiving came to.
#[derive(Debug, PartialEq, Eq)]
pub enum RecvStep<T> {
    Ready(T),
    /// More has to be read from the transport.
    Read,
    /// A field section waits for insertions.
    Blocked,
}

/// Why receiving failed, and the code with which the peer is asked to stop sending, where it
/// is.
#[derive(Debug, PartialEq, Eq)]
pub struct RecvFailure {
    pub error: StreamError,
    pub stop: Option<Code>,
    /// What is wrong with the fields, where the reason speaks of it.
    pub cause: Option<HeaderError>,
}

/// A failure that no fields caused.
pub open spec fn failure_of(error: StreamError, stop: Option<Code>) -> RecvFailure {
    RecvFailure { error, stop, cause: None }
}

impl RecvFailure {
    pub fn new(error: StreamError, stop: Option<Code>) -> (failure: Self)
        ensures
            failure == failure_of(error, stop),
    {
        RecvFailure { error, stop, cause: None }
    }
}

/// A request's stream.
pub struct RequestStream {
    pub stream: FrameStream,
    /// Trailers that have arrived and were not decoded.
    pub trailers: Option<Vec<u8>>,
    /// The largest field section that is accepted.
    pub max_field_section_size: u64,
    pub send_grease_frame: bool,
    pub decode_state: RequestDecodeState,
}

/// The state of a request's stream.
#[verifier::ext_equal]
pub struct RequestView {
    pub stream: StreamView,
    pub trailers: Option<Seq<u8>>,
    pub max_field_section_size: u64,
    pub send_grease_frame: bool,
    pub decode: DecodeView,
}

/// Bytes that may be there.
pub open spec fn held_bytes(bytes: Option<Vec<u8>>) -> Option<Seq<u8>> {
    match bytes {
        Some(bytes) => Some(bytes@),
        None => None,
    }
}

impl View for RequestStream {
    type V = RequestView;

    open spec fn view(&self) -> RequestView {
        RequestView {
            stream: self.stream@,
            trailers: held_bytes(self.trailers),
            max_field_section_size: self.max_field_section_size,
            send_grease_frame: self.send_grease_frame,
            decode: self.decode_state@,
        }
    }
}

/// What a step of receiving changes.
pub struct RecvView<W> {
    pub request: RequestView,
    pub shared: SharedState,
    pub events: Events<W>,
}

/// Abandoning the field sections of a stream.
pub open spec fn cancel_decode<W>(state: DecodeView, events: Events<W>) -> (DecodeView, Events<W>) {
    match state {
        DecodeView::Dynamic(guard) => {
            let (guard, events, _) = abandoned(guard, events);
            (DecodeView::Dynamic(guard), events)
        },
        _ => (state, events),
    }
}

/// Having read the field sections of a stream.
pub open spec fn finish_decode<W>(state: DecodeView, events: Events<W>) -> (DecodeView, Events<W>) {
    match state {
        DecodeView::Dynamic(guard) => {
            let (guard, events) = finished(guard, events);
            (DecodeView::Dynamic(guard), events)
        },
        _ => (state, events),
    }
}

/// The stream when its field sections are abandoned.
pub open spec fn cancelled<W>(v: RecvView<W>) -> RecvView<W> {
    let (decode, events) = cancel_decode(v.request.decode, v.events);
    RecvView { request: RequestView { decode, ..v.request }, events, ..v }
}

/// The stream when it was read to its end.
pub open spec fn read_out<W>(v: RecvView<W>) -> RecvView<W> {
    let (decode, events) = finish_decode(v.request.decode, v.events);
    RecvView { request: RequestView { decode, ..v.request }, events, ..v }
}

/// What a failure to read frames comes to: the field sections are abandoned.
pub open spec fn receive_failed<W>(v: RecvView<W>, error: FrameStreamError) -> (
    StreamError,
    RecvView<W>,
) {
    let after = cancelled(v);
    let (told, shared) = frame_failure(after.shared, error);
    (told, RecvView { shared, ..after })
}

/// What an error of the connection on this stream comes to.
pub open spec fn connection_failed<W>(v: RecvView<W>, error: InternalConnectionError) -> (
    StreamError,
    RecvView<W>,
) {
    let origin = ErrorOrigin::Internal(error);
    (
        StreamError::ConnectionError(standing(v.shared, origin)),
        RecvView { shared: failed(v.shared, origin), ..v },
    )
}

/// What it means that a frame is not permitted where it stands.
pub open spec fn unexpected_frame(frame: FrameSummary) -> InternalConnectionError {
    detailed_error(Code::H3_FRAME_UNEXPECTED, "unexpected frame: {}", Detail::Frame(frame))
}

/// What it means that a field section cannot be decoded.
pub open spec fn undecodable(error: DecoderError, message: &'static str) -> InternalConnectionError {
    detailed_error(section_code(error), message, Detail::Decoder(error))
}

/// The stream after its frame stream took a step.
pub open spec fn with_stream<W>(v: RecvView<W>, stream: StreamView) -> RecvView<W> {
    RecvView { request: RequestView { stream, ..v.request }, ..v }
}

/// Looking for payload: whether there is some to read.
///
/// See <https://www.rfc-editor.org/rfc/rfc9114.html#section-4.1>.
pub open spec fn data_frame_spec<W>(v: RecvView<W>) -> (
    Result<RecvStep<bool>, StreamError>,
    RecvView<W>,
) {
    if v.request.stream.remaining_data != 0 {
        (Ok(RecvStep::Ready(true)), v)
    } else {
        let (next, stream) = poll_next_spec(v.request.stream);
        let v = with_stream(v, stream);
        match next {
            Err(error) => {
                let (told, after) = receive_failed(v, error);
                (Err(told), after)
            },
            Ok(Poll::Pending) => (Ok(RecvStep::Read), v),
            Ok(Poll::Ready(None)) => (Ok(RecvStep::Ready(false)), read_out(v)),
            Ok(Poll::Ready(Some(FrameView::Headers(encoded)))) => (
                Ok(RecvStep::Ready(false)),
                RecvView { request: RequestView { trailers: Some(encoded), ..v.request }, ..v },
            ),
            Ok(Poll::Ready(Some(FrameView::Data(_)))) => (Ok(RecvStep::Ready(true)), v),
            Ok(Poll::Ready(Some(frame))) => {
                let (told, after) = connection_failed(v, unexpected_frame(summary_of(frame)));
                (Err(told), after)
            },
        }
    }
}

/// Reading payload.
pub open spec fn payload_spec<W>(v: RecvView<W>) -> (
    Result<RecvStep<Option<Seq<u8>>>, StreamError>,
    RecvView<W>,
) {
    let (data, stream) = poll_data_spec(v.request.stream);
    let v = with_stream(v, stream);
    match data {
        Err(error) => {
            let (told, after) = receive_failed(v, error);
            (Err(told), after)
        },
        Ok(Poll::Pending) => (Ok(RecvStep::Read), v),
        Ok(Poll::Ready(data)) => (Ok(RecvStep::Ready(data)), v),
    }
}

/// Looking for trailers: those that have arrived, or none where the stream has ended.
pub open spec fn trailers_source<W>(v: RecvView<W>) -> (
    Result<RecvStep<Option<Seq<u8>>>, StreamError>,
    RecvView<W>,
) {
    match v.request.trailers {
        Some(encoded) => (
            Ok(RecvStep::Ready(Some(encoded))),
            RecvView { request: RequestView { trailers: None, ..v.request }, ..v },
        ),
        None => {
            let (next, stream) = poll_next_spec(v.request.stream);
            let v = with_stream(v, stream);
            match next {
                Err(error) => {
                    let (told, after) = receive_failed(v, error);
                    (Err(told), after)
                },
                Ok(Poll::Pending) => (Ok(RecvStep::Read), v),
                Ok(Poll::Ready(None)) => (Ok(RecvStep::Ready(None)), read_out(v)),
                Ok(Poll::Ready(Some(FrameView::Headers(encoded)))) => (
                    Ok(RecvStep::Ready(Some(encoded))),
                    v,
                ),
                Ok(Poll::Ready(Some(frame))) => {
                    let (told, after) = connection_failed(v, unexpected_frame(summary_of(frame)));
                    (Err(told), after)
                },
            }
        },
    }
}

/// Whether a stream has ended and everything was read.
pub open spec fn at_end(stream: StreamView) -> bool {
    stream.eos && crate::buf_list::joined(stream.chunks).len() == 0
}

/// Making sure that nothing with a meaning follows the trailers.
pub open spec fn nothing_follows<W>(v: RecvView<W>) -> (
    Result<RecvStep<()>, StreamError>,
    RecvView<W>,
) {
    if at_end(v.request.stream) {
        (Ok(RecvStep::Ready(())), v)
    } else {
        let (next, stream) = poll_next_spec(v.request.stream);
        let v = with_stream(v, stream);
        match next {
            Err(error) => {
                let (told, after) = receive_failed(v, error);
                (Err(told), after)
            },
            Ok(Poll::Pending) => (Ok(RecvStep::Read), v),
            Ok(Poll::Ready(None)) => (Ok(RecvStep::Ready(())), v),
            Ok(Poll::Ready(Some(frame))) => {
                let (told, after) = connection_failed(v, unexpected_frame(summary_of(frame)));
                (Err(told), after)
            },
        }
    }
}

/// Decoding a field section of the stream.
pub open spec fn decode_spec<W>(v: RecvView<W>, decoder: Decoder, section: Seq<u8>, waker: W) -> (
    Poll<Result<DecodedView, DecoderError>>,
    Seq<u8>,
    RecvView<W>,
) {
    let outcome = section_outcome(
        v.request.decode,
        decoder,
        section,
        v.request.max_field_section_size,
        at_end(v.request.stream),
        v.shared.connection_error is Some,
        waker,
        v.events,
    );
    (
        outcome.result,
        outcome.rest,
        RecvView {
            request: RequestView { decode: outcome.state, ..v.request },
            events: outcome.events,
            ..v
        },
    )
}

/// The code of an error in a field section.
pub open spec fn section_code(error: DecoderError) -> Code {
    if error is Internal {
        Code::H3_INTERNAL_ERROR
    } else {
        Code::QPACK_DECOMPRESSION_FAILED
    }
}

/// The trailers of a message as they were decoded.
pub open spec fn trailers_spec<W>(v: RecvView<W>, decoder: Decoder, waker: W) -> (
    Result<RecvStep<Option<Seq<FieldView>>>, StreamError>,
    RecvView<W>,
) {
    let (source, v) = trailers_source(v);
    match source {
        Err(error) => (Err(error), v),
        Ok(RecvStep::Read) => (Ok(RecvStep::Read), v),
        Ok(RecvStep::Blocked) => (Ok(RecvStep::Blocked), v),
        Ok(RecvStep::Ready(None)) => (Ok(RecvStep::Ready(None)), v),
        Ok(RecvStep::Ready(Some(encoded))) => {
            let (following, v) = nothing_follows(v);
            match following {
                Err(error) => (Err(error), v),
                Ok(RecvStep::Read) => (
                    Ok(RecvStep::Read),
                    RecvView { request: RequestView { trailers: Some(encoded), ..v.request }, ..v },
                ),
                Ok(RecvStep::Blocked) => (Ok(RecvStep::Blocked), v),
                Ok(RecvStep::Ready(_)) => {
                    let (decoded, rest, v) = decode_spec(v, decoder, encoded, waker);
                    match decoded {
                        Poll::Pending => (
                            Ok(RecvStep::Blocked),
                            RecvView {
                                request: RequestView { trailers: Some(rest), ..v.request },
                                ..v
                            },
                        ),
                        Poll::Ready(Ok(decoded)) => (
                            Ok(RecvStep::Ready(Some(decoded.fields))),
                            v,
                        ),
                        Poll::Ready(Err(DecoderError::HeaderTooLong(size))) => (
                            Err(
                                StreamError::HeaderTooBig {
                                    actual_size: size,
                                    max_size: v.request.max_field_section_size,
                                },
                            ),
                            cancelled(v),
                        ),
                        Poll::Ready(Err(error)) => {
                            let (told, after) = connection_failed(
                                v,
                                undecodable(error, "failed to decode trailers: {}"),
                            );
                            (Err(told), after)
                        },
                    }
                },
            }
        },
    }
}

/// The header section of a response as it was decoded. `response` holds one that waits.
pub open spec fn response_spec<W>(
    v: RecvView<W>,
    response: Option<Seq<u8>>,
    decoder: Decoder,
    waker: W,
) -> (Result<RecvStep<Seq<FieldView>>, RecvFailure>, Option<Seq<u8>>, RecvView<W>) {
    let (source, v) = response_source(v, response);
    match source {
        Err(error) => (Err(failure_of(error, None)), None, v),
        Ok(RecvStep::Read) => (Ok(RecvStep::Read), None, v),
        Ok(RecvStep::Blocked) => (Ok(RecvStep::Blocked), None, v),
        Ok(RecvStep::Ready(encoded)) => {
            let (decoded, rest, v) = decode_spec(v, decoder, encoded, waker);
            match decoded {
                Poll::Pending => (Ok(RecvStep::Blocked), Some(rest), v),
                Poll::Ready(Ok(decoded)) => (Ok(RecvStep::Ready(decoded.fields)), None, v),
                Poll::Ready(Err(DecoderError::HeaderTooLong(size))) => (
                    Err(
                        failure_of(
                            StreamError::HeaderTooBig {
                                actual_size: size,
                                max_size: v.request.max_field_section_size,
                            },
                            Some(Code::H3_REQUEST_CANCELLED),
                        ),
                    ),
                    None,
                    cancelled(v),
                ),
                Poll::Ready(Err(error)) => {
                    let (told, after) = connection_failed(
                        v,
                        undecodable(error, "failed to decode response headers: {}"),
                    );
                    (Err(failure_of(told, None)), None, after)
                },
            }
        },
    }
}

/// Looking for the header section of a response, which comes first.
pub open spec fn response_source<W>(v: RecvView<W>, response: Option<Seq<u8>>) -> (
    Result<RecvStep<Seq<u8>>, StreamError>,
    RecvView<W>,
) {
    match response {
        Some(encoded) => (Ok(RecvStep::Ready(encoded)), v),
        None => {
            let (next, stream) = poll_next_spec(v.request.stream);
            let v = with_stream(v, stream);
            match next {
                Err(error) => {
                    let (told, after) = receive_failed(v, error);
                    (Err(told), after)
                },
                Ok(Poll::Pending) => (Ok(RecvStep::Read), v),
                Ok(Poll::Ready(None)) => {
                    let (told, after) = connection_failed(
                        v,
                        internal_error(
                            Code::H3_FRAME_UNEXPECTED,
                            "Stream finished without receiving response headers",
                        ),
                    );
                    (Err(told), after)
                },
                Ok(Poll::Ready(Some(FrameView::Headers(encoded)))) => (
                    Ok(RecvStep::Ready(encoded)),
                    v,
                ),
                Ok(Poll::Ready(Some(_))) => {
                    let (told, after) = connection_failed(
                        v,
                        internal_error(
                            Code::H3_FRAME_UNEXPECTED,
                            "First response frame is not headers",
                        ),
                    );
                    (Err(told), after)
                },
            }
        },
    }
}

/// What a step works on.
pub open spec fn recv_view<W>(
    request: RequestStream,
    shared: SharedState,
    events: EventQueue<W>,
) -> RecvView<W> {
    RecvView { request: request@, shared, events: events@ }
}

/// A step with the view of bytes that it gives.
pub open spec fn viewed_bytes(step: Result<RecvStep<Option<Vec<u8>>>, StreamError>) -> Result<
    RecvStep<Option<Seq<u8>>>,
    StreamError,
> {
    match step {
        Ok(RecvStep::Ready(bytes)) => Ok(RecvStep::Ready(held_bytes(bytes))),
        Ok(RecvStep::Read) => Ok(RecvStep::Read),
        Ok(RecvStep::Blocked) => Ok(RecvStep::Blocked),
        Err(error) => Err(error),
    }
}

impl RequestStream {
    pub open spec fn wf(&self) -> bool {
        self.stream.wf()
    }

    pub fn new(
        stream: FrameStream,
        max_field_section_size: u64,
        max_qpack_decode_buffer_size: usize,
        grease: bool,
        decoder: Option<QpackDecoder>,
    ) -> (request: Self)
        requires
            stream.wf(),
        ensures
            request.wf(),
            request@ == (RequestView {
                stream: StreamView {
                    decoder: FrameDecoder {
                        max_field_section_size: max_qpack_decode_buffer_size,
                        ..stream@.decoder
                    },
                    ..stream@
                },
                trailers: None,
                max_field_section_size,
                send_grease_frame: grease,
                decode: fresh_decode(stream@.id, max_qpack_decode_buffer_size, decoder),
            }),
    {
        let mut stream = stream;
        stream.set_max_field_section_size(max_qpack_decode_buffer_size);
        let decode_state = RequestDecodeState::new(
            stream.id(),
            max_qpack_decode_buffer_size,
            decoder,
        );
        RequestStream {
            stream,
            trailers: None,
            max_field_section_size,
            send_grease_frame: grease,
            decode_state,
        }
    }

    /// Abandons the field sections of the stream.
    pub fn cancel_qpack_reading<W>(&mut self, events: &mut EventQueue<W>)
        requires
            old(self).wf(),
        ensures
            final(self).wf(),
            (final(self)@.decode, final(events)@) == cancel_decode(
                old(self)@.decode,
                old(events)@,
            ),
            final(self)@ == (RequestView { decode: final(self)@.decode, ..old(self)@ }),
    {
        self.decode_state.cancel_reading(events);
    }

    /// Takes a failure to read frames.
    pub fn handle_receive_stream_error<W>(
        &mut self,
        error: FrameStreamError,
        shared: &mut SharedState,
        events: &mut EventQueue<W>,
    ) -> (told: StreamError)
        requires
            old(self).wf(),
        ensures
            final(self).wf(),
            (told, recv_view(*final(self), *final(shared), *final(events))) == receive_failed(
                recv_view(*old(self), *old(shared), *old(events)),
                error,
            ),
    {
        self.cancel_qpack_reading(events);
        shared.handle_frame_stream_error_on_request_stream(error)
    }

    /// Looks for payload: whether there is some to read, before the trailers or the end.
    pub fn poll_recv_data<W>(&mut self, shared: &mut SharedState, events: &mut EventQueue<W>) -> (step: Result<
        RecvStep<bool>,
        StreamError,
    >)
        requires
            old(self).wf(),
        ensures
            final(self).wf(),
            (step, recv_view(*final(self), *final(shared), *final(events))) == data_frame_spec(
                recv_view(*old(self), *old(shared), *old(events)),
            ),
    {
        if self.stream.has_data() {
            return Ok(RecvStep::Ready(true));
        }
        match self.stream.poll_next() {
            Err(error) => Err(self.handle_receive_stream_error(error, shared, events)),
            Ok(Poll::Pending) => Ok(RecvStep::Read),
            Ok(Poll::Ready(None)) => {
                self.decode_state.finish_reading(events);
                Ok(RecvStep::Ready(false))
            },
            Ok(Poll::Ready(Some(Frame::Headers(encoded)))) => {
                // No more payload comes behind the trailers.
                self.trailers = Some(encoded);
                Ok(RecvStep::Ready(false))
            },
            Ok(Poll::Ready(Some(Frame::Data(_)))) => Ok(RecvStep::Ready(true)),
            Ok(Poll::Ready(Some(frame))) => Err(
                shared.handle_connection_error_on_stream(
                    InternalConnectionError::with_detail(
                        Code::H3_FRAME_UNEXPECTED,
                        "unexpected frame: {}",
                        Detail::Frame(frame.summary()),
                    ),
                ),
            ),
        }
    }

    /// Reads payload. The caller reads from the transport once before.
    pub fn poll_recv_payload<W>(&mut self, shared: &mut SharedState, events: &mut EventQueue<W>) -> (step:
        Result<RecvStep<Option<Vec<u8>>>, StreamError>)
        requires
            old(self).wf(),
        ensures
            final(self).wf(),
            (viewed_bytes(step), recv_view(*final(self), *final(shared), *final(events)))
                == payload_spec(recv_view(*old(self), *old(shared), *old(events))),
            step matches Ok(RecvStep::Ready(Some(data))) ==> data@ + joined(
                final(self)@.stream.chunks,
            ) == joined(old(self)@.stream.chunks),
            step is Ok && !(step matches Ok(RecvStep::Ready(Some(_)))) ==> joined(
                final(self)@.stream.chunks,
            ) == joined(old(self)@.stream.chunks),
    {
        proof {
            lemma_data_taken(self@.stream);
        }
        match self.stream.poll_data() {
            Err(error) => Err(self.handle_receive_stream_error(error, shared, events)),
            Ok(Poll::Pending) => Ok(RecvStep::Read),
            Ok(Poll::Ready(data)) => Ok(RecvStep::Ready(data)),
        }
    }

    /// Looks for trailers.
    fn find_trailers<W>(&mut self, shared: &mut SharedState, events: &mut EventQueue<W>) -> (step: Result<
        RecvStep<Option<Vec<u8>>>,
        StreamError,
    >)
        requires
            old(self).wf(),
        ensures
            final(self).wf(),
            (viewed_bytes(step), recv_view(*final(self), *final(shared), *final(events)))
                == trailers_source(recv_view(*old(self), *old(shared), *old(events))),
    {
        if let Some(encoded) = self.trailers.take() {
            return Ok(RecvStep::Ready(Some(encoded)));
        }
        match self.stream.poll_next() {
            Err(error) => Err(self.handle_receive_stream_error(error, shared, events)),
            Ok(Poll::Pending) => Ok(RecvStep::Read),
            Ok(Poll::Ready(None)) => {
                self.decode_state.finish_reading(events);
                Ok(RecvStep::Ready(None))
            },
            Ok(Poll::Ready(Some(Frame::Headers(encoded)))) => Ok(RecvStep::Ready(Some(encoded))),
            Ok(Poll::Ready(Some(frame))) => Err(
                shared.handle_connection_error_on_stream(
                    InternalConnectionError::with_detail(
                        Code::H3_FRAME_UNEXPECTED,
                        "unexpected frame: {}",
                        Detail::Frame(frame.summary()),
                    ),
                ),
            ),
        }
    }

    /// Makes sure that nothing with a meaning follows the trailers.
    fn check_nothing_follows<W>(&mut self, shared: &mut SharedState, events: &mut EventQueue<W>) -> (step:
        Result<RecvStep<()>, StreamError>)
        requires
            old(self).wf(),
        ensures
            final(self).wf(),
            (step, recv_view(*final(self), *final(shared), *final(events))) == nothing_follows(
                recv_view(*old(self), *old(shared), *old(events)),
            ),
    {
        if self.stream.is_eos() {
            return Ok(RecvStep::Ready(()));
        }
        match self.stream.poll_next() {
            Err(error) => Err(self.handle_receive_stream_error(error, shared, events)),
            Ok(Poll::Pending) => Ok(RecvStep::Read),
            Ok(Poll::Ready(None)) => Ok(RecvStep::Ready(())),
            Ok(Poll::Ready(Some(frame))) => Err(
                shared.handle_connection_error_on_stream(
                    InternalConnectionError::with_detail(
                        Code::H3_FRAME_UNEXPECTED,
                        "unexpected frame: {}",
                        Detail::Frame(frame.summary()),
                    ),
                ),
            ),
        }
    }

    /// Decodes a field section, of which `section` holds the bytes that were not read yet.
    pub fn poll_decode_field_section<W>(
        &mut self,
        decoder: &Decoder,
        section: &mut Vec<u8>,
        shared: &SharedState,
        waker: W,
        events: &mut EventQueue<W>,
    ) -> (step: Poll<Result<Decoded, DecoderError>>)
        requires
            old(self).wf(),
            decoder.wf(),
        ensures
            final(self).wf(),
            (
                crate::request::viewed_section(step),
                final(section)@,
                recv_view(*final(self), *shared, *final(events)),
            ) == decode_spec(
                recv_view(*old(self), *shared, *old(events)),
                *decoder,
                old(section)@,
                waker,
            ),
    {
        let is_eos: bool = self.stream.is_eos();
        let conn_failed: bool = shared.get_conn_error().is_some();
        let (step, _) = self.decode_state.poll_decode_field_section(
            decoder,
            section,
            self.max_field_section_size,
            is_eos,
            conn_failed,
            waker,
            events,
        );
        step
    }

    /// The trailers of a message, as they were decoded.
    pub fn poll_recv_trailer_fields<W>(
        &mut self,
        decoder: &Decoder,
        shared: &mut SharedState,
        waker: W,
        events: &mut EventQueue<W>,
    ) -> (step: Result<RecvStep<Option<Vec<HeaderField>>>, StreamError>)
        requires
            old(self).wf(),
            decoder.wf(),
        ensures
            final(self).wf(),
            (viewed_trailers(step), recv_view(*final(self), *final(shared), *final(events)))
                == trailers_spec(
                recv_view(*old(self), *old(shared), *old(events)),
                *decoder,
                waker,
            ),
    {
        let mut encoded = match self.find_trailers(shared, events) {
            Err(error) => return Err(error),
            Ok(RecvStep::Read) => return Ok(RecvStep::Read),
            Ok(RecvStep::Blocked) => return Ok(RecvStep::Blocked),
            Ok(RecvStep::Ready(None)) => return Ok(RecvStep::Ready(None)),
            Ok(RecvStep::Ready(Some(encoded))) => encoded,
        };
        match self.check_nothing_follows(shared, events) {
            Err(error) => return Err(error),
            Ok(RecvStep::Read) => {
                self.trailers = Some(encoded);
                return Ok(RecvStep::Read);
            },
            Ok(RecvStep::Blocked) => return Ok(RecvStep::Blocked),
            Ok(RecvStep::Ready(())) => {},
        }
        match self.poll_decode_field_section(decoder, &mut encoded, shared, waker, events) {
            Poll::Pending => {
                self.trailers = Some(encoded);
                Ok(RecvStep::Blocked)
            },
            Poll::Ready(Ok(decoded)) => Ok(RecvStep::Ready(Some(decoded.fields))),
            Poll::Ready(Err(DecoderError::HeaderTooLong(size))) => {
                self.cancel_qpack_reading(events);
                Err(
                    StreamError::HeaderTooBig {
                        actual_size: size,
                        max_size: self.max_field_section_size,
                    },
                )
            },
            Poll::Ready(Err(error)) => Err(
                section_failed(error, "failed to decode trailers: {}", shared),
            ),
        }
    }
}

/// Trailers with their views.
pub open spec fn viewed_trailers(
    step: Result<RecvStep<Option<Vec<HeaderField>>>, StreamError>,
) -> Result<RecvStep<Option<Seq<FieldView>>>, StreamError> {
    match step {
        Ok(RecvStep::Ready(Some(fields))) => Ok(
            RecvStep::Ready(Some(fields@.map_values(|field: HeaderField| field@))),
        ),
        Ok(RecvStep::Ready(None)) => Ok(RecvStep::Ready(None)),
        Ok(RecvStep::Read) => Ok(RecvStep::Read),
        Ok(RecvStep::Blocked) => Ok(RecvStep::Blocked),
        Err(error) => Err(error),
    }
}

/// What a message with fields that must not be sent comes to.
pub open spec fn malformed() -> RecvFailure {
    failure_of(
        StreamError::StreamError { code: Code::H3_MESSAGE_ERROR, reason: "malformed request" },
        Some(Code::H3_MESSAGE_ERROR),
    )
}

/// Whether fields are refused as a section for this.
pub open spec fn refused_for(fields: Seq<FieldView>, cause: HeaderErrorView) -> bool {
    if cause is TooManyFields {
        overfull(fields)
    } else {
        parsed_section(fields) == Err::<HeaderView, HeaderErrorView>(cause)
    }
}

/// Whether fields are refused as a response for this.
pub open spec fn no_response_for(fields: Seq<FieldView>, cause: HeaderErrorView) -> bool {
    refused_for(fields, cause) || (cause is MissingStatus && parsed_section(fields) is Ok
        && parsed_section(fields)->Ok_0.pseudo.status is None)
}

/// Whether a response was refused, for what is wrong with its fields.
pub open spec fn response_refused(failure: RecvFailure, fields: Seq<FieldView>) -> bool {
    &&& failure.error == StreamError::StreamError {
        code: Code::H3_MESSAGE_ERROR,
        reason: "rejected response headers: {}",
    }
    &&& failure.stop == Some(Code::H3_MESSAGE_ERROR)
    &&& failure.cause matches Some(cause)
    &&& no_response_for(fields, cause@)
}

/// Whether fields make no section, or may be too many for one.
pub open spec fn unacceptable(fields: Seq<FieldView>) -> bool {
    parsed_section(fields) is Err || overfull(fields)
}

/// Fails the connection, since a field section cannot be decoded.
pub fn section_failed(error: DecoderError, message: &'static str, shared: &mut SharedState) -> (told:
    StreamError)
    ensures
        ({
            let origin = ErrorOrigin::Internal(undecodable(error, message));
            &&& told == StreamError::ConnectionError(standing(*old(shared), origin))
            &&& *final(shared) == failed(*old(shared), origin)
        }),
{
    let code = if error.is_internal() {
        Code::H3_INTERNAL_ERROR
    } else {
        Code::QPACK_DECOMPRESSION_FAILED
    };
    shared.handle_connection_error_on_stream(
        InternalConnectionError::with_detail(code, message, Detail::Decoder(error)),
    )
}

impl RequestStream {
    /// The trailers of a message.
    pub fn poll_recv_trailers<W>(
        &mut self,
        decoder: &Decoder,
        shared: &mut SharedState,
        waker: W,
        events: &mut EventQueue<W>,
    ) -> (step: Result<RecvStep<Option<HeaderMap<HeaderValue>>>, RecvFailure>)
        requires
            old(self).wf(),
            decoder.wf(),
        ensures
            final(self).wf(),
            ({
                let (fields, after) = trailers_spec(
                    recv_view(*old(self), *old(shared), *old(events)),
                    *decoder,
                    waker,
                );
                let state = recv_view(*final(self), *final(shared), *final(events));
                match fields {
                    Err(error) => step == Err::<
                        RecvStep<Option<HeaderMap<HeaderValue>>>,
                        RecvFailure,
                    >(failure_of(error, None)) && state == after,
                    Ok(RecvStep::Read) => step == Ok::<
                        RecvStep<Option<HeaderMap<HeaderValue>>>,
                        RecvFailure,
                    >(RecvStep::Read) && state == after,
                    Ok(RecvStep::Blocked) => step == Ok::<
                        RecvStep<Option<HeaderMap<HeaderValue>>>,
                        RecvFailure,
                    >(RecvStep::Blocked) && state == after,
                    Ok(RecvStep::Ready(None)) => step == Ok::<
                        RecvStep<Option<HeaderMap<HeaderValue>>>,
                        RecvFailure,
                    >(RecvStep::Ready(None)) && state == after,
                    Ok(RecvStep::Ready(Some(fields))) => match step {
                        Ok(RecvStep::Ready(Some(map))) => parsed_section(fields) is Ok
                            && header_entries(map) == parsed_section(fields)->Ok_0.fields && state
                            == after,
                        Err(failure) => failure == malformed() && unacceptable(fields) && state
                            == cancelled(after),
                        _ => false,
                    },
                }
            }),
    {
        match self.poll_recv_trailer_fields(decoder, shared, waker, events) {
            Err(error) => Err(RecvFailure::new(error, None)),
            Ok(RecvStep::Read) => Ok(RecvStep::Read),
            Ok(RecvStep::Blocked) => Ok(RecvStep::Blocked),
            Ok(RecvStep::Ready(None)) => Ok(RecvStep::Ready(None)),
            Ok(RecvStep::Ready(Some(fields))) => match Header::try_from(fields) {
                Ok(header) => Ok(RecvStep::Ready(Some(header.into_fields()))),
                Err(_) => {
                    self.cancel_qpack_reading(events);
                    Err(
                        RecvFailure::new(
                            StreamError::StreamError {
                                code: Code::H3_MESSAGE_ERROR,
                                reason: "malformed request",
                            },
                            Some(Code::H3_MESSAGE_ERROR),
                        ),
                    )
                },
            },
        }
    }

    /// The header section of a response, as it was decoded. `response` holds one that waits.
    pub fn poll_recv_response_fields<W>(
        &mut self,
        response: &mut Option<Vec<u8>>,
        decoder: &Decoder,
        shared: &mut SharedState,
        waker: W,
        events: &mut EventQueue<W>,
    ) -> (step: Result<RecvStep<Vec<HeaderField>>, RecvFailure>)
        requires
            old(self).wf(),
            decoder.wf(),
        ensures
            final(self).wf(),
            (
                viewed_response(step),
                held_bytes(*final(response)),
                recv_view(*final(self), *final(shared), *final(events)),
            ) == response_spec(
                recv_view(*old(self), *old(shared), *old(events)),
                held_bytes(*old(response)),
                *decoder,
                waker,
            ),
            *old(response) is None && !old(events)@.1 ==> forall|fields: Seq<FieldView>| #[trigger]
                delivers_section(
                    recv_view(*old(self), *old(shared), *old(events)),
                    *decoder,
                    fields,
                ) ==> (step matches Ok(RecvStep::Ready(given)) && views(given@) == fields),
    {
        proof {
            if !events@.1 {
                delivered_sections_are_received(
                    recv_view(*self, *shared, *events),
                    *decoder,
                    waker,
                );
            }
        }
        let mut encoded = match response.take() {
            Some(encoded) => encoded,
            None => match self.stream.poll_next() {
                Err(error) => return Err(
                    RecvFailure::new(
                        self.handle_receive_stream_error(error, shared, events),
                        None,
                    ),
                ),
                Ok(Poll::Pending) => return Ok(RecvStep::Read),
                Ok(Poll::Ready(None)) => return Err(
                    RecvFailure::new(
                        shared.handle_connection_error_on_stream(
                            InternalConnectionError::new(
                                Code::H3_FRAME_UNEXPECTED,
                                "Stream finished without receiving response headers",
                            ),
                        ),
                        None,
                    ),
                ),
                Ok(Poll::Ready(Some(Frame::Headers(encoded)))) => encoded,
                Ok(Poll::Ready(Some(_))) => return Err(
                    RecvFailure::new(
                        shared.handle_connection_error_on_stream(
                            InternalConnectionError::new(
                                Code::H3_FRAME_UNEXPECTED,
                                "First response frame is not headers",
                            ),
                        ),
                        None,
                    ),
                ),
            },
        };
        match self.poll_decode_field_section(decoder, &mut encoded, shared, waker, events) {
            Poll::Pending => {
                *response = Some(encoded);
                Ok(RecvStep::Blocked)
            },
            Poll::Ready(Ok(decoded)) => Ok(RecvStep::Ready(decoded.fields)),
            Poll::Ready(Err(DecoderError::HeaderTooLong(size))) => {
                self.cancel_qpack_reading(events);
                Err(
                    RecvFailure::new(
                        StreamError::HeaderTooBig {
                            actual_size: size,
                            max_size: self.max_field_section_size,
                        },
                        Some(Code::H3_REQUEST_CANCELLED),
                    ),
                )
            },
            Poll::Ready(Err(error)) => Err(
                RecvFailure::new(
                    section_failed(error, "failed to decode response headers: {}", shared),
                    None,
                ),
            ),
        }
    }

    /// The header section of a response: its status, its fields, and which pseudo-header
    /// fields are sensitive.
    pub fn poll_recv_response<W>(
        &mut self,
        response: &mut Option<Vec<u8>>,
        decoder: &Decoder,
        shared: &mut SharedState,
        waker: W,
        events: &mut EventQueue<W>,
    ) -> (step: Result<
        RecvStep<(u16, HeaderMap<HeaderValue>, PseudoHeaderSensitivity)>,
        RecvFailure,
    >)
        requires
            old(self).wf(),
            decoder.wf(),
        ensures
            final(self).wf(),
            ({
                let (fields, waiting, after) = response_spec(
                    recv_view(*old(self), *old(shared), *old(events)),
                    held_bytes(*old(response)),
                    *decoder,
                    waker,
                );
                let state = recv_view(*final(self), *final(shared), *final(events));
                &&& held_bytes(*final(response)) == waiting
                &&& match fields {
                    Err(failure) => step is Err && step->Err_0 == failure && state == after,
                    Ok(RecvStep::Read) => step is Ok && step->Ok_0 is Read && state == after,
                    Ok(RecvStep::Blocked) => step is Ok && step->Ok_0 is Blocked && state == after,
                    Ok(RecvStep::Ready(fields)) => match step {
                        Ok(RecvStep::Ready((status, map, sensitivity))) => {
                            &&& parsed_section(fields) is Ok
                            &&& parsed_section(fields)->Ok_0.pseudo.status == Some(status)
                            &&& header_entries(map) == parsed_section(fields)->Ok_0.fields
                            &&& sensitivity.mask == parsed_section(fields)->Ok_0.pseudo.sensitive
                            &&& state == after
                        },
                        Err(failure) => response_refused(failure, fields) && state == cancelled(
                            after,
                        ),
                        _ => false,
                    },
                }
            }),
            *old(response) is None && !old(events)@.1 ==> forall|fields: Seq<FieldView>| #[trigger]
                delivers_section(
                    recv_view(*old(self), *old(shared), *old(events)),
                    *decoder,
                    fields,
                ) ==> match step {
                    Ok(RecvStep::Ready((status, map, sensitivity))) => {
                        &&& parsed_section(fields) matches Ok(header)
                        &&& header.pseudo.status == Some(status)
                        &&& header_entries(map) == header.fields
                        &&& sensitivity.mask == header.pseudo.sensitive
                    },
                    Err(failure) => response_refused(failure, fields),
                    _ => false,
                },
    {
        match self.poll_recv_response_fields(response, decoder, shared, waker, events) {
            Err(failure) => Err(failure),
            Ok(RecvStep::Read) => Ok(RecvStep::Read),
            Ok(RecvStep::Blocked) => Ok(RecvStep::Blocked),
            Ok(RecvStep::Ready(fields)) => {
                let parts = match Header::try_from(fields) {
                    Ok(header) => header.into_response_parts(),
                    Err(error) => Err(error),
                };
                match parts {
                    Ok(parts) => Ok(RecvStep::Ready(parts)),
                    Err(error) => {
                        self.cancel_qpack_reading(events);
                        Err(
                            RecvFailure {
                                error: StreamError::StreamError {
                                    code: Code::H3_MESSAGE_ERROR,
                                    reason: "rejected response headers: {}",
                                },
                                stop: Some(Code::H3_MESSAGE_ERROR),
                                cause: Some(error),
                            },
                        )
                    },
                }
            },
        }
    }

    /// The frame that ends a message with trailers, unless the peer refuses a field section of
    /// their size.
    ///
    /// See <https://www.rfc-editor.org/rfc/rfc9114.html#section-4.2.2>.
    pub fn send_trailers(
        trailers: HeaderMap<HeaderValue>,
        peer_max: u64,
        shared: &mut SharedState,
    ) -> (result: Result<Vec<u8>, StreamError>)
        ensures
            trailers_encoded(
                header_entries(trailers),
                peer_max,
                *old(shared),
                result,
                *final(shared),
            ),
    {
        let header = Header::trailer(trailers);
        let fields = header.iter_ref();
        assert(views(fields@) =~= fields@.map_values(|field: HeaderField| field@));
        let mut block: Vec<u8> = Vec::new();
        let size: u64 = match field_section_size(fields.as_slice()) {
            Some(size) => {
                let _ = encode_stateless(&mut block, fields.as_slice());
                size
            },
            None => {
                return Err(
                    shared.handle_connection_error_on_stream(
                        InternalConnectionError::new(
                            Code::H3_INTERNAL_ERROR,
                            "Failed to encode trailers",
                        ),
                    ),
                );
            },
        };
        assert(block@ =~= stateless_section(views(fields@)));
        if block.len() as u64 > MAX_VARINT {
            return Err(
                shared.handle_connection_error_on_stream(
                    InternalConnectionError::new(
                        Code::H3_INTERNAL_ERROR,
                        "Failed to encode trailers",
                    ),
                ),
            );
        }
        if size > peer_max {
            return Err(StreamError::HeaderTooBig { actual_size: size, max_size: peer_max });
        }
        Ok(headers_frame(block.as_slice()))
    }

    /// The frame that is sent before the end of the stream, so that peers learn to ignore it:
    /// once for each connection. `n` chooses the reserved type.
    ///
    /// See <https://www.rfc-editor.org/rfc/rfc9114.html#section-7.2.8>.
    pub fn finish(&self, n: u64) -> (frame: Option<Vec<u8>>)
        ensures
            if self.send_grease_frame {
                frame matches Some(bytes) && bytes@ == frame_bytes(FrameView::Grease(n))
            } else {
                frame is None
            },
    {
        if !self.send_grease_frame {
            return None;
        }
        let frame: Frame<Vec<u8>> = Frame::Grease(n);
        let mut bytes: Vec<u8> = Vec::new();
        frame.encode_with_payload(&mut bytes);
        assert(bytes@ =~= frame_bytes(FrameView::Grease(n)));
        Some(bytes)
    }

    /// Notes that this frame was sent.
    pub fn grease_sent(&mut self)
        requires
            old(self).wf(),
        ensures
            final(self).wf(),
            final(self)@ == (RequestView { send_grease_frame: false, ..old(self)@ }),
    {
        self.send_grease_frame = false;
    }

    /// The two halves of the stream: what is received stays with the second.
    pub fn split(self) -> (halves: (RequestStream, RequestStream))
        requires
            self.wf(),
        ensures
            halves.0.wf(),
            halves.1.wf(),
            halves.0@ == (RequestView {
                stream: unread_stream(self@.stream.id),
                trailers: None,
                max_field_section_size: 0,
                send_grease_frame: self@.send_grease_frame,
                decode: DecodeView::SendOnly,
            }),
            halves.1@ == self@,
    {
        let (send, recv) = self.stream.split();
        (
            RequestStream {
                stream: send,
                trailers: None,
                max_field_section_size: 0,
                send_grease_frame: self.send_grease_frame,
                decode_state: RequestDecodeState::SendOnly,
            },
            RequestStream {
                stream: recv,
                trailers: self.trailers,
                max_field_section_size: self.max_field_section_size,
                send_grease_frame: self.send_grease_frame,
                decode_state: self.decode_state,
            },
        )
    }
}

/// What encoding trailers comes to: their frame, unless the peer refuses a field section of
/// their size.
pub open spec fn trailers_encoded(
    entries: Seq<(Seq<u8>, Seq<u8>, bool)>,
    peer_max: u64,
    shared: SharedState,
    result: Result<Vec<u8>, StreamError>,
    after: SharedState,
) -> bool {
    let fields = section_fields(no_pseudo(), entries);
    let origin = ErrorOrigin::Internal(
        internal_error(Code::H3_INTERNAL_ERROR, "Failed to encode trailers"),
    );
    if lines_size(fields) > u64::MAX || stateless_section(fields).len() > MAX_VARINT {
        &&& result == Err::<Vec<u8>, StreamError>(
            StreamError::ConnectionError(standing(shared, origin)),
        )
        &&& after == failed(shared, origin)
    } else {
        &&& after == shared
        &&& if lines_size(fields) > peer_max {
            result == Err::<Vec<u8>, StreamError>(
                StreamError::HeaderTooBig {
                    actual_size: lines_size(fields) as u64,
                    max_size: peer_max,
                },
            )
        } else {
            &&& result is Ok
            &&& result->Ok_0@ == frame_bytes(FrameView::Headers(stateless_section(fields)))
        }
    }
}

/// A frame with a field section.
pub fn headers_frame(block: &[u8]) -> (frame: Vec<u8>)
    requires
        block@.len() <= MAX_VARINT,
    ensures
        frame@ == frame_bytes(FrameView::Headers(block@)),
{
    let mut frame: Vec<u8> = Vec::new();
    put_frame(HEADERS, block, &mut frame);
    assert(frame@ =~= frame_bytes(FrameView::Headers(block@)));
    frame
}

/// The size of a field section, where it is a number at all.
///
/// See <https://www.rfc-editor.org/rfc/rfc9114.html#section-4.2.2>.
pub fn field_section_size(fields: &[HeaderField]) -> (size: Option<u64>)
    ensures
        match size {
            Some(size) => size == lines_size(views(fields@)),
            None => lines_size(views(fields@)) > u64::MAX,
        },
{
    let ghost all = views(fields@);
    let mut i: usize = fields.len();
    let mut size: u64 = 0;
    assert(all.skip(i as int) =~= Seq::<FieldView>::empty());
    while i > 0
        invariant
            i <= fields@.len(),
            all == views(fields@),
            size == lines_size(all.skip(i as int)),
        decreases i,
    {
        i = i - 1;
        proof {
            assert(all.skip(i as int).skip(1) =~= all.skip(i + 1));
            assert(all.skip(i as int)[0] == fields@[i as int]@);
            lemma_size_of_tail(all, i as int);
        }
        let name: u64 = fields[i].name.len() as u64;
        let value: u64 = fields[i].value.len() as u64;
        size = match size.checked_add(name) {
            Some(size) => match size.checked_add(value) {
                Some(size) => match size.checked_add(ENTRY_OVERHEAD as u64) {
                    Some(size) => size,
                    None => return None,
                },
                None => return None,
            },
            None => return None,
        };
    }
    assert(all.skip(0) =~= all);
    Some(size)
}

/// The last fields are no larger than all.
proof fn lemma_size_of_tail(fields: Seq<FieldView>, i: int)
    requires
        0 <= i <= fields.len(),
    ensures
        lines_size(fields.skip(i)) <= lines_size(fields),
    decreases i,
{
    if i == 0 {
        assert(fields.skip(0) =~= fields);
    } else {
        lemma_size_of_tail(fields.skip(1), i - 1);
        assert(fields.skip(1).skip(i - 1) =~= fields.skip(i));
    }
}

/// A header section with its view.
pub open spec fn viewed_response(step: Result<RecvStep<Vec<HeaderField>>, RecvFailure>) -> Result<
    RecvStep<Seq<FieldView>>,
    RecvFailure,
> {
    match step {
        Ok(RecvStep::Ready(fields)) => Ok(
            RecvStep::Ready(fields@.map_values(|field: HeaderField| field@)),
        ),
        Ok(RecvStep::Read) => Ok(RecvStep::Read),
        Ok(RecvStep::Blocked) => Ok(RecvStep::Blocked),
        Err(failure) => Err(failure),
    }
}

/// What is received on a stream stays with its receiving half: the sending half neither
/// decodes nor abandons anything.
pub proof fn sending_half_settles_nothing<W>(events: Events<W>)
    ensures
        cancel_decode(DecodeView::SendOnly, events) == (DecodeView::SendOnly, events),
        finish_decode(DecodeView::SendOnly, events) == (DecodeView::SendOnly, events),
{
}

/// A header section that is sent without the dynamic table arrives as it was sent: its frame is
/// found at the front of what follows, its field lines are those that were encoded, and they
/// make the same pseudo-header fields and the same regular fields, as sensitive as they were.
pub proof fn messages_are_received_as_sent(
    pseudo: PseudoView,
    entries: Seq<(Seq<u8>, Seq<u8>, bool)>,
    max_frame: usize,
    max_size: u64,
    limit: usize,
    rest: Seq<u8>,
)
    requires
        readable(pseudo),
        sendable(entries),
        lines_encodable(section_fields(pseudo, entries), limit) || stateless_section(
            section_fields(pseudo, entries),
        ).len() <= limit,
        lines_size(section_fields(pseudo, entries)) <= max_size,
        stateless_section(section_fields(pseudo, entries)).len() <= max_frame,
        frame_bytes(
            FrameView::Headers(stateless_section(section_fields(pseudo, entries))),
        ).len() <= usize::MAX,
        stateless_section(section_fields(pseudo, entries)).len() <= MAX_VARINT,
    ensures
        ({
            let fields = section_fields(pseudo, entries);
            let block = stateless_section(fields);
            let received = parsed_section(fields);
            &&& frame_spec(frame_bytes(FrameView::Headers(block)) + rest, max_frame) == Ok::<
                (FrameView<PayloadLen>, Seq<u8>),
                FrameError,
            >((FrameView::Headers(block), rest))
            &&& stateless_spec(limit, max_size, block) == (
                Ok::<DecodedView, DecoderError>(
                    DecodedView { fields, dyn_ref: false, mem_size: lines_size(fields) as u64 },
                ),
                Seq::<u8>::empty(),
            )
            &&& received is Ok
            &&& received->Ok_0.fields == entries
            &&& forall|id: PseudoId| #[trigger]
                pseudo_field(received->Ok_0.pseudo, id) == pseudo_field(pseudo, id)
        }),
{
    let fields = section_fields(pseudo, entries);
    frame_round_trip(FrameView::Headers(stateless_section(fields)), max_frame, rest);
    stateless_round_trip(fields, max_size, limit);
    section_is_received_as_sent(pseudo, entries);
}

} // verus!
