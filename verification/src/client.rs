//! What a client decides.
use bytes::BytesMut;
use http::{HeaderMap, HeaderValue};
use vstd::prelude::*;
use crate::buf_list::joined;
use crate::config::{effective, Config};
use crate::connection::{
    configured_encoder, control_failure, control_read, goaway_follows, greater_goaway,
    used_capacity, ConnectionInner,
};
use crate::encode_buffer::{
    buffered, clear_qpack_encode_buffer, fill, new_buffer, take_qpack_encode_buffer,
};
use crate::error::{
    detailed_error, internal_error, Code, Detail, ErrorOrigin, InternalConnectionError, StreamError,
    StreamErrorIncoming,
};
use crate::frame::{
    fresh_decoder, lemma_poll_next, poll_next_spec, unread_stream, BufRecvStream, FrameDecoder,
    FrameStream, Poll, StreamView,
};
use crate::guard::{
    reading_finished, receiving_stopped, remaining_cancelled, Cancellation, StreamGuard,
};
use crate::proto::fields::{first_value, header_entries};
use crate::proto::frame::{
    frame_bytes, put_frame, summary_of, Frame, FrameView, PayloadLen, DATA,
};
use crate::proto::headers::{
    named_authority, parsed_section, request_pseudo, section_fields, Header, HeaderError,
    HeaderErrorView, MessageExtensions, Target, HOST,
};
use crate::proto::pseudo::PseudoHeaderSensitivity;
use crate::qpack::decoder::{views, Decoder};
use crate::qpack::dynamic::encoder::has_headroom;
use crate::qpack::dynamic::lines_size;
use crate::qpack::encoder::{encode_stateless, stateless_section, EncoderError};
use crate::qpack::field::{FieldView, HeaderField};
use crate::qpack::shared::{
    shared_encode, with_event, EventQueue, QpackDecoder, QpackEncoder, QpackEncoderView, QpackEvent,
};
use crate::qpack_streams::QpackView;
use crate::quic::{StreamId, MAX_VARINT};
use crate::recv_control::{stop_error, ReceiveState};
use crate::request::{fresh_decode, DecodeView};
use crate::request_stream::{
    cancel_decode, cancelled, failure_of, field_section_size, headers_frame, held_bytes, malformed,
    recv_view, response_refused, response_spec, trailers_encoded, trailers_spec, unacceptable,
    RecvFailure, RecvStep, RecvView, RequestStream as MessageStream, RequestView,
};
use crate::send_order::{send_step, SendEvent, SendOrder, SendPhase};
use crate::shared_state::{failed, request_error_spec, standing, stream_failure, SharedState};

verus! {

/// What is kept to send requests.
pub struct SendRequest {
    /// What the peer's encoder may do, where it may refer to the dynamic table.
    pub decoder: Option<QpackDecoder>,
    /// The largest field section that is accepted.
    pub max_field_section_size: u64,
    pub max_qpack_decode_buffer_size: usize,
    pub send_grease_frame: bool,
    pub qpack_encode_buffer: BytesMut,
}

/// A request that is ready to be sent once there is a stream for it.
#[derive(Debug)]
pub enum PreparedRequest {
    /// The fields, which are encoded for the stream.
    Dynamic(Vec<HeaderField>),
    /// The encoded field section.
    Stateless(Vec<u8>),
}

/// What a request that is ready to be sent is.
pub enum PreparedView {
    Dynamic(Seq<FieldView>),
    Stateless(Seq<u8>),
}

impl View for PreparedRequest {
    type V = PreparedView;

    open spec fn view(&self) -> PreparedView {
        match *self {
            PreparedRequest::Dynamic(fields) => PreparedView::Dynamic(views(fields@)),
            PreparedRequest::Stateless(block) => PreparedView::Stateless(block@),
        }
    }
}

/// Why a request cannot be sent that names no authority, or two.
pub open spec fn invalid_request(error: HeaderErrorView) -> StreamError {
    StreamError::InvalidRequest {
        cause: if error is MissingAuthority {
            "missing authority"
        } else {
            "uri and authority field are in contradiction"
        },
    }
}

/// The largest field section that the peer accepts.
pub open spec fn peer_max_section(shared: SharedState) -> u64 {
    match shared.settings {
        Some(settings) => settings.max_field_section_size,
        None => MAX_VARINT,
    }
}

/// What preparing a request comes to.
pub open spec fn prepared(
    shared: SharedState,
    dynamic: bool,
    authority: Result<Seq<u8>, HeaderErrorView>,
    fields: Seq<FieldView>,
) -> (Result<PreparedView, StreamError>, SharedState) {
    let peer_max = peer_max_section(shared);
    if shared.closing {
        (Err(StreamError::ConnectionClosing), shared)
    } else if authority is Err {
        (Err(invalid_request(authority->Err_0)), shared)
    } else if lines_size(fields) > u64::MAX {
        let origin = ErrorOrigin::Internal(
            internal_error(
                Code::H3_INTERNAL_ERROR,
                "request field section size overflowed",
            ),
        );
        (Err(StreamError::ConnectionError(standing(shared, origin))), failed(shared, origin))
    } else if lines_size(fields) > peer_max {
        (
            Err(
                StreamError::HeaderTooBig {
                    actual_size: lines_size(fields) as u64,
                    max_size: peer_max,
                },
            ),
            shared,
        )
    } else if dynamic {
        (Ok(PreparedView::Dynamic(fields)), shared)
    } else {
        (Ok(PreparedView::Stateless(stateless_section(fields))), shared)
    }
}

/// What a request that could not be encoded comes to.
pub open spec fn encoding_failed(shared: SharedState, error: Option<EncoderError>) -> (
    StreamError,
    SharedState,
) {
    let origin = ErrorOrigin::Internal(
        match error {
            Some(error) => detailed_error(
                Code::H3_INTERNAL_ERROR,
                "failed to encode request headers: {}",
                Detail::Encoder(error),
            ),
            None => internal_error(Code::H3_INTERNAL_ERROR, "failed to encode request headers"),
        },
    );
    (StreamError::ConnectionError(standing(shared, origin)), failed(shared, origin))
}

impl SendRequest {
    /// Nothing is left in the buffer between requests.
    pub open spec fn wf(&self) -> bool {
        buffered(self.qpack_encode_buffer) == Seq::<u8>::empty()
    }

    pub fn new(
        decoder: Option<QpackDecoder>,
        max_field_section_size: u64,
        max_qpack_decode_buffer_size: usize,
        send_grease_frame: bool,
    ) -> (sender: Self)
        ensures
            sender.wf(),
            sender.decoder == decoder,
            sender.max_field_section_size == max_field_section_size,
            sender.max_qpack_decode_buffer_size == max_qpack_decode_buffer_size,
            sender.send_grease_frame == send_grease_frame,
    {
        SendRequest {
            decoder,
            max_field_section_size,
            max_qpack_decode_buffer_size,
            send_grease_frame,
            qpack_encode_buffer: new_buffer(),
        }
    }

    /// Another sender. It has a buffer of its own.
    pub fn duplicate(&self) -> (copy: Self)
        ensures
            copy.wf(),
            copy.decoder == self.decoder,
            copy.max_field_section_size == self.max_field_section_size,
            copy.max_qpack_decode_buffer_size == self.max_qpack_decode_buffer_size,
            copy.send_grease_frame == self.send_grease_frame,
    {
        SendRequest::new(
            self.decoder,
            self.max_field_section_size,
            self.max_qpack_decode_buffer_size,
            self.send_grease_frame,
        )
    }

    /// Prepares a request, before there is a stream for it.
    ///
    /// `dynamic` tells whether the encoder is there and ready. References to the dynamic table
    /// are counted for the stream that they are sent on, so the fields are then encoded when
    /// there is one; otherwise they are encoded at once. Nothing is sent that exceeds the
    /// limit of the peer. See <https://www.rfc-editor.org/rfc/rfc9114.html#section-4.2.2>.
    pub fn send_request(
        &mut self,
        method: Vec<u8>,
        target: Target,
        headers: HeaderMap<HeaderValue>,
        ext: MessageExtensions,
        dynamic: bool,
        shared: &mut SharedState,
    ) -> (result: Result<PreparedRequest, StreamError>)
        requires
            old(self).wf(),
        ensures
            final(self).wf(),
            final(self).decoder == old(self).decoder,
            final(self).max_field_section_size == old(self).max_field_section_size,
            final(self).max_qpack_decode_buffer_size == old(self).max_qpack_decode_buffer_size,
            final(self).send_grease_frame == old(self).send_grease_frame,
            (viewed_prepared(result), *final(shared)) == prepared(
                *old(shared),
                dynamic,
                named_authority(target@.authority, first_value(header_entries(headers), HOST@)),
                section_fields(request_pseudo(method@, target@, ext), header_entries(headers)),
            ),
    {
        if let Some(error) = shared.check_peer_connection_closing() {
            return Err(error);
        }
        let header = match Header::request(method, target, headers, ext) {
            Ok(header) => header,
            Err(HeaderError::MissingAuthority) => {
                return Err(StreamError::InvalidRequest { cause: "missing authority" });
            },
            Err(_) => {
                return Err(
                    StreamError::InvalidRequest {
                        cause: "uri and authority field are in contradiction",
                    },
                );
            },
        };
        let fields = header.iter_ref();
        assert(views(fields@) =~= fields@.map_values(|field: HeaderField| field@));
        let peer_max: u64 = shared.settings().max_field_section_size;
        let size: u64 = match field_section_size(fields.as_slice()) {
            Some(size) => size,
            None => {
                return Err(
                    shared.handle_connection_error_on_stream(
                        InternalConnectionError::new(
                            Code::H3_INTERNAL_ERROR,
                            "request field section size overflowed",
                        ),
                    ),
                );
            },
        };
        if size > peer_max {
            return Err(StreamError::HeaderTooBig { actual_size: size, max_size: peer_max });
        }
        if dynamic {
            return Ok(PreparedRequest::Dynamic(fields));
        }
        let mut block: Vec<u8> = Vec::new();
        let _ = encode_stateless(&mut block, fields.as_slice());
        assert(block@ =~= stateless_section(views(fields@)));
        fill(&mut self.qpack_encode_buffer, block.as_slice());
        assert(buffered(self.qpack_encode_buffer) =~= block@);
        Ok(PreparedRequest::Stateless(take_qpack_encode_buffer(&mut self.qpack_encode_buffer)))
    }

    /// The frame with the fields of a request, now that there is a stream for it, and whether
    /// there are encoder instructions to send.
    pub fn encode_request(
        &mut self,
        stream_id: StreamId,
        request: PreparedRequest,
        encoder: &mut QpackEncoder,
        shared: &mut SharedState,
    ) -> (result: Result<(Vec<u8>, bool), StreamError>)
        requires
            old(self).wf(),
            old(encoder).wf(),
        ensures
            final(self).wf(),
            final(encoder).wf(),
            final(self).decoder == old(self).decoder,
            final(self).max_field_section_size == old(self).max_field_section_size,
            final(self).max_qpack_decode_buffer_size == old(self).max_qpack_decode_buffer_size,
            final(self).send_grease_frame == old(self).send_grease_frame,
            encoded_request(
                stream_id,
                request@,
                old(encoder)@,
                *old(shared),
                result,
                final(encoder)@,
                *final(shared),
            ),
    {
        let (block, queued): (Vec<u8>, bool) = match request {
            PreparedRequest::Stateless(block) => (block, false),
            PreparedRequest::Dynamic(fields) => {
                let size = field_section_size(fields.as_slice());
                if !encoder.encoder.has_room_for(fields.len()) || size.is_none() {
                    return Err(self.fail_encoding(None, shared));
                }
                let mut block: Vec<u8> = Vec::new();
                match encoder.encode(stream_id, &mut block, fields.as_slice()) {
                    Ok(queued) => {
                        fill(&mut self.qpack_encode_buffer, block.as_slice());
                        assert(block@ =~= shared_encode(
                            old(encoder)@,
                            stream_id.0,
                            views(fields@),
                        ).1);
                        assert(buffered(self.qpack_encode_buffer) =~= block@);
                        (take_qpack_encode_buffer(&mut self.qpack_encode_buffer), queued)
                    },
                    Err(error) => return Err(self.fail_encoding(Some(error), shared)),
                }
            },
        };
        if block.len() as u64 > MAX_VARINT {
            return Err(self.fail_encoding(None, shared));
        }
        Ok((headers_frame(block.as_slice()), queued))
    }

    fn fail_encoding(&mut self, cause: Option<EncoderError>, shared: &mut SharedState) -> (error:
        StreamError)
        ensures
            final(self).wf(),
            final(self).decoder == old(self).decoder,
            final(self).max_field_section_size == old(self).max_field_section_size,
            final(self).max_qpack_decode_buffer_size == old(self).max_qpack_decode_buffer_size,
            final(self).send_grease_frame == old(self).send_grease_frame,
            (error, *final(shared)) == encoding_failed(*old(shared), cause),
    {
        clear_qpack_encode_buffer(&mut self.qpack_encode_buffer);
        let error = match cause {
            Some(error) => InternalConnectionError::with_detail(
                Code::H3_INTERNAL_ERROR,
                "failed to encode request headers: {}",
                Detail::Encoder(error),
            ),
            None => InternalConnectionError::new(
                Code::H3_INTERNAL_ERROR,
                "failed to encode request headers",
            ),
        };
        shared.handle_connection_error_on_stream(error)
    }

    /// Takes what came of opening a stream: the connection may be closing by now.
    pub fn open_request_stream_with_state(
        opened: Result<(), StreamErrorIncoming>,
        shared: &mut SharedState,
    ) -> (result: Result<(), StreamError>)
        ensures
            match opened {
                Err(error) => result == Err::<(), StreamError>(
                    stream_failure(*old(shared), error).0,
                ) && *final(shared) == stream_failure(*old(shared), error).1,
                Ok(_) => {
                    &&& *final(shared) == *old(shared)
                    &&& result == if old(shared).closing {
                        Err::<(), StreamError>(StreamError::ConnectionClosing)
                    } else {
                        Ok(())
                    }
                },
            },
    {
        if let Err(error) = opened {
            return Err(shared.handle_quic_stream_error(error));
        }
        match shared.check_peer_connection_closing() {
            Some(error) => Err(error),
            None => Ok(()),
        }
    }

    /// Takes what came of writing the fields: the peer may have gone away meanwhile.
    pub fn write_headers(
        stream_id: StreamId,
        written: Result<(), StreamErrorIncoming>,
        shared: &mut SharedState,
    ) -> (result: Result<(), StreamError>)
        ensures
            match written {
                Err(error) => result == Err::<(), StreamError>(
                    stream_failure(*old(shared), error).0,
                ) && *final(shared) == stream_failure(*old(shared), error).1,
                Ok(_) => {
                    &&& *final(shared) == *old(shared)
                    &&& result == match request_error_spec(*old(shared), stream_id) {
                        Some(error) => Err::<(), StreamError>(error),
                        None => Ok(()),
                    }
                },
            },
    {
        if let Err(error) = written {
            return Err(shared.handle_quic_stream_error(error));
        }
        match shared.request_error(stream_id) {
            Some(error) => Err(error),
            None => Ok(()),
        }
    }

    /// The stream of a request whose fields were written. Only the first request of a
    /// connection sends the frame that means nothing.
    pub fn request_stream(&mut self, stream_id: StreamId) -> (stream: RequestStream)
        requires
            old(self).wf(),
        ensures
            final(self).wf(),
            stream.inner.wf(),
            stream.inner@ == (RequestView {
                stream: StreamView {
                    decoder: FrameDecoder {
                        max_field_section_size: old(self).max_qpack_decode_buffer_size,
                        ..fresh_decoder()
                    },
                    ..unread_stream(stream_id)
                },
                trailers: None,
                max_field_section_size: old(self).max_field_section_size,
                send_grease_frame: old(self).send_grease_frame,
                decode: fresh_decode(
                    stream_id,
                    old(self).max_qpack_decode_buffer_size,
                    old(self).decoder,
                ),
            }),
            stream.guard == (StreamGuard {
                reset_on_drop: true,
                stop_sending_on_drop: true,
                recv_stop_code: None,
            }),
            stream.response is None,
            stream.control is None,
            stream.sending == (SendOrder { phase: SendPhase::Content, pending: false }),
            stream.stream_id == stream_id,
            !final(self).send_grease_frame,
            final(self).decoder == old(self).decoder,
            final(self).max_field_section_size == old(self).max_field_section_size,
            final(self).max_qpack_decode_buffer_size == old(self).max_qpack_decode_buffer_size,
    {
        let inner = MessageStream::new(
            FrameStream::new(BufRecvStream::new(stream_id)),
            self.max_field_section_size,
            self.max_qpack_decode_buffer_size,
            self.send_grease_frame,
            self.decoder,
        );
        self.send_grease_frame = false;
        RequestStream {
            inner,
            guard: StreamGuard::new(),
            response: None,
            control: None,
            sending: SendOrder::new(),
            stream_id,
        }
    }
}

/// A prepared request with its view.
pub open spec fn viewed_prepared(result: Result<PreparedRequest, StreamError>) -> Result<
    PreparedView,
    StreamError,
> {
    match result {
        Ok(request) => Ok(request@),
        Err(error) => Err(error),
    }
}

/// What encoding a request comes to.
pub open spec fn encoded_request(
    stream_id: StreamId,
    request: PreparedView,
    encoder: QpackEncoderView,
    shared: SharedState,
    result: Result<(Vec<u8>, bool), StreamError>,
    encoder_after: QpackEncoderView,
    shared_after: SharedState,
) -> bool {
    let (error, broken) = encoding_failed(shared, None);
    match request {
        PreparedView::Stateless(block) => {
            &&& encoder_after == encoder
            &&& if block.len() > MAX_VARINT {
                result == Err::<(Vec<u8>, bool), StreamError>(error) && shared_after == broken
            } else {
                &&& result is Ok
                &&& result->Ok_0.0@ == frame_bytes(FrameView::Headers(block))
                &&& !result->Ok_0.1
                &&& shared_after == shared
            }
        },
        PreparedView::Dynamic(fields) => if !has_headroom(
            encoder.table,
            3 * (fields.len() as int),
        ) || lines_size(fields) > u64::MAX {
            &&& result == Err::<(Vec<u8>, bool), StreamError>(error)
            &&& shared_after == broken
            &&& encoder_after == encoder
        } else {
            let (outcome, block, after) = shared_encode(encoder, stream_id.0, fields);
            &&& encoder_after == after
            &&& match outcome {
                Err(cause) => {
                    let (error, broken) = encoding_failed(shared, Some(cause));
                    result == Err::<(Vec<u8>, bool), StreamError>(error) && shared_after == broken
                },
                Ok(queued) => if block.len() > MAX_VARINT {
                    result == Err::<(Vec<u8>, bool), StreamError>(error) && shared_after == broken
                } else {
                    &&& result is Ok
                    &&& result->Ok_0.0@ == frame_bytes(FrameView::Headers(block))
                    &&& result->Ok_0.1 == queued
                    &&& shared_after == shared
                },
            }
        },
    }
}

/// A stream that is open and has no owner yet who would cancel it.
#[derive(Debug, Clone, Copy, PartialEq, Eq, Structural)]
pub struct OpeningStream {
    pub stream_id: StreamId,
    pub complete: bool,
    pub decoder: Option<QpackDecoder>,
}

impl OpeningStream {
    pub fn new(stream_id: StreamId, decoder: Option<QpackDecoder>) -> (stream: Self)
        ensures
            stream == (OpeningStream { stream_id, complete: false, decoder }),
    {
        OpeningStream { stream_id, complete: false, decoder }
    }

    /// What is to be done when the stream is let go of: one that is not complete is cancelled
    /// in both directions, and its response is given up.
    ///
    /// See <https://www.rfc-editor.org/rfc/rfc9204.html#section-2.2.2.2>.
    pub fn close<W>(self, events: &mut EventQueue<W>) -> (cancellation: Cancellation)
        ensures
            if self.complete {
                &&& cancellation == (Cancellation { reset: None, stop: None })
                &&& final(events)@ == old(events)@
            } else {
                &&& cancellation == (Cancellation {
                    reset: Some(Code::H3_REQUEST_CANCELLED),
                    stop: Some(Code::H3_REQUEST_CANCELLED),
                })
                &&& final(events)@ == match self.decoder {
                    Some(_) => with_event(old(events)@, QpackEvent::StreamCancel(self.stream_id)),
                    None => old(events)@,
                }
            },
    {
        if self.complete {
            return Cancellation { reset: None, stop: None };
        }
        if let Some(decoder) = self.decoder {
            decoder.queue_stream_cancellation(self.stream_id, events);
        }
        Cancellation {
            reset: Some(Code::H3_REQUEST_CANCELLED),
            stop: Some(Code::H3_REQUEST_CANCELLED),
        }
    }
}

/// A request, from when its fields were written.
pub struct RequestStream {
    pub inner: MessageStream,
    pub guard: StreamGuard,
    /// The header section of a response that waits for insertions.
    pub response: Option<Vec<u8>>,
    /// What those share who may stop receiving.
    pub control: Option<ReceiveState>,
    /// What was handed over to be sent.
    pub sending: SendOrder,
    pub stream_id: StreamId,
}

/// Whether a stream has ended and all of it was read.
pub open spec fn is_read(request: RequestView) -> bool {
    request.stream.eos && joined(request.stream.chunks).len() == 0 && request.trailers is None
}

/// What a step comes to when the peer has gone away meanwhile: an operation that waits is
/// told so.
pub open spec fn after_step<T>(
    shared: SharedState,
    stream_id: StreamId,
    step: Poll<Result<T, StreamError>>,
) -> Poll<Result<T, StreamError>> {
    match step {
        Poll::Pending => match request_error_spec(shared, stream_id) {
            Some(error) => Poll::Ready(Err(error)),
            None => step,
        },
        _ => step,
    }
}

/// What prevents receiving: that the peer does not process the request, or that the connection
/// failed; else that receiving was stopped here.
pub open spec fn receive_rejection(
    shared: SharedState,
    stream_id: StreamId,
    control: Option<ReceiveState>,
) -> Option<StreamError> {
    match request_error_spec(shared, stream_id) {
        Some(error) => Some(error),
        None => match control {
            Some(state) => stop_error(state),
            None => None,
        },
    }
}

/// Whether a failure of receiving was settled: where the peer is to be asked to stop sending,
/// the receiving direction is stopped, and what is told holds the code to ask with.
pub open spec fn failure_settled<W>(
    before: RequestStream,
    after: RequestStream,
    failure: RecvFailure,
    told: RecvFailure,
    view: RecvView<W>,
    view_after: RecvView<W>,
) -> bool {
    match failure.stop {
        None => {
            &&& told == failure
            &&& view_after == view
            &&& after.guard == before.guard
            &&& after.control == before.control
        },
        Some(code) => {
            let (stop, guard, control, events) = receiving_stopped(
                before.guard,
                before.control,
                code,
                view.events,
            );
            &&& told == (RecvFailure { stop, ..failure })
            &&& view_after == (RecvView { events, ..view })
            &&& after.guard == guard
            &&& after.control == control
        },
    }
}

/// Whether receiving went on, or waits, with nothing stopped.
pub open spec fn receiving_goes_on(before: RequestStream, after: RequestStream) -> bool {
    after.guard == before.guard && after.control == before.control
}

/// How trailers that could not be received fail: the peer is asked to stop sending where they
/// are too large.
///
/// See <https://www.rfc-editor.org/rfc/rfc9114.html#section-4.2.2>.
pub open spec fn trailers_failure(error: StreamError) -> RecvFailure {
    failure_of(
        error,
        if error is HeaderTooBig {
            Some(Code::H3_REQUEST_CANCELLED)
        } else {
            None
        },
    )
}

impl RequestStream {
    /// Stops receiving where a failure asks for it.
    fn settle_failure<W>(&mut self, failure: RecvFailure, events: &mut EventQueue<W>) -> (told:
        RecvFailure)
        ensures
            *final(self) == (RequestStream {
                guard: final(self).guard,
                control: final(self).control,
                ..*old(self)
            }),
            match failure.stop {
                None => {
                    &&& told == failure
                    &&& final(events)@ == old(events)@
                    &&& receiving_goes_on(*old(self), *final(self))
                },
                Some(code) => {
                    let (stop, guard, control, queued) = receiving_stopped(
                        old(self).guard,
                        old(self).control,
                        code,
                        old(events)@,
                    );
                    &&& told == (RecvFailure { stop, ..failure })
                    &&& final(events)@ == queued
                    &&& final(self).guard == guard
                    &&& final(self).control == control
                },
            },
    {
        match failure.stop {
            None => failure,
            Some(code) => {
                let stop = self.guard.stop_sending(code, &mut self.control, events);
                RecvFailure { error: failure.error, stop, cause: failure.cause }
            },
        }
    }

    /// The header section of a response. A response that is refused or too large stops the
    /// receiving direction.
    pub fn poll_recv_response<W>(
        &mut self,
        decoder: &Decoder,
        shared: &mut SharedState,
        waker: W,
        events: &mut EventQueue<W>,
    ) -> (step: Result<
        RecvStep<(u16, HeaderMap<HeaderValue>, PseudoHeaderSensitivity)>,
        RecvFailure,
    >)
        requires
            old(self).inner.wf(),
            decoder.wf(),
        ensures
            final(self).inner.wf(),
            final(self).sending == old(self).sending,
            final(self).stream_id == old(self).stream_id,
            ({
                let (fields, waiting, after) = response_spec(
                    recv_view(old(self).inner, *old(shared), *old(events)),
                    held_bytes(old(self).response),
                    *decoder,
                    waker,
                );
                let state = recv_view(final(self).inner, *final(shared), *final(events));
                &&& held_bytes(final(self).response) == waiting
                &&& match fields {
                    Err(failure) => step is Err && failure_settled(
                        *old(self),
                        *final(self),
                        failure,
                        step->Err_0,
                        after,
                        state,
                    ),
                    Ok(RecvStep::Read) => step is Ok && step->Ok_0 is Read && state == after
                        && receiving_goes_on(*old(self), *final(self)),
                    Ok(RecvStep::Blocked) => step is Ok && step->Ok_0 is Blocked && state == after
                        && receiving_goes_on(*old(self), *final(self)),
                    Ok(RecvStep::Ready(fields)) => match step {
                        Ok(RecvStep::Ready((status, map, sensitivity))) => {
                            &&& parsed_section(fields) is Ok
                            &&& parsed_section(fields)->Ok_0.pseudo.status == Some(status)
                            &&& header_entries(map) == parsed_section(fields)->Ok_0.fields
                            &&& sensitivity.mask == parsed_section(fields)->Ok_0.pseudo.sensitive
                            &&& state == after
                            &&& receiving_goes_on(*old(self), *final(self))
                        },
                        Err(told) => exists|failure: RecvFailure| #[trigger]
                            response_refused(failure, fields) && failure_settled(
                                *old(self),
                                *final(self),
                                failure,
                                told,
                                cancelled(after),
                                state,
                            ),
                        _ => false,
                    },
                }
            }),
    {
        let step = self.inner.poll_recv_response(
            &mut self.response,
            decoder,
            shared,
            waker,
            events,
        );
        match step {
            Ok(step) => Ok(step),
            Err(failure) => Err(self.settle_failure(failure, events)),
        }
    }

    /// The trailers of a response. Where they are refused or too large, the receiving
    /// direction is stopped.
    pub fn poll_recv_trailers<W>(
        &mut self,
        decoder: &Decoder,
        shared: &mut SharedState,
        waker: W,
        events: &mut EventQueue<W>,
    ) -> (step: Result<RecvStep<Option<HeaderMap<HeaderValue>>>, RecvFailure>)
        requires
            old(self).inner.wf(),
            decoder.wf(),
        ensures
            final(self).inner.wf(),
            final(self).response == old(self).response,
            final(self).sending == old(self).sending,
            final(self).stream_id == old(self).stream_id,
            ({
                let (fields, after) = trailers_spec(
                    recv_view(old(self).inner, *old(shared), *old(events)),
                    *decoder,
                    waker,
                );
                let state = recv_view(final(self).inner, *final(shared), *final(events));
                match fields {
                    Err(error) => step is Err && failure_settled(
                        *old(self),
                        *final(self),
                        trailers_failure(error),
                        step->Err_0,
                        after,
                        state,
                    ),
                    Ok(RecvStep::Read) => step is Ok && step->Ok_0 is Read && state == after
                        && receiving_goes_on(*old(self), *final(self)),
                    Ok(RecvStep::Blocked) => step is Ok && step->Ok_0 is Blocked && state == after
                        && receiving_goes_on(*old(self), *final(self)),
                    Ok(RecvStep::Ready(None)) => {
                        &&& step matches Ok(RecvStep::Ready(map))
                        &&& map is None
                        &&& state == after
                        &&& receiving_goes_on(*old(self), *final(self))
                    },
                    Ok(RecvStep::Ready(Some(fields))) => match step {
                        Ok(RecvStep::Ready(Some(map))) => {
                            &&& parsed_section(fields) is Ok
                            &&& header_entries(map) == parsed_section(fields)->Ok_0.fields
                            &&& state == after
                            &&& receiving_goes_on(*old(self), *final(self))
                        },
                        Err(told) => unacceptable(fields) && failure_settled(
                            *old(self),
                            *final(self),
                            malformed(),
                            told,
                            cancelled(after),
                            state,
                        ),
                        _ => false,
                    },
                }
            }),
    {
        let step = self.inner.poll_recv_trailers(decoder, shared, waker, events);
        match step {
            Ok(step) => Ok(step),
            Err(failure) => {
                let failure = match failure.error {
                    StreamError::HeaderTooBig { .. } => RecvFailure {
                        error: failure.error,
                        stop: Some(Code::H3_REQUEST_CANCELLED),
                        cause: failure.cause,
                    },
                    _ => failure,
                };
                Err(self.settle_failure(failure, events))
            },
        }
    }

    /// What prevents receiving from being begun.
    pub fn receive_rejected(&self, shared: &SharedState) -> (error: Option<StreamError>)
        ensures
            error == receive_rejection(*shared, self.stream_id, self.control),
    {
        match shared.request_error(self.stream_id) {
            Some(error) => Some(error),
            None => match &self.control {
                Some(state) => state.error(),
                None => None,
            },
        }
    }

    /// The frame with content that is handed over to be sent, unless it is out of order.
    pub fn start_send_data(&mut self, data: &[u8], shared: &SharedState) -> (result: Result<
        Vec<u8>,
        StreamError,
    >)
        requires
            data@.len() <= MAX_VARINT,
        ensures
            *final(self) == (RequestStream { sending: final(self).sending, ..*old(self) }),
            match request_error_spec(*shared, old(self).stream_id) {
                Some(error) => {
                    &&& result == Err::<Vec<u8>, StreamError>(error)
                    &&& final(self).sending == old(self).sending
                },
                None => match send_step(old(self).sending, SendEvent::Data) {
                    Some(next) => {
                        &&& result is Ok
                        &&& result->Ok_0@ == frame_bytes(FrameView::Data(data@))
                        &&& final(self).sending == next
                    },
                    None => {
                        &&& result == Err::<Vec<u8>, StreamError>(StreamError::InvalidStreamState)
                        &&& final(self).sending == old(self).sending
                    },
                },
            },
    {
        if let Some(error) = shared.request_error(self.stream_id) {
            return Err(error);
        }
        if let Err(error) = self.sending.step(SendEvent::Data) {
            return Err(error);
        }
        let mut frame: Vec<u8> = Vec::new();
        put_frame(DATA, data, &mut frame);
        assert(frame@ =~= frame_bytes(FrameView::Data(data@)));
        Ok(frame)
    }

    /// The frame with trailers that are handed over to be sent, unless they are out of order
    /// or larger than the peer accepts.
    pub fn start_send_trailers(
        &mut self,
        trailers: HeaderMap<HeaderValue>,
        shared: &mut SharedState,
    ) -> (result: Result<Vec<u8>, StreamError>)
        ensures
            *final(self) == (RequestStream { sending: final(self).sending, ..*old(self) }),
            match request_error_spec(*old(shared), old(self).stream_id) {
                Some(error) => {
                    &&& result == Err::<Vec<u8>, StreamError>(error)
                    &&& final(self).sending == old(self).sending
                    &&& *final(shared) == *old(shared)
                },
                None => match send_step(old(self).sending, SendEvent::Trailers) {
                    Some(next) => {
                        &&& trailers_encoded(
                            header_entries(trailers),
                            peer_max_section(*old(shared)),
                            *old(shared),
                            result,
                            *final(shared),
                        )
                        &&& final(self).sending == if result is Ok {
                            next
                        } else {
                            old(self).sending
                        }
                    },
                    None => {
                        &&& result == Err::<Vec<u8>, StreamError>(StreamError::InvalidStreamState)
                        &&& final(self).sending == old(self).sending
                        &&& *final(shared) == *old(shared)
                    },
                },
            },
    {
        if let Some(error) = shared.request_error(self.stream_id) {
            return Err(error);
        }
        let mut sending = self.sending;
        if let Err(error) = sending.step(SendEvent::Trailers) {
            return Err(error);
        }
        let peer_max: u64 = shared.settings().max_field_section_size;
        let result = MessageStream::send_trailers(trailers, peer_max, shared);
        if result.is_ok() {
            self.sending = sending;
        }
        result
    }

    /// What prevents an operation from being begun.
    pub fn rejected(&self, shared: &SharedState) -> (error: Option<StreamError>)
        ensures
            error == request_error_spec(*shared, self.stream_id),
    {
        shared.request_error(self.stream_id)
    }

    /// What an operation that was begun comes to.
    pub fn poll_rejection<T>(&self, shared: &SharedState, step: Poll<Result<T, StreamError>>) -> (answer: Poll<
        Result<T, StreamError>,
    >)
        ensures
            answer == after_step(*shared, self.stream_id, step),
    {
        match step {
            Poll::Pending => match shared.request_error(self.stream_id) {
                Some(error) => Poll::Ready(Err(error)),
                None => Poll::Pending,
            },
            Poll::Ready(result) => Poll::Ready(result),
        }
    }

    /// What is to be done about an error: a request that the peer will not process is
    /// cancelled in the directions that are open.
    pub fn handle_result<W>(&mut self, error: StreamError, events: &mut EventQueue<W>) -> (cancellation: Cancellation)
        requires
            old(self).inner.wf(),
        ensures
            final(self).inner.wf(),
            if error is GoawayRejected {
                let (decode, queued) = cancel_decode(old(self).inner@.decode, old(events)@);
                let (done, guard, control, queued) = remaining_cancelled(
                    old(self).guard,
                    old(self).control,
                    queued,
                );
                &&& cancellation == done
                &&& final(self).guard == guard
                &&& final(self).control == control
                &&& final(events)@ == queued
                &&& final(self).inner@ == (RequestView {
                    decode,
                    ..old(self).inner@
                })
            } else {
                &&& cancellation == (Cancellation { reset: None, stop: None })
                &&& *final(self) == *old(self)
                &&& final(events)@ == old(events)@
            },
            final(self).response == old(self).response,
            final(self).sending == old(self).sending,
            final(self).stream_id == old(self).stream_id,
    {
        match error {
            StreamError::GoawayRejected { .. } => {
                self.inner.cancel_qpack_reading(events);
                self.guard.cancel_remaining(&mut self.control, events)
            },
            _ => Cancellation { reset: None, stop: None },
        }
    }

    /// Notes that the message was received, once the stream has ended and its trailers were
    /// read.
    pub fn finish_reading<W>(&mut self, events: &mut EventQueue<W>)
        requires
            old(self).inner.wf(),
        ensures
            final(self).inner.wf(),
            *final(self) == (RequestStream {
                guard: final(self).guard,
                control: final(self).control,
                ..*old(self)
            }),
            (final(self).guard, final(self).control, final(events)@) == if is_read(
                old(self).inner@,
            ) {
                reading_finished(old(self).guard, old(self).control, old(events)@)
            } else {
                (old(self).guard, old(self).control, old(events)@)
            },
    {
        if self.inner.stream.is_eos() && self.inner.trailers.is_none() {
            self.guard.finish_reading(&mut self.control, events);
        }
    }

    /// Stops receiving, and gives the code with which the peer is to be asked to stop sending.
    /// The field sections are given up, and so is a response that waits.
    ///
    /// See <https://www.rfc-editor.org/rfc/rfc9114.html#section-4.1.1>.
    pub fn stop_sending<W>(&mut self, code: Code, events: &mut EventQueue<W>) -> (stop: Option<Code>)
        requires
            old(self).inner.wf(),
        ensures
            final(self).inner.wf(),
            final(self).response is None,
            final(self).sending == old(self).sending,
            final(self).stream_id == old(self).stream_id,
            ({
                let (decode, queued) = cancel_decode(old(self).inner@.decode, old(events)@);
                &&& final(self).inner@ == (RequestView { decode, ..old(self).inner@ })
                &&& (stop, final(self).guard, final(self).control, final(events)@)
                    == receiving_stopped(old(self).guard, old(self).control, code, queued)
            }),
    {
        self.response = None;
        self.inner.cancel_qpack_reading(events);
        self.guard.stop_sending(code, &mut self.control, events)
    }

    /// The two halves of the request, each with its own direction. A response that waits
    /// stays with the receiving half.
    pub fn split(self) -> (halves: (RequestStream, RequestStream))
        requires
            self.inner.wf(),
        ensures
            halves.0.inner.wf(),
            halves.1.inner.wf(),
            halves.0.stream_id == self.stream_id,
            halves.1.stream_id == self.stream_id,
            halves.0.response is None,
            halves.0.control is None,
            halves.1.response == self.response,
            halves.1.control == self.control,
            halves.0.sending == self.sending,
            halves.1.sending == self.sending,
            halves.0.inner@ == (RequestView {
                stream: unread_stream(self.inner@.stream.id),
                trailers: None,
                max_field_section_size: 0,
                send_grease_frame: self.inner@.send_grease_frame,
                decode: DecodeView::SendOnly,
            }),
            halves.1.inner@ == self.inner@,
            halves.0.guard == (StreamGuard {
                reset_on_drop: self.guard.reset_on_drop,
                stop_sending_on_drop: false,
                recv_stop_code: None,
            }),
            halves.1.guard == (StreamGuard { reset_on_drop: false, ..self.guard }),
    {
        let stream_id = self.stream_id;
        let (send, recv) = self.inner.split();
        let (send_guard, recv_guard) = self.guard.split();
        (
            RequestStream {
                inner: send,
                guard: send_guard,
                response: None,
                control: None,
                sending: self.sending,
                stream_id,
            },
            RequestStream {
                inner: recv,
                guard: recv_guard,
                response: self.response,
                control: self.control,
                sending: self.sending,
                stream_id,
            },
        )
    }
}

/// How far a client's connection has come to going away.
#[derive(Debug, Clone, Copy, PartialEq, Eq, Structural)]
pub struct Connection {
    /// The identifier that was sent when this endpoint went away.
    pub sent_closing: Option<u64>,
    /// The identifier that the peer gave last when it went away.
    pub recv_closing: Option<u64>,
}

impl Connection {
    pub fn new() -> (connection: Self)
        ensures
            connection == (Connection { sent_closing: None, recv_closing: None }),
    {
        Connection { sent_closing: None, recv_closing: None }
    }

    /// Begins to go away: the frame that is to be written, unless it was. No push is accepted.
    pub fn shutdown<W>(&mut self, inner: &mut ConnectionInner<W>) -> (frame: Option<Vec<u8>>)
        requires
            old(inner).wf(),
        ensures
            final(inner).wf(),
            if old(self).sent_closing == Some(0u64) {
                frame is None && *final(self) == *old(self) && *final(inner) == *old(inner)
            } else {
                &&& frame matches Some(bytes)
                &&& bytes@ == frame_bytes(FrameView::Goaway(0))
                &&& *final(self) == (Connection { sent_closing: Some(0), ..*old(self) })
                &&& *final(inner) == (ConnectionInner {
                    shared: SharedState { closing: true, ..old(inner).shared },
                    ..*old(inner)
                })
            },
    {
        inner.shutdown(&mut self.sent_closing, 0)
    }

    /// Takes a frame of the control stream that is permitted there.
    ///
    /// See <https://www.rfc-editor.org/rfc/rfc9114.html#section-7.2.6>.
    pub fn on_control_frame<W>(&mut self, inner: &mut ConnectionInner<W>, frame: Frame<PayloadLen>) -> (result:
        Result<(), ErrorOrigin>)
        requires
            old(inner).wf(),
        ensures
            final(inner).wf(),
            match client_failure(old(self).recv_closing, frame@) {
                Some(error) => {
                    &&& result == Err::<(), ErrorOrigin>(standing(old(inner).shared, error))
                    &&& *final(self) == *old(self)
                    &&& *final(inner) == (ConnectionInner {
                        shared: failed(old(inner).shared, error),
                        ..*old(inner)
                    })
                },
                None => {
                    &&& result == Ok::<(), ErrorOrigin>(())
                    &&& match frame {
                        Frame::Goaway(id) => {
                            &&& *final(self) == (Connection {
                                recv_closing: Some(id),
                                ..*old(self)
                            })
                            &&& *final(inner) == (ConnectionInner {
                                shared: SharedState {
                                    closing: true,
                                    peer_goaway: if id < old(inner).shared.peer_goaway {
                                        id
                                    } else {
                                        old(inner).shared.peer_goaway
                                    },
                                    ..old(inner).shared
                                },
                                ..*old(inner)
                            })
                        },
                        _ => *final(self) == *old(self) && *final(inner) == *old(inner),
                    }
                },
            },
    {
        match frame {
            Frame::Settings(_) => Ok(()),
            Frame::Goaway(id) => {
                if !StreamId(id).is_request() {
                    return Err(
                        inner.handle_connection_error(
                            ErrorOrigin::Internal(
                                InternalConnectionError::with_detail(
                                    Code::H3_ID_ERROR,
                                    "non-request StreamId in a GoAway frame: {}",
                                    Detail::Number(id),
                                ),
                            ),
                        ),
                    );
                }
                if let Err(error) = inner.process_goaway(&mut self.recv_closing, id) {
                    return Err(error);
                }
                inner.shared.set_peer_goaway(StreamId(id));
                Ok(())
            },
            _ => Err(
                inner.handle_connection_error(
                    ErrorOrigin::Internal(
                        InternalConnectionError::with_detail(
                            Code::H3_FRAME_UNEXPECTED,
                            "on client control stream: {}",
                            Detail::Frame(frame.summary()),
                        ),
                    ),
                ),
            ),
        }
    }

    /// Takes every frame that the control stream has delivered, and tells why the connection
    /// is to be closed, where it is, and whether there are encoder instructions to send.
    ///
    /// Where nothing fails, the caller reads from the transport and tries again.
    pub fn poll_close<W>(&mut self, inner: &mut ConnectionInner<W>) -> (step: (Poll<ErrorOrigin>, bool))
        requires
            old(inner).wf(),
        ensures
            final(inner).wf(),
            (step.0, step.1, drive_view(*final(self), *final(inner))) == drive_spec(
                old(inner).config,
                drive_view(*old(self), *old(inner)),
            ),
            driven(*old(inner), *final(inner)),
    {
        let ghost start = *inner;
        let ghost config = inner.config;
        let ghost goal = drive_spec(config, drive_view(*self, *inner));
        let mut flush: bool = false;
        loop
            invariant
                inner.wf(),
                start == *old(inner),
                config == start.config,
                driven(start, *inner),
                goal == drive_spec(config, drive_view(*old(self), *old(inner))),
                ({
                    let (closed, later, end) = drive_spec(config, drive_view(*self, *inner));
                    goal == (closed, flush || later, end)
                }),
            decreases control_bytes(drive_view(*self, *inner)),
        {
            let ghost before = drive_view(*self, *inner);
            proof {
                if let Some(stream) = before.control {
                    lemma_poll_next(stream);
                }
            }
            match inner.poll_control() {
                Err(error) => {
                    return (Poll::Ready(error), flush);
                },
                Ok(Poll::Pending) => {
                    return (Poll::Pending, flush);
                },
                Ok(Poll::Ready((frame, wake))) => {
                    if wake {
                        flush = true;
                    }
                    if let Err(error) = self.on_control_frame(inner, frame) {
                        return (Poll::Ready(error), flush);
                    }
                },
            }
        }
    }

    /// Takes that the server opened a bidirectional stream, which it must not.
    ///
    /// See <https://www.rfc-editor.org/rfc/rfc9114.html#section-6.1>.
    pub fn on_server_stream<W>(inner: &mut ConnectionInner<W>) -> (first: ErrorOrigin)
        ensures
            ({
                let error = ErrorOrigin::Internal(
                    internal_error(
                        Code::H3_STREAM_CREATION_ERROR,
                        "client received a server-initiated bidirectional stream",
                    ),
                );
                &&& first == standing(old(inner).shared, error)
                &&& *final(inner) == (ConnectionInner {
                    shared: failed(old(inner).shared, error),
                    ..*old(inner)
                })
            }),
    {
        inner.handle_connection_error(
            ErrorOrigin::Internal(
                InternalConnectionError::new(
                    Code::H3_STREAM_CREATION_ERROR,
                    "client received a server-initiated bidirectional stream",
                ),
            ),
        )
    }

    /// Takes that the driver was let go of, which closes the connection unless it has failed.
    pub fn close<W>(self, inner: &mut ConnectionInner<W>) -> (first: ErrorOrigin)
        ensures
            ({
                let error = ErrorOrigin::Internal(
                    internal_error(Code::H3_NO_ERROR, "Connection driver dropped"),
                );
                &&& first == standing(old(inner).shared, error)
                &&& *final(inner) == (ConnectionInner {
                    shared: failed(old(inner).shared, error),
                    ..*old(inner)
                })
            }),
    {
        inner.handle_connection_error(
            ErrorOrigin::Internal(
                InternalConnectionError::new(Code::H3_NO_ERROR, "Connection driver dropped"),
            ),
        )
    }
}

/// What the frames of its control stream change of a client's connection.
#[verifier::ext_equal]
pub struct DriveView<W> {
    pub client: Connection,
    pub shared: SharedState,
    pub control: Option<StreamView>,
    pub qpack: QpackView<W>,
    pub got_peer_settings: bool,
}

pub open spec fn drive_view<W>(client: Connection, inner: ConnectionInner<W>) -> DriveView<W> {
    DriveView {
        client,
        shared: inner.shared,
        control: match inner.control_recv {
            Some(frames) => Some(frames@),
            None => None,
        },
        qpack: inner.qpack_streams@,
        got_peer_settings: inner.got_peer_settings,
    }
}

/// Whether nothing else of the connection has changed.
pub open spec fn driven<W>(before: ConnectionInner<W>, after: ConnectionInner<W>) -> bool {
    after == (ConnectionInner {
        shared: after.shared,
        control_recv: after.control_recv,
        qpack_streams: after.qpack_streams,
        got_peer_settings: after.got_peer_settings,
        ..before
    })
}

/// How many bytes of the control stream have not been read.
pub open spec fn control_bytes<W>(v: DriveView<W>) -> nat {
    match v.control {
        Some(stream) => joined(stream.chunks).len(),
        None => 0,
    }
}

/// The connection with a frame that is permitted on its control stream, and whether there are
/// encoder instructions to send.
pub open spec fn with_control_frame<W>(
    config: Config,
    v: DriveView<W>,
    frame: FrameView<PayloadLen>,
) -> (DriveView<W>, bool) {
    match frame {
        FrameView::Settings(entries) => {
            let peer = effective(entries);
            (
                DriveView {
                    got_peer_settings: true,
                    shared: match v.shared.settings {
                        Some(_) => v.shared,
                        None => SharedState { settings: Some(peer), ..v.shared },
                    },
                    qpack: QpackView {
                        encoder: configured_encoder(v.qpack.encoder, config, peer),
                        ..v.qpack
                    },
                    ..v
                },
                used_capacity(config, peer) != 0,
            )
        },
        _ => (v, false),
    }
}

/// The connection with a frame that a client accepts.
pub open spec fn with_client_frame<W>(v: DriveView<W>, frame: FrameView<PayloadLen>) -> DriveView<W> {
    match frame {
        FrameView::Goaway(id) => DriveView {
            client: Connection { recv_closing: Some(id), ..v.client },
            shared: SharedState {
                closing: true,
                peer_goaway: if id < v.shared.peer_goaway {
                    id
                } else {
                    v.shared.peer_goaway
                },
                ..v.shared
            },
            ..v
        },
        _ => v,
    }
}

/// What all the frames that a control stream has delivered come to: why the connection is to
/// be closed, where it is, whether there are encoder instructions to send, and the connection
/// after them.
pub open spec fn drive_spec<W>(config: Config, v: DriveView<W>) -> (
    Poll<ErrorOrigin>,
    bool,
    DriveView<W>,
)
    decreases control_bytes(v),
{
    match v.control {
        None => (Poll::Pending, false, v),
        Some(stream) => {
            let (step, after) = poll_next_spec(stream);
            let read = DriveView { control: Some(after), ..v };
            match control_read(step) {
                None => (Poll::Pending, false, read),
                Some(next) => match control_failure(v.got_peer_settings, next) {
                    Some(error) => (
                        Poll::Ready(standing(v.shared, error)),
                        false,
                        DriveView { shared: failed(v.shared, error), ..read },
                    ),
                    None => {
                        let frame = next->Ok_0->Some_0;
                        let (taken, flush) = with_control_frame(config, read, frame);
                        match client_failure(v.client.recv_closing, frame) {
                            Some(error) => (
                                Poll::Ready(standing(taken.shared, error)),
                                flush,
                                DriveView { shared: failed(taken.shared, error), ..taken },
                            ),
                            None => {
                                let next = with_client_frame(taken, frame);
                                if control_bytes(next) < control_bytes(v) {
                                    let (closed, later, end) = drive_spec(config, next);
                                    (closed, flush || later, end)
                                } else {
                                    (Poll::Pending, flush, next)
                                }
                            },
                        }
                    },
                },
            }
        },
    }
}

/// What a frame of the control stream means for a client, where it fails the connection.
pub open spec fn client_failure(recv_closing: Option<u64>, frame: FrameView<PayloadLen>) -> Option<
    ErrorOrigin,
> {
    match frame {
        FrameView::Settings(_) => None,
        FrameView::Goaway(id) => if id % 4 != 0 {
            Some(
                ErrorOrigin::Internal(
                    detailed_error(
                        Code::H3_ID_ERROR,
                        "non-request StreamId in a GoAway frame: {}",
                        Detail::Number(id),
                    ),
                ),
            )
        } else if !goaway_follows(recv_closing, id) {
            Some(greater_goaway(recv_closing, id))
        } else {
            None
        },
        _ => Some(
            ErrorOrigin::Internal(
                detailed_error(
                    Code::H3_FRAME_UNEXPECTED,
                    "on client control stream: {}",
                    Detail::Frame(summary_of(frame)),
                ),
            ),
        ),
    }
}

/// A GOAWAY that a client accepts rejects the requests from its identifier on, and no request
/// below it.
pub proof fn goaway_rejects_from_its_boundary(
    shared: SharedState,
    recv_closing: Option<u64>,
    id: u64,
    stream_id: StreamId,
)
    requires
        client_failure(recv_closing, FrameView::Goaway(id)) is None,
        id <= MAX_VARINT,
        shared.connection_error is None,
        shared.peer_goaway == match recv_closing {
            Some(previous) => previous,
            None => u64::MAX,
        },
    ensures
        ({
            let after = SharedState {
                closing: true,
                peer_goaway: if id < shared.peer_goaway {
                    id
                } else {
                    shared.peer_goaway
                },
                ..shared
            };
            &&& after.peer_goaway == id
            &&& request_error_spec(after, stream_id) == if stream_id.0 >= id {
                Some(StreamError::GoawayRejected { stream_id, boundary: StreamId(id) })
            } else {
                None
            }
        }),
{
}

} // verus!
