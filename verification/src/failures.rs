//! How what goes wrong is told, and what is given up for it.
//!
//! See <https://www.rfc-editor.org/rfc/rfc9114.html#section-8>.
use vstd::prelude::*;
use crate::client::{after_step, receive_rejection};
use crate::critical::{header_failure, open_failure, use_failure, write_failure, CriticalStream};
use crate::error::{
    code_value, frame_connection_error, Code, Detail, ErrorOrigin, StreamError, StreamErrorIncoming,
};
use crate::frame::{FrameProtocolError, FrameStreamError, Poll};
use crate::guard::{reading_finished, receiving_stopped, remaining_cancelled, StreamGuard};
use crate::proto::fields::{appended, distinct_names, has_field};
use crate::proto::frame::SettingsError;
use crate::proto::headers::{overfull, parsed_section};
use crate::qpack::decoder::{stateless_spec, Decoder, DecoderError};
use crate::qpack::field::FieldView;
use crate::qpack::shared::QpackEvent;
use crate::quic::{StreamId, MAX_VARINT};
use crate::recv_control::{
    acknowledges, received, stopped, told, waits_for, QpackReceive, ReceiveState,
};
use crate::request::{abandoned, blocked_on, finished, DecodeView, DecoderGuard, Events};
use crate::request_stream::{response_refused, response_spec, RecvFailure, RecvView};
use crate::shared_state::{frame_failure, stream_failure, SharedState};

verus! {

/// The codes have the numbers that the protocols give them.
///
/// See <https://www.rfc-editor.org/rfc/rfc9114.html#section-8.1>,
/// <https://www.rfc-editor.org/rfc/rfc9204.html#section-6> and
/// <https://www.rfc-editor.org/rfc/rfc9297.html#section-5.2>.
pub proof fn codes_are_registered_numbers(value: u64)
    ensures
        code_value(Code::H3_DATAGRAM_ERROR) == 0x33,
        code_value(Code::H3_NO_ERROR) == 0x100,
        code_value(Code::H3_GENERAL_PROTOCOL_ERROR) == 0x101,
        code_value(Code::H3_INTERNAL_ERROR) == 0x102,
        code_value(Code::H3_STREAM_CREATION_ERROR) == 0x103,
        code_value(Code::H3_CLOSED_CRITICAL_STREAM) == 0x104,
        code_value(Code::H3_FRAME_UNEXPECTED) == 0x105,
        code_value(Code::H3_FRAME_ERROR) == 0x106,
        code_value(Code::H3_EXCESSIVE_LOAD) == 0x107,
        code_value(Code::H3_ID_ERROR) == 0x108,
        code_value(Code::H3_SETTINGS_ERROR) == 0x109,
        code_value(Code::H3_MISSING_SETTINGS) == 0x10a,
        code_value(Code::H3_REQUEST_REJECTED) == 0x10b,
        code_value(Code::H3_REQUEST_CANCELLED) == 0x10c,
        code_value(Code::H3_REQUEST_INCOMPLETE) == 0x10d,
        code_value(Code::H3_MESSAGE_ERROR) == 0x10e,
        code_value(Code::H3_CONNECT_ERROR) == 0x10f,
        code_value(Code::H3_VERSION_FALLBACK) == 0x110,
        code_value(Code::QPACK_DECOMPRESSION_FAILED) == 0x200,
        code_value(Code::QPACK_ENCODER_STREAM_ERROR) == 0x201,
        code_value(Code::QPACK_DECODER_STREAM_ERROR) == 0x202,
        code_value(Code::Other(value)) == value,
{
}

/// What the transport tells of a request's stream is told on as it is: the peer's code, or the
/// transport's own number. Only a failure of the connection fails the connection, and then
/// the first one stands.
pub proof fn stream_failures_are_told_as_they_are(state: SharedState, number: u64)
    ensures
        stream_failure(state, StreamErrorIncoming::StreamTerminated { error_code: number }) == (
            StreamError::RemoteTerminate { remote_code: number },
            state,
        ),
        stream_failure(state, StreamErrorIncoming::Unknown(number)) == (
            StreamError::Undefined(number),
            state,
        ),
        ({
            let (told, after) = stream_failure(
                state,
                StreamErrorIncoming::ConnectionErrorIncoming { connection_error: number },
            );
            match state.connection_error {
                None => {
                    &&& told == StreamError::ConnectionError(ErrorOrigin::Transport(number))
                    &&& after == (SharedState {
                        connection_error: Some(ErrorOrigin::Transport(number)),
                        ..state
                    })
                },
                Some(first) => told == StreamError::ConnectionError(first) && after == state,
            }
        }),
{
}

/// What breaks the protocol on a request's stream fails the connection, with the code for what
/// is wrong.
///
/// See <https://www.rfc-editor.org/rfc/rfc9114.html#section-8.1>.
pub proof fn frame_failures_fail_the_connection(state: SharedState, error: FrameStreamError)
    requires
        state.connection_error is None,
        !(error is Quic),
    ensures
        ({
            let (told, after) = frame_failure(state, error);
            &&& told matches StreamError::ConnectionError(ErrorOrigin::Internal(internal))
            &&& after == (SharedState {
                connection_error: Some(ErrorOrigin::Internal(internal)),
                ..state
            })
            &&& internal.code == match error {
                FrameStreamError::Proto(FrameProtocolError::ForbiddenFrame(_)) => {
                    Code::H3_FRAME_UNEXPECTED
                },
                FrameStreamError::Proto(FrameProtocolError::ExcessiveLoad { .. }) => {
                    Code::H3_EXCESSIVE_LOAD
                },
                FrameStreamError::Proto(FrameProtocolError::Settings(_)) => Code::H3_SETTINGS_ERROR,
                FrameStreamError::Proto(FrameProtocolError::InvalidStreamId(_)) => Code::H3_ID_ERROR,
                FrameStreamError::Proto(FrameProtocolError::InvalidPushId(_)) => Code::H3_ID_ERROR,
                _ => Code::H3_FRAME_ERROR,
            }
        }),
{
}

/// What an error in a frame is about is told with it.
pub proof fn frame_errors_tell_what_is_wrong(
    number: u64,
    limit: usize,
    error: SettingsError,
)
    ensures
        frame_connection_error(FrameProtocolError::ForbiddenFrame(number)).detail == Some(
            Detail::Number(number),
        ),
        frame_connection_error(FrameProtocolError::InvalidStreamId(number)).detail == Some(
            Detail::Number(number),
        ),
        frame_connection_error(FrameProtocolError::InvalidPushId(number)).detail == Some(
            Detail::Number(number),
        ),
        frame_connection_error(
            FrameProtocolError::ExcessiveLoad { len: number, limit },
        ).detail == Some(Detail::Number(number)),
        frame_connection_error(FrameProtocolError::Settings(error)).detail == Some(
            Detail::Settings(error),
        ),
{
}

/// The loss of a critical stream is told with what is known of it: the peer's code, or the
/// number under which the transport knows more.
pub proof fn critical_failures_are_told_as_they_are(stream: CriticalStream, number: u64)
    ensures
        ({
            let error = StreamErrorIncoming::StreamTerminated { error_code: number };
            &&& open_failure(stream, error) matches ErrorOrigin::Internal(internal)
                && internal.detail == Some(Detail::Number(number)) && internal.code
                == Code::H3_CLOSED_CRITICAL_STREAM
            &&& header_failure(stream, error) matches ErrorOrigin::Internal(internal)
                && internal.detail == Some(Detail::Number(number)) && internal.code
                == Code::H3_CLOSED_CRITICAL_STREAM
            &&& use_failure(stream, error) matches ErrorOrigin::Internal(internal)
                && internal.detail == Some(Detail::Number(number)) && internal.code
                == Code::H3_CLOSED_CRITICAL_STREAM
            &&& write_failure(error) matches ErrorOrigin::Internal(internal) && internal.detail
                == Some(Detail::Number(number)) && internal.code == Code::H3_CLOSED_CRITICAL_STREAM
        }),
        ({
            let error = StreamErrorIncoming::Unknown(number);
            &&& open_failure(stream, error) matches ErrorOrigin::Internal(internal)
                && internal.detail == Some(Detail::Transport(number))
            &&& header_failure(stream, error) matches ErrorOrigin::Internal(internal)
                && internal.detail == Some(Detail::Transport(number))
            &&& use_failure(stream, error) matches ErrorOrigin::Internal(internal)
                && internal.detail == Some(Detail::Transport(number))
            &&& write_failure(error) matches ErrorOrigin::Internal(internal) && internal.detail
                == Some(Detail::Transport(number))
        }),
        ({
            let error = StreamErrorIncoming::ConnectionErrorIncoming { connection_error: number };
            &&& open_failure(stream, error) == ErrorOrigin::Transport(number)
            &&& header_failure(stream, error) == ErrorOrigin::Transport(number)
            &&& use_failure(stream, error) == ErrorOrigin::Transport(number)
            &&& write_failure(error) == ErrorOrigin::Transport(number)
        }),
{
}

/// An operation that has come to something is told that; one that waits goes on waiting, unless
/// the peer does not process the request, or the connection has failed.
pub proof fn finished_operations_stand<T>(
    shared: SharedState,
    stream_id: StreamId,
    result: Result<T, StreamError>,
)
    ensures
        after_step(shared, stream_id, Poll::Ready(result)) == Poll::Ready(result),
        shared.peer_goaway <= MAX_VARINT && stream_id.0 >= shared.peer_goaway ==> after_step::<T>(
            shared,
            stream_id,
            Poll::Pending,
        ) == Poll::Ready(
            Err::<T, StreamError>(
                StreamError::GoawayRejected { stream_id, boundary: StreamId(shared.peer_goaway) },
            ),
        ),
        stream_id.0 < shared.peer_goaway && shared.connection_error is None ==> after_step::<T>(
            shared,
            stream_id,
            Poll::Pending,
        ) == Poll::<Result<T, StreamError>>::Pending,
        stream_id.0 < shared.peer_goaway ==> (shared.connection_error matches Some(error)
            ==> after_step::<T>(shared, stream_id, Poll::Pending) == Poll::Ready(
            Err::<T, StreamError>(StreamError::ConnectionError(error)),
        )),
{
}

/// Receiving that was stopped here is refused with the code that it was stopped with, on a
/// request that the peer processes and a connection that has not failed.
pub proof fn stopped_receiving_is_refused(
    shared: SharedState,
    stream_id: StreamId,
    control: Option<ReceiveState>,
)
    requires
        stream_id.0 < shared.peer_goaway,
        shared.connection_error is None,
    ensures
        match control {
            Some(state) => match state.canceled {
                Some(code) => receive_rejection(shared, stream_id, control) matches Some(
                    StreamError::StreamError { code: told, reason },
                ) && told == code,
                None => receive_rejection(shared, stream_id, control) is None,
            },
            None => receive_rejection(shared, stream_id, control) is None,
        },
{
}

proof fn lemma_few_names(fields: Seq<FieldView>)
    ensures
        parsed_section(fields) matches Ok(header) ==> header.fields.len() <= fields.len()
            && distinct_names(header.fields) <= fields.len(),
    decreases fields.len(),
{
    if fields.len() > 0 {
        lemma_few_names(fields.drop_last());
        if let Ok(header) = parsed_section(fields) {
            let before = parsed_section(fields.drop_last())->Ok_0;
            let line = fields.last();
            lemma_one_more(before.fields, line.name, line.value, line.sensitive);
            lemma_names_are_fields(header.fields);
        }
    }
}

proof fn lemma_one_more(
    entries: Seq<(Seq<u8>, Seq<u8>, bool)>,
    name: Seq<u8>,
    value: Seq<u8>,
    sensitive: bool,
)
    ensures
        appended(entries, name, value, sensitive).len() == entries.len() + 1,
    decreases entries.len(),
{
    if has_field(entries, name) && entries.last().0 != name {
        lemma_one_more(entries.drop_last(), name, value, sensitive);
    }
}

proof fn lemma_names_are_fields(entries: Seq<(Seq<u8>, Seq<u8>, bool)>)
    ensures
        distinct_names(entries) <= entries.len(),
    decreases entries.len(),
{
    if entries.len() > 0 {
        lemma_names_are_fields(entries.drop_last());
    }
}

/// A response that has a status and whose fields make a section is not refused, as long as it
/// has no more than 6554 field lines.
pub proof fn sound_responses_are_not_refused(failure: RecvFailure, fields: Seq<FieldView>)
    requires
        fields.len() <= 6554,
        parsed_section(fields) matches Ok(header) && header.pseudo.status is Some,
    ensures
        !overfull(fields),
        !response_refused(failure, fields),
{
    if overfull(fields) {
        let n = choose|n: int|
            0 <= n < fields.len() && parsed_section(#[trigger] fields.take(n)) is Ok
                && distinct_names(parsed_section(fields.take(n))->Ok_0.fields) >= 6554;
        lemma_few_names(fields.take(n));
    }
}

/// A response that is refused is refused as malformed, and the peer is asked to stop sending it.
pub proof fn refused_responses_are_malformed(failure: RecvFailure, fields: Seq<FieldView>)
    requires
        response_refused(failure, fields),
    ensures
        failure.error matches StreamError::StreamError { code, reason } && code
            == Code::H3_MESSAGE_ERROR,
        failure.stop == Some(Code::H3_MESSAGE_ERROR),
        failure.cause is Some,
{
}

/// A section that cannot be decoded fails the connection, except where it is only too large.
///
/// See <https://www.rfc-editor.org/rfc/rfc9204.html#section-6>.
pub proof fn undecodable_responses_fail_the_connection<W>(
    v: RecvView<W>,
    section: Seq<u8>,
    limit: usize,
    error: DecoderError,
    decoder: Decoder,
    waker: W,
)
    requires
        v.request.decode == DecodeView::Stateless(limit),
        stateless_spec(limit, v.request.max_field_section_size, section).0 == Err::<
            crate::qpack::decoder::DecodedView,
            DecoderError,
        >(error),
        v.shared.connection_error is None,
    ensures
        ({
            let (step, waiting, after) = response_spec(v, Some(section), decoder, waker);
            &&& waiting is None
            &&& step is Err
            &&& !(error is HeaderTooLong) ==> {
                &&& step->Err_0.error matches StreamError::ConnectionError(
                    ErrorOrigin::Internal(internal),
                )
                &&& internal.code == if error is Internal {
                    Code::H3_INTERNAL_ERROR
                } else {
                    Code::QPACK_DECOMPRESSION_FAILED
                }
                &&& internal.detail == Some(Detail::Decoder(error))
                &&& after.shared.connection_error == Some(ErrorOrigin::Internal(internal))
            }
            &&& error matches DecoderError::HeaderTooLong(size) ==> {
                &&& step->Err_0.error == StreamError::HeaderTooBig {
                    actual_size: size,
                    max_size: v.request.max_field_section_size,
                }
                &&& step->Err_0.stop == Some(Code::H3_REQUEST_CANCELLED)
                &&& after.shared == v.shared
            }
        }),
{
}

/// Giving up a stream tells the peer's encoder so, once, and takes the stream off those that
/// wait; a stream that was read to its end is only taken off.
///
/// See <https://www.rfc-editor.org/rfc/rfc9204.html#section-2.2.2.2>.
pub proof fn given_up_streams_are_told_of<W>(guard: DecoderGuard, events: Seq<QpackEvent<W>>)
    ensures
        ({
            let stream_id = guard.stream_id;
            let off = match guard.blocked {
                Some(required_ref) => events.push(
                    QpackEvent::ReleaseBlocked { stream_id, required_ref },
                ),
                None => events,
            };
            let (after, queued, run) = abandoned(guard, (events, false));
            let (done, left) = finished(guard, (events, false));
            &&& queued == if guard.cancel_on_drop {
                (off.push(QpackEvent::StreamCancel(stream_id)), false)
            } else {
                (off, false)
            }
            &&& run == guard.cancel_on_drop
            &&& after == (DecoderGuard { cancel_on_drop: false, blocked: None, ..guard })
            &&& left == (off, false)
            &&& done == (DecoderGuard { cancel_on_drop: false, blocked: None, ..guard })
        }),
{
}

/// A stream that waits is registered with the insertions that it waits for and what wakes it,
/// and is taken off first where it waited for others. Where no stream may wait, it is an
/// error.
pub proof fn waiting_streams_are_registered<W>(
    guard: DecoderGuard,
    required_ref: usize,
    waker: W,
    events: Seq<QpackEvent<W>>,
)
    ensures
        ({
            let stream_id = guard.stream_id;
            let (result, after, queued) = blocked_on(guard, required_ref, waker, (events, false));
            let off = if guard.blocked matches Some(other) && other != required_ref {
                events.push(
                    QpackEvent::ReleaseBlocked {
                        stream_id,
                        required_ref: guard.blocked->Some_0,
                    },
                )
            } else {
                events
            };
            if guard.decoder.allows_blocking {
                &&& result is Ok
                &&& queued == (
                    off.push(QpackEvent::RegisterBlocked { stream_id, required_ref, waker }),
                    false,
                )
                &&& after == (DecoderGuard { blocked: Some(required_ref), ..guard })
            } else {
                &&& result == Err::<(), DecoderError>(DecoderError::TooManyBlockedStreams)
                &&& queued == (off, false)
            }
        }),
{
}

/// Stopping a direction is told with the code that it is stopped with, and settles its field
/// sections: what waits is taken off, and the peer's encoder is told where it has to be.
pub proof fn stopping_settles_field_sections<W>(
    state: ReceiveState,
    qpack: QpackReceive,
    code: Code,
    events: Seq<QpackEvent<W>>,
)
    requires
        !state.finished,
        state.qpack == Some(qpack),
    ensures
        ({
            let stream_id = qpack.stream_id;
            let (told, after, queued) = stopped(state, code, (events, false));
            let off = match state.blocked {
                Some(required_ref) => events.push(
                    QpackEvent::ReleaseBlocked { stream_id, required_ref },
                ),
                None => events,
            };
            &&& state.canceled is None ==> told == Some(code)
            &&& state.canceled is Some ==> told == state.canceled
            &&& after.canceled == told
            &&& after.blocked is None
            &&& !after.cancel_qpack
            &&& !after.finished
            &&& queued == if state.cancel_qpack {
                (off.push(QpackEvent::StreamCancel(stream_id)), false)
            } else {
                (off, false)
            }
        }),
        state.canceled is None ==> {
            let (first, after, queued) = received(state, (events, false));
            &&& first
            &&& after.finished
            &&& after.canceled is None
            &&& queued == match state.blocked {
                Some(required_ref) => (
                    events.push(
                        QpackEvent::ReleaseBlocked { stream_id: qpack.stream_id, required_ref },
                    ),
                    false,
                ),
                None => (events, false),
            }
        },
{
}

/// A direction that is received from waits and acknowledges as its stream does.
pub proof fn open_directions_wait_and_acknowledge<W>(
    state: ReceiveState,
    qpack: QpackReceive,
    required_ref: usize,
    waker: W,
    events: Seq<QpackEvent<W>>,
)
    requires
        !state.finished,
        state.canceled is None,
        state.qpack == Some(qpack),
        state.blocked is None,
    ensures
        ({
            let (result, after, queued) = waits_for(state, required_ref, waker, (events, false));
            if qpack.decoder.allows_blocking {
                &&& result is Ok
                &&& after == (ReceiveState { blocked: Some(required_ref), ..state })
                &&& queued == (
                    events.push(
                        QpackEvent::RegisterBlocked {
                            stream_id: qpack.stream_id,
                            required_ref,
                            waker,
                        },
                    ),
                    false,
                )
            } else {
                &&& result == Err::<(), DecoderError>(DecoderError::TooManyBlockedStreams)
                &&& queued == (events, false)
            }
        }),
        acknowledges(state, true),
        !acknowledges(state, false),
{
}

/// Letting go of a stream cancels the directions that are open, with the code for a request that
/// is cancelled, or with the code that receiving was stopped with before.
///
/// See <https://www.rfc-editor.org/rfc/rfc9114.html#section-4.1.1>.
pub proof fn open_directions_are_cancelled<W>(
    guard: StreamGuard,
    control: Option<ReceiveState>,
    code: Code,
    events: Events<W>,
)
    ensures
        ({
            let (done, after, held, queued) = remaining_cancelled(guard, control, events);
            &&& done.reset == if guard.reset_on_drop {
                Some(Code::H3_REQUEST_CANCELLED)
            } else {
                None
            }
            &&& !guard.stop_sending_on_drop ==> done.stop is None && queued == events
            &&& guard.stop_sending_on_drop && control is None ==> done.stop == Some(
                match guard.recv_stop_code {
                    Some(first) => first,
                    None => Code::H3_REQUEST_CANCELLED,
                },
            )
            &&& guard.stop_sending_on_drop ==> (control matches Some(state) ==> {
                &&& state.finished ==> done.stop is None
                &&& !state.finished && state.canceled is None ==> done.stop == Some(
                    Code::H3_REQUEST_CANCELLED,
                )
                &&& !state.finished && state.canceled is Some ==> done.stop == state.canceled
            })
            &&& after == (StreamGuard {
                reset_on_drop: false,
                stop_sending_on_drop: false,
                ..guard
            })
        }),
        ({
            let (stop, after, held, queued) = receiving_stopped(guard, control, code, events);
            &&& control is None && guard.recv_stop_code is None ==> stop == Some(code)
            &&& control is None ==> (guard.recv_stop_code matches Some(first) ==> stop == Some(
                first,
            ))
            &&& control matches Some(state) ==> {
                &&& state.finished ==> stop is None && after == guard
                &&& !state.finished && state.canceled is None ==> stop == Some(code)
                &&& !state.finished && state.canceled is Some ==> stop == state.canceled
            }
            &&& stop is Some ==> after.recv_stop_code == stop && !after.stop_sending_on_drop
            &&& after.reset_on_drop == guard.reset_on_drop
        }),
{
}

/// A direction on which the message was received is not stopped when its stream is let go; one
/// that was stopped before stays stopped.
pub proof fn received_directions_are_not_cancelled<W>(
    guard: StreamGuard,
    control: Option<ReceiveState>,
    events: Events<W>,
)
    ensures
        ({
            let (after, held, queued) = reading_finished(guard, control, events);
            &&& after.reset_on_drop == guard.reset_on_drop
            &&& control is None ==> !after.stop_sending_on_drop && queued == events
            &&& control matches Some(state) ==> {
                &&& state.canceled is None ==> !after.stop_sending_on_drop && (held
                    matches Some(later) && later.finished)
                &&& state.canceled is Some ==> after == guard && held == control && queued
                    == events
            }
            &&& !after.stop_sending_on_drop ==> remaining_cancelled(after, held, queued).0.stop
                is None
        }),
{
}

/// A reader whose direction was stopped is told the code of the stop, unless the protocol
/// found something else wrong; a reader whose direction was not stopped is told what its
/// operation came to.
pub proof fn readers_are_told_of_stops<T>(
    state: ReceiveState,
    result: Poll<Result<T, StreamError>>,
    code: Code,
)
    ensures
        state.canceled is None ==> told(state, result) == result,
        state.canceled == Some(code) && !(result matches Poll::Ready(Err(error)) && error
            !is Undefined) ==> (told(state, result) matches Poll::Ready(
            Err(StreamError::StreamError { code: given, reason }),
        ) && given == code),
        (result matches Poll::Ready(Err(error)) && error !is Undefined) ==> told(state, result)
            == result,
{
}

} // verus!
