//! Streams without which a connection cannot go on.
use vstd::prelude::*;
use crate::error::{
    detailed_error, Code, Detail, ErrorOrigin, InternalConnectionError, StreamErrorIncoming,
};

verus! {

/// A stream that neither side may close.
///
/// See <https://www.rfc-editor.org/rfc/rfc9114.html#section-6.2.1> and
/// <https://www.rfc-editor.org/rfc/rfc9204.html#section-4.2>.
#[derive(Debug, Clone, Copy, PartialEq, Eq, Structural)]
pub enum CriticalStream {
    Control,
    QpackEncoder,
    QpackDecoder,
}

/// An error with the code that the peer gave.
pub open spec fn coded_error(code: Code, message: &'static str, error_code: u64) -> ErrorOrigin {
    ErrorOrigin::Internal(detailed_error(code, message, Detail::Number(error_code)))
}

/// An error that the transport knows more of.
pub open spec fn transport_error(code: Code, message: &'static str, error: u64) -> ErrorOrigin {
    ErrorOrigin::Internal(detailed_error(code, message, Detail::Transport(error)))
}

/// What it means that a critical stream could not be opened.
pub open spec fn open_failure(stream: CriticalStream, error: StreamErrorIncoming) -> ErrorOrigin {
    match error {
        StreamErrorIncoming::ConnectionErrorIncoming { connection_error } => ErrorOrigin::Transport(
            connection_error,
        ),
        StreamErrorIncoming::StreamTerminated { error_code } => coded_error(
            Code::H3_CLOSED_CRITICAL_STREAM,
            terminated_text(stream),
            error_code,
        ),
        // There is no critical stream yet that the peer could have closed.
        StreamErrorIncoming::Unknown(error) => transport_error(
            Code::H3_INTERNAL_ERROR,
            match stream {
                CriticalStream::Control => "failed to open control stream: {}",
                CriticalStream::QpackEncoder => "failed to open QPACK encoder stream: {}",
                CriticalStream::QpackDecoder => "failed to open QPACK decoder stream: {}",
            },
            error,
        ),
    }
}

pub open spec fn terminated_text(stream: CriticalStream) -> &'static str {
    match stream {
        CriticalStream::Control => "control stream was terminated with error code {}",
        CriticalStream::QpackEncoder => "QPACK encoder stream was terminated with error code {}",
        CriticalStream::QpackDecoder => "QPACK decoder stream was terminated with error code {}",
    }
}

/// What it means that the header of a critical stream could not be written.
pub open spec fn header_failure(stream: CriticalStream, error: StreamErrorIncoming) -> ErrorOrigin {
    match error {
        StreamErrorIncoming::ConnectionErrorIncoming { connection_error } => ErrorOrigin::Transport(
            connection_error,
        ),
        StreamErrorIncoming::StreamTerminated { error_code } => coded_error(
            Code::H3_CLOSED_CRITICAL_STREAM,
            terminated_text(stream),
            error_code,
        ),
        StreamErrorIncoming::Unknown(error) => transport_error(
            Code::H3_CLOSED_CRITICAL_STREAM,
            match stream {
                CriticalStream::Control => "failed to write control stream header: {}",
                CriticalStream::QpackEncoder => "failed to write QPACK encoder stream header: {}",
                CriticalStream::QpackDecoder => "failed to write QPACK decoder stream header: {}",
            },
            error,
        ),
    }
}

/// What it means that a critical stream failed while it was in use.
pub open spec fn use_failure(stream: CriticalStream, error: StreamErrorIncoming) -> ErrorOrigin {
    match error {
        StreamErrorIncoming::ConnectionErrorIncoming { connection_error } => ErrorOrigin::Transport(
            connection_error,
        ),
        StreamErrorIncoming::StreamTerminated { error_code } => coded_error(
            Code::H3_CLOSED_CRITICAL_STREAM,
            match stream {
                CriticalStream::Control => "control stream was reset with error code {}",
                CriticalStream::QpackEncoder => "QPACK encoder stream reset with error code {}",
                CriticalStream::QpackDecoder => "QPACK decoder stream reset with error code {}",
            },
            error_code,
        ),
        StreamErrorIncoming::Unknown(error) => transport_error(
            Code::H3_CLOSED_CRITICAL_STREAM,
            match stream {
                CriticalStream::Control => "an error occurred on the control stream {}",
                CriticalStream::QpackEncoder => "QPACK encoder stream error: {}",
                CriticalStream::QpackDecoder => "QPACK decoder stream error: {}",
            },
            error,
        ),
    }
}

/// What it means that a frame could not be written on the control stream.
pub open spec fn write_failure(error: StreamErrorIncoming) -> ErrorOrigin {
    match error {
        StreamErrorIncoming::StreamTerminated { error_code } => coded_error(
            Code::H3_CLOSED_CRITICAL_STREAM,
            "control stream was requested to stop sending with error code {}",
            error_code,
        ),
        _ => use_failure(CriticalStream::Control, error),
    }
}

fn coded(code: Code, message: &'static str, error_code: u64) -> (error: ErrorOrigin)
    ensures
        error == coded_error(code, message, error_code),
{
    ErrorOrigin::Internal(
        InternalConnectionError::with_detail(code, message, Detail::Number(error_code)),
    )
}

fn unknown(code: Code, message: &'static str, number: u64) -> (error: ErrorOrigin)
    ensures
        error == transport_error(code, message, number),
{
    ErrorOrigin::Internal(
        InternalConnectionError::with_detail(code, message, Detail::Transport(number)),
    )
}

fn terminated(stream: CriticalStream) -> (text: &'static str)
    ensures
        text == terminated_text(stream),
{
    match stream {
        CriticalStream::Control => "control stream was terminated with error code {}",
        CriticalStream::QpackEncoder => "QPACK encoder stream was terminated with error code {}",
        CriticalStream::QpackDecoder => "QPACK decoder stream was terminated with error code {}",
    }
}

/// Takes what came of opening a critical stream.
pub fn open_critical_send_stream(
    result: Result<(), StreamErrorIncoming>,
    stream: CriticalStream,
) -> (opened: Result<(), ErrorOrigin>)
    ensures
        opened == match result {
            Ok(()) => Ok::<(), ErrorOrigin>(()),
            Err(error) => Err(open_failure(stream, error)),
        },
{
    match result {
        Ok(()) => Ok(()),
        Err(StreamErrorIncoming::ConnectionErrorIncoming { connection_error }) => Err(
            ErrorOrigin::Transport(connection_error),
        ),
        Err(StreamErrorIncoming::StreamTerminated { error_code }) => Err(
            coded(Code::H3_CLOSED_CRITICAL_STREAM, terminated(stream), error_code),
        ),
        Err(StreamErrorIncoming::Unknown(error)) => Err(
            unknown(
                Code::H3_INTERNAL_ERROR,
                match stream {
                    CriticalStream::Control => "failed to open control stream: {}",
                    CriticalStream::QpackEncoder => "failed to open QPACK encoder stream: {}",
                    CriticalStream::QpackDecoder => "failed to open QPACK decoder stream: {}",
                },
                error,
            ),
        ),
    }
}

/// Takes what came of writing the header of a critical stream.
pub fn handle_critical_send_stream_result(
    result: Result<(), StreamErrorIncoming>,
    stream: CriticalStream,
) -> (written: Result<(), ErrorOrigin>)
    ensures
        written == match result {
            Ok(()) => Ok::<(), ErrorOrigin>(()),
            Err(error) => Err(header_failure(stream, error)),
        },
{
    match result {
        Ok(()) => Ok(()),
        Err(StreamErrorIncoming::ConnectionErrorIncoming { connection_error }) => Err(
            ErrorOrigin::Transport(connection_error),
        ),
        Err(StreamErrorIncoming::StreamTerminated { error_code }) => Err(
            coded(Code::H3_CLOSED_CRITICAL_STREAM, terminated(stream), error_code),
        ),
        Err(StreamErrorIncoming::Unknown(error)) => Err(
            unknown(
                Code::H3_CLOSED_CRITICAL_STREAM,
                match stream {
                    CriticalStream::Control => "failed to write control stream header: {}",
                    CriticalStream::QpackEncoder => "failed to write QPACK encoder stream header: {}",
                    CriticalStream::QpackDecoder => "failed to write QPACK decoder stream header: {}",
                },
                error,
            ),
        ),
    }
}

/// Takes that a critical stream failed while it was in use.
pub fn critical_stream_failed(error: StreamErrorIncoming, stream: CriticalStream) -> (origin: ErrorOrigin)
    ensures
        origin == use_failure(stream, error),
{
    match error {
        StreamErrorIncoming::ConnectionErrorIncoming { connection_error } => ErrorOrigin::Transport(
            connection_error,
        ),
        StreamErrorIncoming::StreamTerminated { error_code } => coded(
            Code::H3_CLOSED_CRITICAL_STREAM,
            match stream {
                CriticalStream::Control => "control stream was reset with error code {}",
                CriticalStream::QpackEncoder => "QPACK encoder stream reset with error code {}",
                CriticalStream::QpackDecoder => "QPACK decoder stream reset with error code {}",
            },
            error_code,
        ),
        StreamErrorIncoming::Unknown(error) => unknown(
            Code::H3_CLOSED_CRITICAL_STREAM,
            match stream {
                CriticalStream::Control => "an error occurred on the control stream {}",
                CriticalStream::QpackEncoder => "QPACK encoder stream error: {}",
                CriticalStream::QpackDecoder => "QPACK decoder stream error: {}",
            },
            error,
        ),
    }
}

/// Takes that a frame could not be written on the control stream.
pub fn control_write_failure(error: StreamErrorIncoming) -> (origin: ErrorOrigin)
    ensures
        origin == write_failure(error),
{
    match error {
        StreamErrorIncoming::StreamTerminated { error_code } => coded(
            Code::H3_CLOSED_CRITICAL_STREAM,
            "control stream was requested to stop sending with error code {}",
            error_code,
        ),
        _ => critical_stream_failed(error, CriticalStream::Control),
    }
}

/// Losing a critical stream never passes for anything but the loss of a critical stream, an
/// error of the transport, or, before it was open, an internal error.
pub proof fn critical_streams_fail_the_connection(stream: CriticalStream, error: StreamErrorIncoming)
    ensures
        use_failure(stream, error) matches ErrorOrigin::Internal(internal) ==> internal.code
            == Code::H3_CLOSED_CRITICAL_STREAM,
        write_failure(error) matches ErrorOrigin::Internal(internal) ==> internal.code
            == Code::H3_CLOSED_CRITICAL_STREAM,
        header_failure(stream, error) matches ErrorOrigin::Internal(internal) ==> internal.code
            == Code::H3_CLOSED_CRITICAL_STREAM,
        open_failure(stream, error) matches ErrorOrigin::Internal(internal) ==> internal.code
            == if error is Unknown {
            Code::H3_INTERNAL_ERROR
        } else {
            Code::H3_CLOSED_CRITICAL_STREAM
        },
{
}

} // verus!
