//! Error codes, and the errors of connections and streams.
use vstd::prelude::*;
use crate::frame::FrameProtocolError;
use crate::proto::frame::{FrameSummary, SettingsError};
use crate::qpack::decoder::DecoderError;
use crate::qpack::encoder::EncoderError;
use crate::quic::StreamId;

verus! {

/// An HTTP/3 or QPACK error code.
///
/// See <https://www.rfc-editor.org/rfc/rfc9114.html#section-8.1>.
#[allow(non_camel_case_types)]
#[derive(Debug, Clone, Copy, PartialEq, Eq, Structural)]
pub enum Code {
    H3_DATAGRAM_ERROR,
    H3_NO_ERROR,
    H3_GENERAL_PROTOCOL_ERROR,
    H3_INTERNAL_ERROR,
    H3_STREAM_CREATION_ERROR,
    H3_CLOSED_CRITICAL_STREAM,
    H3_FRAME_UNEXPECTED,
    H3_FRAME_ERROR,
    H3_EXCESSIVE_LOAD,
    H3_ID_ERROR,
    H3_SETTINGS_ERROR,
    H3_MISSING_SETTINGS,
    H3_REQUEST_REJECTED,
    H3_REQUEST_CANCELLED,
    H3_REQUEST_INCOMPLETE,
    H3_MESSAGE_ERROR,
    H3_CONNECT_ERROR,
    H3_VERSION_FALLBACK,
    QPACK_DECOMPRESSION_FAILED,
    QPACK_ENCODER_STREAM_ERROR,
    QPACK_DECODER_STREAM_ERROR,
    Other(u64),
}

/// The number of a code.
pub open spec fn code_value(code: Code) -> u64 {
    match code {
        Code::H3_DATAGRAM_ERROR => 0x33,
        Code::H3_NO_ERROR => 0x100,
        Code::H3_GENERAL_PROTOCOL_ERROR => 0x101,
        Code::H3_INTERNAL_ERROR => 0x102,
        Code::H3_STREAM_CREATION_ERROR => 0x103,
        Code::H3_CLOSED_CRITICAL_STREAM => 0x104,
        Code::H3_FRAME_UNEXPECTED => 0x105,
        Code::H3_FRAME_ERROR => 0x106,
        Code::H3_EXCESSIVE_LOAD => 0x107,
        Code::H3_ID_ERROR => 0x108,
        Code::H3_SETTINGS_ERROR => 0x109,
        Code::H3_MISSING_SETTINGS => 0x10a,
        Code::H3_REQUEST_REJECTED => 0x10b,
        Code::H3_REQUEST_CANCELLED => 0x10c,
        Code::H3_REQUEST_INCOMPLETE => 0x10d,
        Code::H3_MESSAGE_ERROR => 0x10e,
        Code::H3_CONNECT_ERROR => 0x10f,
        Code::H3_VERSION_FALLBACK => 0x110,
        Code::QPACK_DECOMPRESSION_FAILED => 0x200,
        Code::QPACK_ENCODER_STREAM_ERROR => 0x201,
        Code::QPACK_DECODER_STREAM_ERROR => 0x202,
        Code::Other(value) => value,
    }
}

impl Code {
    /// The number of the code.
    pub fn value(&self) -> (value: u64)
        ensures
            value == code_value(*self),
    {
        match self {
            Code::H3_DATAGRAM_ERROR => 0x33,
            Code::H3_NO_ERROR => 0x100,
            Code::H3_GENERAL_PROTOCOL_ERROR => 0x101,
            Code::H3_INTERNAL_ERROR => 0x102,
            Code::H3_STREAM_CREATION_ERROR => 0x103,
            Code::H3_CLOSED_CRITICAL_STREAM => 0x104,
            Code::H3_FRAME_UNEXPECTED => 0x105,
            Code::H3_FRAME_ERROR => 0x106,
            Code::H3_EXCESSIVE_LOAD => 0x107,
            Code::H3_ID_ERROR => 0x108,
            Code::H3_SETTINGS_ERROR => 0x109,
            Code::H3_MISSING_SETTINGS => 0x10a,
            Code::H3_REQUEST_REJECTED => 0x10b,
            Code::H3_REQUEST_CANCELLED => 0x10c,
            Code::H3_REQUEST_INCOMPLETE => 0x10d,
            Code::H3_MESSAGE_ERROR => 0x10e,
            Code::H3_CONNECT_ERROR => 0x10f,
            Code::H3_VERSION_FALLBACK => 0x110,
            Code::QPACK_DECOMPRESSION_FAILED => 0x200,
            Code::QPACK_ENCODER_STREAM_ERROR => 0x201,
            Code::QPACK_DECODER_STREAM_ERROR => 0x202,
            Code::Other(value) => *value,
        }
    }
}

/// What the message of an error is about.
#[derive(Debug, Clone, Copy, PartialEq, Eq)]
pub enum Detail {
    /// A code or an identifier.
    Number(u64),
    Numbers(u64, u64),
    /// An error of the transport, which knows more of it under this number.
    Transport(u64),
    Frame(FrameSummary),
    Settings(SettingsError),
    Encoder(EncoderError),
    Decoder(DecoderError),
}

/// Why this endpoint closes the connection.
#[derive(Debug, Clone, Copy, PartialEq, Eq)]
pub struct InternalConnectionError {
    pub code: Code,
    /// The message, with `{}` where its detail stands.
    pub message: &'static str,
    pub detail: Option<Detail>,
}

/// An error without a detail.
pub open spec fn internal_error(code: Code, message: &'static str) -> InternalConnectionError {
    InternalConnectionError { code, message, detail: None }
}

/// An error with what its message is about.
pub open spec fn detailed_error(
    code: Code,
    message: &'static str,
    detail: Detail,
) -> InternalConnectionError {
    InternalConnectionError { code, message, detail: Some(detail) }
}

impl InternalConnectionError {
    pub fn new(code: Code, message: &'static str) -> (error: Self)
        ensures
            error == internal_error(code, message),
    {
        InternalConnectionError { code, message, detail: None }
    }

    pub fn with_detail(code: Code, message: &'static str, detail: Detail) -> (error: Self)
        ensures
            error == detailed_error(code, message, detail),
    {
        InternalConnectionError { code, message, detail: Some(detail) }
    }

    /// The error that a frame means which breaks the protocol.
    ///
    /// See <https://www.rfc-editor.org/rfc/rfc9114.html#section-8.1>.
    pub fn got_frame_error(error: FrameProtocolError) -> (mapped: Self)
        ensures
            mapped == frame_connection_error(error),
    {
        match error {
            FrameProtocolError::Malformed => InternalConnectionError::new(
                Code::H3_FRAME_ERROR,
                "received a malformed frame",
            ),
            FrameProtocolError::ForbiddenFrame(ty) => InternalConnectionError::with_detail(
                Code::H3_FRAME_UNEXPECTED,
                "received a forbidden frame: {}",
                Detail::Number(ty),
            ),
            FrameProtocolError::InvalidFrameValue => InternalConnectionError::new(
                Code::H3_FRAME_ERROR,
                "received a frame with an invalid value",
            ),
            FrameProtocolError::ExcessiveLoad { len, .. } => InternalConnectionError::with_detail(
                Code::H3_EXCESSIVE_LOAD,
                "received a field section that is too large: {}",
                Detail::Number(len),
            ),
            FrameProtocolError::Settings(error) => InternalConnectionError::with_detail(
                Code::H3_SETTINGS_ERROR,
                "received invalid settings: {}",
                Detail::Settings(error),
            ),
            FrameProtocolError::InvalidStreamId(id) => InternalConnectionError::with_detail(
                Code::H3_ID_ERROR,
                "received an invalid stream identifier: {}",
                Detail::Number(id),
            ),
            FrameProtocolError::InvalidPushId(id) => InternalConnectionError::with_detail(
                Code::H3_ID_ERROR,
                "received an invalid push identifier: {}",
                Detail::Number(id),
            ),
        }
    }
}

/// The error that a frame means which breaks the protocol.
pub open spec fn frame_connection_error(error: FrameProtocolError) -> InternalConnectionError {
    match error {
        FrameProtocolError::Malformed => internal_error(
            Code::H3_FRAME_ERROR,
            "received a malformed frame",
        ),
        FrameProtocolError::ForbiddenFrame(ty) => detailed_error(
            Code::H3_FRAME_UNEXPECTED,
            "received a forbidden frame: {}",
            Detail::Number(ty),
        ),
        FrameProtocolError::InvalidFrameValue => internal_error(
            Code::H3_FRAME_ERROR,
            "received a frame with an invalid value",
        ),
        FrameProtocolError::ExcessiveLoad { len, .. } => detailed_error(
            Code::H3_EXCESSIVE_LOAD,
            "received a field section that is too large: {}",
            Detail::Number(len),
        ),
        FrameProtocolError::Settings(error) => detailed_error(
            Code::H3_SETTINGS_ERROR,
            "received invalid settings: {}",
            Detail::Settings(error),
        ),
        FrameProtocolError::InvalidStreamId(id) => detailed_error(
            Code::H3_ID_ERROR,
            "received an invalid stream identifier: {}",
            Detail::Number(id),
        ),
        FrameProtocolError::InvalidPushId(id) => detailed_error(
            Code::H3_ID_ERROR,
            "received an invalid push identifier: {}",
            Detail::Number(id),
        ),
    }
}

/// A connection error: raised here, or told by the transport, which knows more of it under a
/// number.
#[derive(Debug, Clone, Copy, PartialEq, Eq)]
pub enum ErrorOrigin {
    Internal(InternalConnectionError),
    Transport(u64),
}

/// How a stream of the transport fails.
#[derive(Debug, Clone, Copy, PartialEq, Eq, Structural)]
pub enum StreamErrorIncoming {
    /// The connection failed; the transport knows more of it under this number.
    ConnectionErrorIncoming { connection_error: u64 },
    /// The peer reset the stream, or asked for it to be stopped, with this code.
    StreamTerminated { error_code: u64 },
    /// The transport failed otherwise; it knows more of it under this number.
    Unknown(u64),
}

/// Why an operation on a stream fails.
#[derive(Debug, Clone, Copy, PartialEq, Eq)]
pub enum StreamError {
    StreamError { code: Code, reason: &'static str },
    HeaderTooBig { actual_size: u64, max_size: u64 },
    ConnectionError(ErrorOrigin),
    GoawayRejected { stream_id: StreamId, boundary: StreamId },
    RemoteTerminate { remote_code: u64 },
    ConnectionClosing,
    InvalidRequest { cause: &'static str },
    /// What was asked for is out of order.
    InvalidStreamState,
    Undefined(u64),
}

} // verus!
