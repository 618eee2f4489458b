//! What a connection and its streams share.
use vstd::prelude::*;
use crate::config::{default_settings, Settings};
use crate::error::{
    frame_connection_error, internal_error, Code, ErrorOrigin, InternalConnectionError, StreamError,
    StreamErrorIncoming,
};
use crate::frame::FrameStreamError;
use crate::quic::{StreamId, MAX_VARINT};

verus! {

/// State shared by a connection and its streams.
#[derive(Debug, Clone, Copy, PartialEq, Eq)]
pub struct SharedState {
    /// The settings that the peer sent.
    pub settings: Option<Settings>,
    /// What the connection failed of.
    pub connection_error: Option<ErrorOrigin>,
    /// Whether the connection is closing.
    pub closing: bool,
    /// The first request that the peer will not process; the largest number where it has not
    /// told one, which no stream has.
    pub peer_goaway: u64,
}

/// The state of a connection that has just begun.
pub open spec fn fresh_state() -> SharedState {
    SharedState { settings: None, connection_error: None, closing: false, peer_goaway: u64::MAX }
}

impl Default for SharedState {
    fn default() -> (state: Self)
        ensures
            state == fresh_state(),
    {
        SharedState {
            settings: None,
            connection_error: None,
            closing: false,
            peer_goaway: u64::MAX,
        }
    }
}

/// The state after an error: the first one stands.
pub open spec fn failed(state: SharedState, error: ErrorOrigin) -> SharedState {
    match state.connection_error {
        Some(_) => state,
        None => SharedState { connection_error: Some(error), ..state },
    }
}

/// The error that stands after an error.
pub open spec fn standing(state: SharedState, error: ErrorOrigin) -> ErrorOrigin {
    match state.connection_error {
        Some(first) => first,
        None => error,
    }
}

/// What prevents a request from going on.
///
/// That the peer will not process the request comes before an error of the connection, so
/// that the request can be tried again elsewhere. See
/// <https://www.rfc-editor.org/rfc/rfc9114.html#section-5.2>.
pub open spec fn request_error_spec(state: SharedState, stream_id: StreamId) -> Option<StreamError> {
    if stream_id.0 >= state.peer_goaway && state.peer_goaway <= MAX_VARINT {
        Some(
            StreamError::GoawayRejected { stream_id, boundary: StreamId(state.peer_goaway) },
        )
    } else {
        match state.connection_error {
            Some(error) => Some(StreamError::ConnectionError(error)),
            None => None,
        }
    }
}

/// How a failure of the transport's stream is told, and whether it fails the connection.
pub open spec fn stream_failure(state: SharedState, error: StreamErrorIncoming) -> (
    StreamError,
    SharedState,
) {
    match error {
        StreamErrorIncoming::ConnectionErrorIncoming { connection_error } => {
            let origin = ErrorOrigin::Transport(connection_error);
            (StreamError::ConnectionError(standing(state, origin)), failed(state, origin))
        },
        StreamErrorIncoming::StreamTerminated { error_code } => (
            StreamError::RemoteTerminate { remote_code: error_code },
            state,
        ),
        StreamErrorIncoming::Unknown(error) => (StreamError::Undefined(error), state),
    }
}

/// How a failure to read frames from a request's stream is told, and whether it fails the
/// connection.
pub open spec fn frame_failure(state: SharedState, error: FrameStreamError) -> (
    StreamError,
    SharedState,
) {
    match error {
        FrameStreamError::Quic(error) => stream_failure(state, error),
        FrameStreamError::Proto(error) => {
            let origin = ErrorOrigin::Internal(frame_connection_error(error));
            (StreamError::ConnectionError(standing(state, origin)), failed(state, origin))
        },
        FrameStreamError::UnexpectedEnd => {
            let origin = ErrorOrigin::Internal(
                internal_error(Code::H3_FRAME_ERROR, "received incomplete frame"),
            );
            (StreamError::ConnectionError(standing(state, origin)), failed(state, origin))
        },
    }
}

impl SharedState {
    /// What the connection failed of.
    pub fn get_conn_error(&self) -> (error: Option<ErrorOrigin>)
        ensures
            error == self.connection_error,
    {
        self.connection_error
    }

    /// Notes what the connection failed of, unless it has failed, and gives the error that
    /// stands.
    pub fn set_conn_error(&mut self, error: ErrorOrigin) -> (first: ErrorOrigin)
        ensures
            first == standing(*old(self), error),
            *final(self) == failed(*old(self), error),
    {
        match self.connection_error {
            Some(first) => first,
            None => {
                self.connection_error = Some(error);
                error
            },
        }
    }

    /// The peer's settings, or what they are before they arrive.
    ///
    /// See <https://www.rfc-editor.org/rfc/rfc9114.html#section-7.2.4.2>.
    pub fn settings(&self) -> (settings: Settings)
        ensures
            settings == match self.settings {
                Some(settings) => settings,
                None => default_settings(),
            },
    {
        match self.settings {
            Some(settings) => settings,
            None => Settings::default(),
        }
    }

    /// Notes the peer's settings, unless they are there.
    pub fn set_settings(&mut self, settings: Settings)
        ensures
            *final(self) == match old(self).settings {
                Some(_) => *old(self),
                None => SharedState { settings: Some(settings), ..*old(self) },
            },
    {
        if self.settings.is_none() {
            self.settings = Some(settings);
        }
    }

    pub fn set_closing(&mut self)
        ensures
            *final(self) == (SharedState { closing: true, ..*old(self) }),
    {
        self.closing = true;
    }

    pub fn is_closing(&self) -> (closing: bool)
        ensures
            closing == self.closing,
    {
        self.closing
    }

    /// The first request that the peer will not process, where it told one.
    pub fn peer_goaway(&self) -> (boundary: Option<StreamId>)
        ensures
            boundary == if self.peer_goaway <= MAX_VARINT {
                Some(StreamId(self.peer_goaway))
            } else {
                None::<StreamId>
            },
    {
        StreamId::checked(self.peer_goaway)
    }

    /// Notes the first request that the peer will not process; the smallest one stands.
    pub fn set_peer_goaway(&mut self, boundary: StreamId)
        ensures
            *final(self) == (SharedState {
                peer_goaway: if boundary.0 < old(self).peer_goaway {
                    boundary.0
                } else {
                    old(self).peer_goaway
                },
                ..*old(self)
            }),
    {
        if boundary.into_inner() < self.peer_goaway {
            self.peer_goaway = boundary.into_inner();
        }
    }

    /// What prevents a request from going on.
    pub fn request_error(&self, stream_id: StreamId) -> (error: Option<StreamError>)
        ensures
            error == request_error_spec(*self, stream_id),
    {
        if stream_id.into_inner() >= self.peer_goaway {
            if let Some(boundary) = StreamId::checked(self.peer_goaway) {
                return Some(StreamError::GoawayRejected { stream_id, boundary });
            }
        }
        match self.connection_error {
            Some(error) => Some(StreamError::ConnectionError(error)),
            None => None,
        }
    }

    /// What prevents a new request.
    pub fn check_peer_connection_closing(&self) -> (error: Option<StreamError>)
        ensures
            error == if self.closing {
                Some(StreamError::ConnectionClosing)
            } else {
                None::<StreamError>
            },
    {
        if self.closing {
            Some(StreamError::ConnectionClosing)
        } else {
            None
        }
    }

    /// Fails the connection because of what happened on a stream.
    pub fn handle_connection_error_on_stream(&mut self, error: InternalConnectionError) -> (told: StreamError)
        ensures
            told == StreamError::ConnectionError(
                standing(*old(self), ErrorOrigin::Internal(error)),
            ),
            *final(self) == failed(*old(self), ErrorOrigin::Internal(error)),
    {
        StreamError::ConnectionError(self.set_conn_error(ErrorOrigin::Internal(error)))
    }

    /// Takes a failure of the transport's stream.
    pub fn handle_quic_stream_error(&mut self, error: StreamErrorIncoming) -> (told: StreamError)
        ensures
            (told, *final(self)) == stream_failure(*old(self), error),
    {
        match error {
            StreamErrorIncoming::ConnectionErrorIncoming { connection_error } => {
                StreamError::ConnectionError(
                    self.set_conn_error(ErrorOrigin::Transport(connection_error)),
                )
            },
            StreamErrorIncoming::StreamTerminated { error_code } => StreamError::RemoteTerminate {
                remote_code: error_code,
            },
            StreamErrorIncoming::Unknown(error) => StreamError::Undefined(error),
        }
    }

    /// Takes a failure to read frames from a request's stream.
    pub fn handle_frame_stream_error_on_request_stream(&mut self, error: FrameStreamError) -> (told: StreamError)
        ensures
            (told, *final(self)) == frame_failure(*old(self), error),
    {
        match error {
            FrameStreamError::Quic(error) => self.handle_quic_stream_error(error),
            FrameStreamError::Proto(error) => self.handle_connection_error_on_stream(
                InternalConnectionError::got_frame_error(error),
            ),
            FrameStreamError::UnexpectedEnd => self.handle_connection_error_on_stream(
                InternalConnectionError::new(Code::H3_FRAME_ERROR, "received incomplete frame"),
            ),
        }
    }
}

/// A request that the peer will not process stays so, whatever boundary the peer tells
/// after, and whatever the connection fails of.
pub proof fn rejection_is_final(
    state: SharedState,
    stream_id: StreamId,
    boundary: StreamId,
    error: ErrorOrigin,
)
    requires
        request_error_spec(state, stream_id) matches Some(StreamError::GoawayRejected { .. }),
    ensures
        ({
            let later = SharedState {
                peer_goaway: if boundary.0 < state.peer_goaway {
                    boundary.0
                } else {
                    state.peer_goaway
                },
                ..state
            };
            request_error_spec(failed(later, error), stream_id) matches Some(
                StreamError::GoawayRejected { .. },
            )
        }),
{
}

/// Requests below the boundary are not affected by it.
pub proof fn requests_below_the_boundary_go_on(state: SharedState, stream_id: StreamId)
    requires
        stream_id.0 < state.peer_goaway,
        state.connection_error is None,
    ensures
        request_error_spec(state, stream_id) is None,
{
}

/// The first error of a connection stands.
pub proof fn first_error_stands(state: SharedState, first: ErrorOrigin, second: ErrorOrigin)
    requires
        state.connection_error is None,
    ensures
        failed(failed(state, first), second) == failed(state, first),
        standing(failed(state, first), second) == first,
{
}

} // verus!
