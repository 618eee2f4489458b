//! Stopping a receive direction from outside its reader.
use vstd::prelude::*;
use crate::error::{Code, StreamError};
use crate::frame::Poll;
use crate::qpack::decoder::DecoderError;
use crate::qpack::shared::{queue_result, with_event, EventQueue, QpackDecoder, QpackEvent};
use crate::quic::StreamId;
use crate::request::Events;

verus! {

/// What a request needs to tell the connection's driver about its field sections.
#[derive(Debug, Clone, Copy, PartialEq, Eq, Structural)]
pub struct QpackReceive {
    pub stream_id: StreamId,
    pub decoder: QpackDecoder,
}

/// The state of a receive direction that its reader shares with those who may stop it.
///
/// What is decided here and the events that go with it are one: no registration and no
/// acknowledgment is queued once the direction was stopped. The field sections can be settled
/// before the message is delivered, so they have a flag of their own.
#[derive(Debug, Clone, Copy, PartialEq, Eq, Structural)]
pub struct ReceiveState {
    /// Whether the message was received before the direction was stopped.
    pub finished: bool,
    /// Whether the peer has to be told when the direction is abandoned.
    pub cancel_qpack: bool,
    /// The insertions that a field section waits for.
    pub blocked: Option<usize>,
    /// The first code with which the direction was stopped.
    pub canceled: Option<Code>,
    /// Where there are field sections to settle.
    pub qpack: Option<QpackReceive>,
}

/// The direction waits no longer.
pub open spec fn freed<W>(state: ReceiveState, events: Events<W>) -> (ReceiveState, Events<W>) {
    (
        ReceiveState { blocked: None, ..state },
        match (state.blocked, state.qpack) {
            (Some(required_ref), Some(qpack)) => with_event(
                events,
                QpackEvent::ReleaseBlocked { stream_id: qpack.stream_id, required_ref },
            ),
            _ => events,
        },
    )
}

/// The field sections are abandoned.
pub open spec fn qpack_cancelled<W>(state: ReceiveState, events: Events<W>) -> (
    ReceiveState,
    Events<W>,
) {
    let (state, events) = freed(state, events);
    (
        ReceiveState { cancel_qpack: false, ..state },
        match (state.cancel_qpack, state.qpack) {
            (true, Some(qpack)) => with_event(events, QpackEvent::StreamCancel(qpack.stream_id)),
            _ => events,
        },
    )
}

/// The direction is stopped, unless the message was received.
pub open spec fn stopped<W>(state: ReceiveState, code: Code, events: Events<W>) -> (
    Option<Code>,
    ReceiveState,
    Events<W>,
) {
    if state.finished {
        (None, state, events)
    } else {
        let first = match state.canceled {
            Some(first) => first,
            None => code,
        };
        let (after, events) = qpack_cancelled(
            ReceiveState { canceled: Some(first), ..state },
            events,
        );
        (Some(first), after, events)
    }
}

/// The message was received, unless the direction was stopped.
pub open spec fn received<W>(state: ReceiveState, events: Events<W>) -> (
    bool,
    ReceiveState,
    Events<W>,
) {
    if state.canceled is Some {
        (false, state, events)
    } else {
        let (state, events) = freed(state, events);
        (true, ReceiveState { cancel_qpack: false, finished: true, ..state }, events)
    }
}

/// A field section waits for so many insertions, unless nothing is received any more.
pub open spec fn waits_for<W>(
    state: ReceiveState,
    required: usize,
    waker: W,
    events: Events<W>,
) -> (Result<(), DecoderError>, ReceiveState, Events<W>) {
    if state.finished || state.canceled is Some {
        (Ok(()), state, events)
    } else {
        let (state, events) = if state.blocked matches Some(other) && other != required {
            freed(state, events)
        } else {
            (state, events)
        };
        match state.qpack {
            None => (Ok(()), state, events),
            Some(qpack) => if !qpack.decoder.allows_blocking {
                (Err(DecoderError::TooManyBlockedStreams), state, events)
            } else {
                let result = queue_result(events.1);
                (
                    result,
                    if result is Ok {
                        ReceiveState { blocked: Some(required), ..state }
                    } else {
                        state
                    },
                    with_event(
                        events,
                        QpackEvent::RegisterBlocked {
                            stream_id: qpack.stream_id,
                            required_ref: required,
                            waker,
                        },
                    ),
                )
            },
        }
    }
}

/// Whether the peer is told that a field section was decoded.
pub open spec fn acknowledges(state: ReceiveState, dynamic: bool) -> bool {
    dynamic && !state.finished && state.canceled is None && state.qpack is Some
}

/// How a stopped direction answers.
pub open spec fn stop_error(state: ReceiveState) -> Option<StreamError> {
    match state.canceled {
        Some(code) => Some(
            StreamError::StreamError { code, reason: "receive direction canceled locally" },
        ),
        None => None,
    }
}

/// What a reader is told: what its operation came to, unless the direction was stopped
/// meanwhile. What the protocol found wrong stands; an error of which only the transport knows
/// more may come from the stop.
pub open spec fn told<T>(state: ReceiveState, result: Poll<Result<T, StreamError>>) -> Poll<
    Result<T, StreamError>,
> {
    match result {
        Poll::Ready(Err(error)) => if error !is Undefined {
            result
        } else {
            match stop_error(state) {
                Some(error) => Poll::Ready(Err(error)),
                None => result,
            }
        },
        _ => match stop_error(state) {
            Some(error) => Poll::Ready(Err(error)),
            None => result,
        },
    }
}

impl ReceiveState {
    pub fn new(
        qpack: Option<QpackReceive>,
        cancel_qpack: bool,
        blocked: Option<usize>,
        finished: bool,
        code: Option<Code>,
    ) -> (state: Self)
        ensures
            state == (ReceiveState { finished, cancel_qpack, blocked, canceled: code, qpack }),
    {
        ReceiveState { finished, cancel_qpack, blocked, canceled: code, qpack }
    }

    /// Stops the direction, and gives the code with which it is stopped: the first one that
    /// was asked for.
    pub fn cancel<W>(&mut self, code: Code, events: &mut EventQueue<W>) -> (first: Option<Code>)
        ensures
            (first, *final(self), final(events)@) == stopped(*old(self), code, old(events)@),
    {
        if self.finished {
            return None;
        }
        let first = match self.canceled {
            Some(first) => first,
            None => code,
        };
        self.canceled = Some(first);
        self.cancel_qpack(events);
        Some(first)
    }

    /// Notes that the message was received, and tells whether that came before a stop.
    pub fn finish<W>(&mut self, events: &mut EventQueue<W>) -> (first: bool)
        ensures
            (first, *final(self), final(events)@) == received(*old(self), old(events)@),
    {
        if self.canceled.is_some() {
            return false;
        }
        self.unblock(events);
        self.cancel_qpack = false;
        self.finished = true;
        true
    }

    /// Notes that the field sections are settled, which can be before the message is received.
    pub fn finish_qpack<W>(&mut self, events: &mut EventQueue<W>)
        ensures
            final(events)@ == freed(*old(self), old(events)@).1,
            *final(self) == (ReceiveState { cancel_qpack: false, blocked: None, ..*old(self) }),
    {
        self.unblock(events);
        self.cancel_qpack = false;
    }

    /// Abandons the field sections.
    pub fn cancel_qpack<W>(&mut self, events: &mut EventQueue<W>)
        ensures
            (*final(self), final(events)@) == qpack_cancelled(*old(self), old(events)@),
    {
        self.unblock(events);
        let due: bool = self.cancel_qpack;
        self.cancel_qpack = false;
        if due {
            if let Some(qpack) = self.qpack {
                qpack.decoder.queue_stream_cancellation(qpack.stream_id, events);
            }
        }
    }

    /// Registers a field section that waits for insertions.
    pub fn block<W>(&mut self, required: usize, waker: W, events: &mut EventQueue<W>) -> (result: Result<
        (),
        DecoderError,
    >)
        ensures
            (result, *final(self), final(events)@) == waits_for(
                *old(self),
                required,
                waker,
                old(events)@,
            ),
    {
        if self.finished || self.canceled.is_some() {
            return Ok(());
        }
        if let Some(other) = self.blocked {
            if other != required {
                self.unblock(events);
            }
        }
        if let Some(qpack) = self.qpack {
            if let Err(error) = qpack.decoder.queue_blocked_stream(
                qpack.stream_id,
                required,
                waker,
                events,
            ) {
                return Err(error);
            }
            self.blocked = Some(required);
        }
        Ok(())
    }

    /// Takes a registration back.
    pub fn unblock<W>(&mut self, events: &mut EventQueue<W>)
        ensures
            (*final(self), final(events)@) == freed(*old(self), old(events)@),
    {
        if let Some(required) = self.blocked {
            self.blocked = None;
            if let Some(qpack) = self.qpack {
                qpack.decoder.release_blocked_stream(qpack.stream_id, required, events);
            }
        }
    }

    /// Tells the peer that a field section was decoded, where it required insertions and
    /// something is still received.
    pub fn acknowledge<W>(&self, dynamic: bool, events: &mut EventQueue<W>) -> (result: Result<
        (),
        DecoderError,
    >)
        ensures
            if acknowledges(*self, dynamic) {
                &&& result == queue_result(old(events)@.1)
                &&& final(events)@ == with_event(
                    old(events)@,
                    QpackEvent::HeaderAck(self.qpack->Some_0.stream_id),
                )
            } else {
                result == Ok::<(), DecoderError>(()) && final(events)@ == old(events)@
            },
    {
        if dynamic && !self.finished && self.canceled.is_none() {
            if let Some(qpack) = self.qpack {
                return qpack.decoder.queue_section_acknowledgment(qpack.stream_id, events);
            }
        }
        Ok(())
    }

    /// How a stopped direction answers.
    pub fn error(&self) -> (error: Option<StreamError>)
        ensures
            error == stop_error(*self),
    {
        match self.canceled {
            Some(code) => Some(
                StreamError::StreamError { code, reason: "receive direction canceled locally" },
            ),
            None => None,
        }
    }

    /// What a reader is told, given what its operation came to.
    pub fn poll<T>(&self, result: Poll<Result<T, StreamError>>) -> (answer: Poll<
        Result<T, StreamError>,
    >)
        ensures
            answer == told(*self, result),
    {
        if let Poll::Ready(Err(error)) = &result {
            match error {
                StreamError::Undefined(_) => {},
                _ => return result,
            }
        }
        match self.error() {
            Some(error) => Poll::Ready(Err(error)),
            None => result,
        }
    }
}

/// The first code with which a direction is stopped stands, whatever comes after, and the
/// message counts as received no more.
pub proof fn first_stop_stands<W>(
    state: ReceiveState,
    first: Code,
    second: Code,
    events: Events<W>,
)
    requires
        !state.finished,
        state.canceled is None,
    ensures
        ({
            let (chosen, after, queued) = stopped(state, first, events);
            &&& chosen == Some(first)
            &&& stopped(after, second, queued) == (Some(first), after, queued)
            &&& received(after, queued).0 == false
        }),
{
}

/// A direction on which the message was received cannot be stopped.
pub proof fn received_messages_are_not_stopped<W>(
    state: ReceiveState,
    code: Code,
    events: Events<W>,
)
    requires
        state.canceled is None,
    ensures
        ({
            let (first, after, queued) = received(state, events);
            &&& first
            &&& stopped(after, code, queued) == (None::<Code>, after, queued)
        }),
{
}

/// Once a direction was stopped, nothing more is registered or acknowledged for it.
pub proof fn nothing_is_queued_after_a_stop<W>(
    state: ReceiveState,
    code: Code,
    required: usize,
    waker: W,
    events: Events<W>,
)
    requires
        !state.finished,
    ensures
        ({
            let (_, after, queued) = stopped(state, code, events);
            &&& waits_for(after, required, waker, queued) == (
                Ok::<(), DecoderError>(()),
                after,
                queued,
            )
            &&& !acknowledges(after, true)
        }),
{
}

} // verus!
