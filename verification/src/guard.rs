//! Cancelling the directions of a request that were left open.
//!
//! See <https://www.rfc-editor.org/rfc/rfc9114.html#section-4.1.1>.
use vstd::prelude::*;
use crate::error::Code;
use crate::qpack::shared::EventQueue;
use crate::recv_control::{received, stopped, ReceiveState};
use crate::request::Events;

verus! {

/// What is to be done with the directions of a stream.
#[derive(Debug, Clone, Copy, PartialEq, Eq, Structural)]
pub struct Cancellation {
    /// The code with which sending is reset, where it is.
    pub reset: Option<Code>,
    /// The code with which the peer is asked to stop sending, where it is.
    pub stop: Option<Code>,
}

/// Which directions of a stream are to be cancelled when their owner lets go of it.
///
/// A server's streams are not: what becomes of them is the transport's affair.
#[derive(Debug, Clone, Copy, PartialEq, Eq, Structural)]
pub struct StreamGuard {
    pub reset_on_drop: bool,
    pub stop_sending_on_drop: bool,
    /// The code with which receiving was stopped.
    pub recv_stop_code: Option<Code>,
}

/// What stopping the receive direction comes to: the code to stop with, unless the message
/// was received.
pub open spec fn receiving_stopped<W>(
    guard: StreamGuard,
    control: Option<ReceiveState>,
    code: Code,
    events: Events<W>,
) -> (Option<Code>, StreamGuard, Option<ReceiveState>, Events<W>) {
    let (chosen, control, events) = match control {
        Some(state) => {
            let (chosen, state, events) = stopped(state, code, events);
            (chosen, Some(state), events)
        },
        None => (
            Some(
                match guard.recv_stop_code {
                    Some(first) => first,
                    None => code,
                },
            ),
            control,
            events,
        ),
    };
    match chosen {
        None => (None, guard, control, events),
        Some(code) => (
            Some(code),
            StreamGuard { recv_stop_code: Some(code), stop_sending_on_drop: false, ..guard },
            control,
            events,
        ),
    }
}

/// What it changes that the message was received: nothing where receiving was stopped, since
/// the stop still has to reach the peer.
pub open spec fn reading_finished<W>(
    guard: StreamGuard,
    control: Option<ReceiveState>,
    events: Events<W>,
) -> (StreamGuard, Option<ReceiveState>, Events<W>) {
    let done = StreamGuard { stop_sending_on_drop: false, ..guard };
    match control {
        Some(state) => {
            let (first, after, queued) = received(state, events);
            (
                if first {
                    done
                } else {
                    guard
                },
                Some(after),
                queued,
            )
        },
        None => (done, control, events),
    }
}

/// What cancelling the directions that are open comes to.
pub open spec fn remaining_cancelled<W>(
    guard: StreamGuard,
    control: Option<ReceiveState>,
    events: Events<W>,
) -> (Cancellation, StreamGuard, Option<ReceiveState>, Events<W>) {
    let after = StreamGuard { reset_on_drop: false, stop_sending_on_drop: false, ..guard };
    let reset = if guard.reset_on_drop {
        Some(Code::H3_REQUEST_CANCELLED)
    } else {
        None
    };
    if !guard.stop_sending_on_drop {
        (Cancellation { reset, stop: None }, after, control, events)
    } else {
        match control {
            Some(state) => {
                let (stop, state, events) = stopped(state, Code::H3_REQUEST_CANCELLED, events);
                (Cancellation { reset, stop }, after, Some(state), events)
            },
            None => (
                Cancellation {
                    reset,
                    stop: Some(
                        match guard.recv_stop_code {
                            Some(code) => code,
                            None => Code::H3_REQUEST_CANCELLED,
                        },
                    ),
                },
                after,
                control,
                events,
            ),
        }
    }
}

impl StreamGuard {
    /// A guard that cancels nothing.
    pub fn without_cancellation() -> (guard: Self)
        ensures
            guard == (StreamGuard {
                reset_on_drop: false,
                stop_sending_on_drop: false,
                recv_stop_code: None,
            }),
    {
        StreamGuard { reset_on_drop: false, stop_sending_on_drop: false, recv_stop_code: None }
    }

    /// A guard for a new stream of a client, both directions of which are open.
    pub fn new() -> (guard: Self)
        ensures
            guard == (StreamGuard {
                reset_on_drop: true,
                stop_sending_on_drop: true,
                recv_stop_code: None,
            }),
    {
        StreamGuard { reset_on_drop: true, stop_sending_on_drop: true, recv_stop_code: None }
    }

    /// Notes that the message was received, unless receiving was stopped: then the stop still
    /// has to reach the peer.
    pub fn finish_reading<W>(
        &mut self,
        control: &mut Option<ReceiveState>,
        events: &mut EventQueue<W>,
    )
        ensures
            (*final(self), *final(control), final(events)@) == reading_finished(
                *old(self),
                *old(control),
                old(events)@,
            ),
    {
        if let Some(mut state) = *control {
            let first: bool = state.finish(events);
            *control = Some(state);
            if !first {
                return;
            }
        }
        self.stop_sending_on_drop = false;
    }

    /// Stops receiving, and gives the code with which the peer is to be asked to stop sending.
    /// Letting go of the stream does not replace it.
    pub fn stop_sending<W>(
        &mut self,
        code: Code,
        control: &mut Option<ReceiveState>,
        events: &mut EventQueue<W>,
    ) -> (stop: Option<Code>)
        ensures
            (stop, *final(self), *final(control), final(events)@) == receiving_stopped(
                *old(self),
                *old(control),
                code,
                old(events)@,
            ),
    {
        let chosen = match *control {
            Some(state) => {
                let mut state = state;
                match state.cancel(code, events) {
                    Some(chosen) => {
                        *control = Some(state);
                        chosen
                    },
                    None => {
                        *control = Some(state);
                        return None;
                    },
                }
            },
            None => match self.recv_stop_code {
                Some(first) => first,
                None => code,
            },
        };
        self.recv_stop_code = Some(chosen);
        self.stop_sending_on_drop = false;
        Some(chosen)
    }

    /// Hands each open direction to its half.
    pub fn split(self) -> (halves: (StreamGuard, StreamGuard))
        ensures
            halves.0 == (StreamGuard {
                reset_on_drop: self.reset_on_drop,
                stop_sending_on_drop: false,
                recv_stop_code: None,
            }),
            halves.1 == (StreamGuard { reset_on_drop: false, ..self }),
    {
        (
            StreamGuard {
                reset_on_drop: self.reset_on_drop,
                stop_sending_on_drop: false,
                recv_stop_code: None,
            },
            StreamGuard {
                reset_on_drop: false,
                stop_sending_on_drop: self.stop_sending_on_drop,
                recv_stop_code: self.recv_stop_code,
            },
        )
    }

    /// Takes what came of ending the send direction: only where it was ended need it not be
    /// reset.
    pub fn poll_finish(&mut self, done: bool)
        ensures
            *final(self) == (StreamGuard {
                reset_on_drop: old(self).reset_on_drop && !done,
                ..*old(self)
            }),
    {
        if done {
            self.reset_on_drop = false;
        }
    }

    /// Notes that sending was reset.
    pub fn reset(&mut self)
        ensures
            *final(self) == (StreamGuard { reset_on_drop: false, ..*old(self) }),
    {
        self.reset_on_drop = false;
    }

    /// Cancels the directions that are open, once.
    pub fn cancel_remaining<W>(
        &mut self,
        control: &mut Option<ReceiveState>,
        events: &mut EventQueue<W>,
    ) -> (cancellation: Cancellation)
        ensures
            (cancellation, *final(self), *final(control), final(events)@) == remaining_cancelled(
                *old(self),
                *old(control),
                old(events)@,
            ),
    {
        let reset = if self.reset_on_drop {
            Some(Code::H3_REQUEST_CANCELLED)
        } else {
            None
        };
        let open: bool = self.stop_sending_on_drop;
        self.reset_on_drop = false;
        self.stop_sending_on_drop = false;
        if !open {
            return Cancellation { reset, stop: None };
        }
        let stop = match *control {
            Some(state) => {
                let mut state = state;
                let stop = state.cancel(Code::H3_REQUEST_CANCELLED, events);
                *control = Some(state);
                stop
            },
            None => match self.recv_stop_code {
                Some(code) => Some(code),
                None => Some(Code::H3_REQUEST_CANCELLED),
            },
        };
        Cancellation { reset, stop }
    }

    /// Whether the message was received and receiving was not stopped.
    pub fn receive_finished(&self) -> (finished: bool)
        ensures
            finished == (!self.stop_sending_on_drop && self.recv_stop_code is None),
    {
        !self.stop_sending_on_drop && self.recv_stop_code.is_none()
    }
}

/// Which directions of a request that is being set up are to be cancelled when it is given up.
#[derive(Debug, Clone, Copy, PartialEq, Eq, Structural)]
pub struct RequestStreamGuard {
    pub reset_on_drop: bool,
    pub stop_sending_on_drop: bool,
}

impl RequestStreamGuard {
    pub fn new(reset_on_drop: bool, stop_sending_on_drop: bool) -> (guard: Self)
        ensures
            guard == (RequestStreamGuard { reset_on_drop, stop_sending_on_drop }),
    {
        RequestStreamGuard { reset_on_drop, stop_sending_on_drop }
    }

    /// Notes that the stream has another owner.
    pub fn into_inner(&mut self)
        ensures
            *final(self) == (RequestStreamGuard {
                reset_on_drop: false,
                stop_sending_on_drop: false,
            }),
    {
        self.reset_on_drop = false;
        self.stop_sending_on_drop = false;
    }

    pub fn disarm_reset(&mut self)
        ensures
            *final(self) == (RequestStreamGuard { reset_on_drop: false, ..*old(self) }),
    {
        self.reset_on_drop = false;
    }

    pub fn disarm_stop_sending(&mut self)
        ensures
            *final(self) == (RequestStreamGuard { stop_sending_on_drop: false, ..*old(self) }),
    {
        self.stop_sending_on_drop = false;
    }

    /// What is to be done when the stream is given up.
    pub fn close(self) -> (cancellation: Cancellation)
        ensures
            cancellation == (Cancellation {
                reset: if self.reset_on_drop {
                    Some(Code::H3_REQUEST_CANCELLED)
                } else {
                    None
                },
                stop: if self.stop_sending_on_drop {
                    Some(Code::H3_REQUEST_CANCELLED)
                } else {
                    None
                },
            }),
    {
        Cancellation {
            reset: if self.reset_on_drop {
                Some(Code::H3_REQUEST_CANCELLED)
            } else {
                None
            },
            stop: if self.stop_sending_on_drop {
                Some(Code::H3_REQUEST_CANCELLED)
            } else {
                None
            },
        }
    }
}

/// Cancelling twice does nothing the second time.
pub proof fn cancelling_is_done_once<W>(
    guard: StreamGuard,
    control: Option<ReceiveState>,
    events: Events<W>,
)
    ensures
        ({
            let (_, after, held, queued) = remaining_cancelled(guard, control, events);
            remaining_cancelled(after, held, queued) == (
                Cancellation { reset: None, stop: None },
                after,
                held,
                queued,
            )
        }),
{
}

/// Letting go of a stream that was stopped with a code does not replace the code.
pub proof fn stop_codes_are_not_replaced<W>(
    guard: StreamGuard,
    control: Option<ReceiveState>,
    code: Code,
    events: Events<W>,
)
    ensures
        ({
            let (stop, after, held, queued) = receiving_stopped(guard, control, code, events);
            stop is Some ==> remaining_cancelled(after, held, queued).0.stop is None
        }),
{
}

/// The halves of a stream cancel each its own direction, and together what the whole would.
pub proof fn halves_cancel_their_own_direction<W>(guard: StreamGuard, events: Events<W>)
    ensures
        ({
            let send = StreamGuard {
                reset_on_drop: guard.reset_on_drop,
                stop_sending_on_drop: false,
                recv_stop_code: None,
            };
            let recv = StreamGuard { reset_on_drop: false, ..guard };
            let whole = remaining_cancelled(guard, None, events).0;
            &&& remaining_cancelled(send, None, events).0 == (Cancellation {
                reset: whole.reset,
                stop: None,
            })
            &&& remaining_cancelled(recv, None, events).0 == (Cancellation {
                reset: None,
                stop: whole.stop,
            })
        }),
{
}

} // verus!
