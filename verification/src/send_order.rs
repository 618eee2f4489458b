//! The order in which a message is sent: its content, its trailers, its end.
//!
//! See <https://www.rfc-editor.org/rfc/rfc9114.html#section-4.1>.
use vstd::prelude::*;
use crate::error::StreamError;

verus! {

/// How far the sending of a message has come.
#[derive(Debug, Clone, Copy, PartialEq, Eq, Structural)]
pub enum SendPhase {
    /// Content and trailers may be sent.
    Content,
    /// The trailers were handed over; only the end may follow.
    Trailers,
    /// The end was asked for.
    Finishing,
    /// The end was sent.
    Finished,
    /// Sending was given up.
    Reset,
}

/// What was handed over to be sent on a stream.
#[derive(Debug, Clone, Copy, PartialEq, Eq, Structural)]
pub struct SendOrder {
    pub phase: SendPhase,
    /// Whether there is output that was not flushed.
    pub pending: bool,
}

/// What happens to the sending direction.
#[derive(Debug, Clone, Copy, PartialEq, Eq, Structural)]
pub enum SendEvent {
    /// Content is handed over.
    Data,
    /// Trailers are handed over.
    Trailers,
    /// All output was flushed.
    Flushed,
    /// The end is asked for.
    Finish,
    /// The end was sent.
    Finished,
    /// Sending is given up.
    Reset,
}

/// Whether more of the message can be handed over: it has no end yet, and what was handed over
/// before is flushed.
pub open spec fn accepts(state: SendOrder) -> bool {
    state.phase == SendPhase::Content && !state.pending
}

/// What comes of an event, unless it is out of order.
pub open spec fn send_step(state: SendOrder, event: SendEvent) -> Option<SendOrder> {
    match event {
        SendEvent::Data => if accepts(state) {
            Some(SendOrder { pending: true, ..state })
        } else {
            None
        },
        SendEvent::Trailers => if accepts(state) {
            Some(SendOrder { phase: SendPhase::Trailers, pending: true })
        } else {
            None
        },
        SendEvent::Flushed => Some(SendOrder { pending: false, ..state }),
        SendEvent::Finish => Some(
            if state.phase == SendPhase::Content || state.phase == SendPhase::Trailers {
                SendOrder { phase: SendPhase::Finishing, ..state }
            } else {
                state
            },
        ),
        SendEvent::Finished => Some(
            if state.phase == SendPhase::Reset {
                state
            } else {
                SendOrder { phase: SendPhase::Finished, pending: false }
            },
        ),
        SendEvent::Reset => Some(SendOrder { phase: SendPhase::Reset, pending: false }),
    }
}

impl SendOrder {
    /// The order of a message of which only the header section was sent.
    pub fn new() -> (order: Self)
        ensures
            order == (SendOrder { phase: SendPhase::Content, pending: false }),
    {
        SendOrder { phase: SendPhase::Content, pending: false }
    }

    /// Takes an event. One that is out of order is a local error: it changes nothing, so that
    /// what was handed over is still sent.
    pub fn step(&mut self, event: SendEvent) -> (result: Result<(), StreamError>)
        ensures
            match send_step(*old(self), event) {
                Some(next) => result == Ok::<(), StreamError>(()) && *final(self) == next,
                None => {
                    &&& result == Err::<(), StreamError>(StreamError::InvalidStreamState)
                    &&& *final(self) == *old(self)
                },
            },
    {
        match event {
            SendEvent::Data | SendEvent::Trailers => {
                if self.phase != SendPhase::Content || self.pending {
                    return Err(StreamError::InvalidStreamState);
                }
                if event == SendEvent::Trailers {
                    self.phase = SendPhase::Trailers;
                }
                self.pending = true;
            },
            SendEvent::Flushed => {
                self.pending = false;
            },
            SendEvent::Finish => {
                if self.phase == SendPhase::Content || self.phase == SendPhase::Trailers {
                    self.phase = SendPhase::Finishing;
                }
            },
            SendEvent::Finished => {
                if self.phase != SendPhase::Reset {
                    self.phase = SendPhase::Finished;
                    self.pending = false;
                }
            },
            SendEvent::Reset => {
                self.phase = SendPhase::Reset;
                self.pending = false;
            },
        }
        Ok(())
    }
}

/// What events come to, one after the other; those that are out of order are passed over.
pub open spec fn send_run(state: SendOrder, events: Seq<SendEvent>) -> SendOrder
    decreases events.len(),
{
    if events.len() == 0 {
        state
    } else {
        let before = send_run(state, events.drop_last());
        match send_step(before, events.last()) {
            Some(next) => next,
            None => before,
        }
    }
}

/// Once the trailers were handed over, the end was asked for or sending was given up, neither
/// content nor trailers are taken any more, whatever happens.
pub proof fn nothing_follows_the_end(state: SendOrder, events: Seq<SendEvent>)
    requires
        state.phase != SendPhase::Content,
    ensures
        ({
            let later = send_run(state, events);
            &&& later.phase != SendPhase::Content
            &&& send_step(later, SendEvent::Data) is None
            &&& send_step(later, SendEvent::Trailers) is None
        }),
    decreases events.len(),
{
    if events.len() > 0 {
        nothing_follows_the_end(state, events.drop_last());
    }
}

/// While there is output that was not flushed, nothing more is taken; once it was flushed,
/// content is taken until the end of the message.
pub proof fn content_waits_for_the_flush(state: SendOrder)
    ensures
        state.pending ==> send_step(state, SendEvent::Data) is None && send_step(
            state,
            SendEvent::Trailers,
        ) is None,
        send_step(send_step(state, SendEvent::Flushed)->Some_0, SendEvent::Data) is Some
            <==> state.phase == SendPhase::Content,
{
}

/// The end can be asked for and sent again with the same outcome.
pub proof fn finishing_is_repeatable(state: SendOrder)
    requires
        state.phase != SendPhase::Reset,
    ensures
        ({
            let asked = send_step(state, SendEvent::Finish)->Some_0;
            let sent = send_step(asked, SendEvent::Finished)->Some_0;
            &&& send_step(asked, SendEvent::Finish) == Some(asked)
            &&& send_step(sent, SendEvent::Finish) == Some(sent)
            &&& send_step(sent, SendEvent::Finished) == Some(sent)
        }),
{
}

} // verus!
