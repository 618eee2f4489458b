//! What a request's stream decides while its messages come and go.
//!
//! The transport's part is the caller's: where a step asks for more to be read, the caller
//! reads, hands over what came, and takes the step again.
use vstd::prelude::*;
use crate::buf::{to_vec, view_ok, Reader};
use crate::frame::Poll;
use crate::qpack::decoder::{
    decode_stateless_limited, section_prefix, section_spec, stateless_spec, Decoded, DecodedView,
    Decoder, DecoderError, FieldSectionPrefix,
};
use crate::qpack::shared::{queue_result, with_event, EventQueue, QpackDecoder, QpackEvent};
use crate::quic::StreamId;

verus! {

/// The events that wait for the driver, and whether it takes more.
pub type Events<W> = (Seq<QpackEvent<W>>, bool);

/// What a stream that may be sent references to the dynamic table has to settle.
#[derive(Debug, Clone, Copy, PartialEq, Eq, Structural)]
pub struct DecoderGuard {
    pub stream_id: StreamId,
    /// Whether the peer has to be told when the stream is no longer read.
    pub cancel_on_drop: bool,
    /// The insertions that a field section of the stream waits for.
    pub blocked: Option<usize>,
    pub decoder: QpackDecoder,
    /// The prefix of a field section that waits.
    pub prefix: Option<FieldSectionPrefix>,
}

/// The stream waits no longer.
pub open spec fn unblocked<W>(guard: DecoderGuard, events: Events<W>) -> (DecoderGuard, Events<W>) {
    match guard.blocked {
        Some(required_ref) => (
            DecoderGuard { blocked: None, ..guard },
            with_event(
                events,
                QpackEvent::ReleaseBlocked { stream_id: guard.stream_id, required_ref },
            ),
        ),
        None => (guard, events),
    }
}

/// The stream is read to its end.
pub open spec fn finished<W>(guard: DecoderGuard, events: Events<W>) -> (DecoderGuard, Events<W>) {
    let (guard, events) = unblocked(guard, events);
    (DecoderGuard { cancel_on_drop: false, ..guard }, events)
}

/// The stream is abandoned; the last part tells whether the driver has to run.
pub open spec fn abandoned<W>(guard: DecoderGuard, events: Events<W>) -> (
    DecoderGuard,
    Events<W>,
    bool,
) {
    let (guard, events) = unblocked(guard, events);
    if guard.cancel_on_drop {
        (
            DecoderGuard { cancel_on_drop: false, ..guard },
            with_event(events, QpackEvent::StreamCancel(guard.stream_id)),
            !events.1,
        )
    } else {
        (guard, events, false)
    }
}

/// The stream waits for so many insertions.
pub open spec fn blocked_on<W>(
    guard: DecoderGuard,
    required_ref: usize,
    waker: W,
    events: Events<W>,
) -> (Result<(), DecoderError>, DecoderGuard, Events<W>) {
    let (guard, events) = if guard.blocked matches Some(other) && other != required_ref {
        unblocked(guard, events)
    } else {
        (guard, events)
    };
    if !guard.decoder.allows_blocking {
        (Err(DecoderError::TooManyBlockedStreams), guard, events)
    } else {
        let result = queue_result(events.1);
        (
            result,
            if result is Ok {
                DecoderGuard { blocked: Some(required_ref), ..guard }
            } else {
                guard
            },
            with_event(
                events,
                QpackEvent::RegisterBlocked { stream_id: guard.stream_id, required_ref, waker },
            ),
        )
    }
}

impl DecoderGuard {
    pub fn new(stream_id: StreamId, decoder: QpackDecoder) -> (guard: Self)
        ensures
            guard == (DecoderGuard {
                stream_id,
                cancel_on_drop: true,
                blocked: None,
                decoder,
                prefix: None,
            }),
    {
        DecoderGuard { stream_id, cancel_on_drop: true, blocked: None, decoder, prefix: None }
    }

    /// Registers the stream when its field section waits for insertions.
    ///
    /// A step that is taken again for the same insertions only renews what wakes the task.
    /// See <https://www.rfc-editor.org/rfc/rfc9204.html#section-2.1.2>.
    pub fn block<W>(&mut self, required_ref: usize, waker: W, events: &mut EventQueue<W>) -> (result:
        Result<(), DecoderError>)
        ensures
            (result, *final(self), final(events)@) == blocked_on(
                *old(self),
                required_ref,
                waker,
                old(events)@,
            ),
    {
        if let Some(other) = self.blocked {
            if other != required_ref {
                self.unblock(events);
            }
        }
        match self.decoder.queue_blocked_stream(self.stream_id, required_ref, waker, events) {
            Err(error) => Err(error),
            Ok(()) => {
                self.blocked = Some(required_ref);
                Ok(())
            },
        }
    }

    /// Takes the stream's registration back. The driver may have removed it.
    pub fn unblock<W>(&mut self, events: &mut EventQueue<W>)
        ensures
            (*final(self), final(events)@) == unblocked(*old(self), old(events)@),
    {
        if let Some(required_ref) = self.blocked {
            self.blocked = None;
            self.decoder.release_blocked_stream(self.stream_id, required_ref, events);
        }
    }

    /// Tells the peer that a field section was decoded, where it required insertions. What
    /// comes back tells whether the driver has to run.
    ///
    /// See <https://www.rfc-editor.org/rfc/rfc9204.html#section-4.4.1>.
    pub fn acknowledge<W>(&mut self, dyn_ref: bool, events: &mut EventQueue<W>) -> (result: Result<
        bool,
        DecoderError,
    >)
        ensures
            *final(self) == *old(self),
            if dyn_ref {
                &&& final(events)@ == with_event(
                    old(events)@,
                    QpackEvent::HeaderAck(old(self).stream_id),
                )
                &&& result == match queue_result(old(events)@.1) {
                    Ok(_) => Ok::<bool, DecoderError>(true),
                    Err(error) => Err(error),
                }
            } else {
                &&& final(events)@ == old(events)@
                &&& result == Ok::<bool, DecoderError>(false)
            },
    {
        if dyn_ref {
            match self.decoder.queue_section_acknowledgment(self.stream_id, events) {
                Ok(()) => Ok(true),
                Err(error) => Err(error),
            }
        } else {
            Ok(false)
        }
    }

    /// Notes that the stream was read to its end, which abandons no field section.
    ///
    /// See <https://www.rfc-editor.org/rfc/rfc9204.html#section-4.4.2>.
    pub fn finish_reading<W>(&mut self, events: &mut EventQueue<W>)
        ensures
            (*final(self), final(events)@) == finished(*old(self), old(events)@),
    {
        self.unblock(events);
        self.cancel_on_drop = false;
    }

    /// Tells the peer, once, that the stream is no longer read. What comes back tells whether
    /// the driver has to run.
    ///
    /// See <https://www.rfc-editor.org/rfc/rfc9204.html#section-4.4.2>.
    pub fn cancel_reading<W>(&mut self, events: &mut EventQueue<W>) -> (wake: bool)
        ensures
            (*final(self), final(events)@, wake) == abandoned(*old(self), old(events)@),
    {
        self.unblock(events);
        if self.cancel_on_drop {
            self.cancel_on_drop = false;
            self.decoder.queue_stream_cancellation(self.stream_id, events)
        } else {
            false
        }
    }
}

/// Abandoning a stream twice tells the peer once.
pub proof fn abandoning_is_told_once<W>(guard: DecoderGuard, events: Events<W>)
    ensures
        ({
            let (once, told, _) = abandoned(guard, events);
            abandoned(once, told) == (once, told, false)
        }),
{
}

/// A stream that was read to its end is not told to be abandoned.
pub proof fn finished_streams_are_not_cancelled<W>(guard: DecoderGuard, events: Events<W>)
    ensures
        ({
            let (after, told) = finished(guard, events);
            abandoned(after, told) == (after, told, false)
        }),
{
}

/// How the field sections of a stream are decoded.
#[derive(Debug, PartialEq, Eq)]
pub enum RequestDecodeState {
    /// The peer may not refer to the dynamic table.
    Stateless { max_encoded_string_size: usize },
    Dynamic(Box<DecoderGuard>),
    /// Nothing is received on this half of the stream.
    SendOnly,
}

impl RequestDecodeState {
    pub fn new(
        stream_id: StreamId,
        max_encoded_string_size: usize,
        decoder: Option<QpackDecoder>,
    ) -> (state: Self)
        ensures
            state@ == fresh_decode(stream_id, max_encoded_string_size, decoder),
    {
        match decoder {
            Some(decoder) => RequestDecodeState::Dynamic(
                Box::new(DecoderGuard::new(stream_id, decoder)),
            ),
            None => RequestDecodeState::Stateless { max_encoded_string_size },
        }
    }

    /// Notes that the stream is no longer read. What comes back tells whether the driver has
    /// to run.
    pub fn cancel_reading<W>(&mut self, events: &mut EventQueue<W>) -> (wake: bool)
        ensures
            match *old(self) {
                RequestDecodeState::Dynamic(guard) => {
                    &&& *final(self) matches RequestDecodeState::Dynamic(after)
                    &&& (*after, final(events)@, wake) == abandoned(*guard, old(events)@)
                },
                _ => *final(self) == *old(self) && final(events)@ == old(events)@ && !wake,
            },
    {
        match self {
            RequestDecodeState::Dynamic(guard) => guard.cancel_reading(events),
            _ => false,
        }
    }

    /// Notes that the stream was read to its end.
    pub fn finish_reading<W>(&mut self, events: &mut EventQueue<W>)
        ensures
            match *old(self) {
                RequestDecodeState::Dynamic(guard) => {
                    &&& *final(self) matches RequestDecodeState::Dynamic(after)
                    &&& (*after, final(events)@) == finished(*guard, old(events)@)
                },
                _ => *final(self) == *old(self) && final(events)@ == old(events)@,
            },
    {
        match self {
            RequestDecodeState::Dynamic(guard) => guard.finish_reading(events),
            _ => {},
        }
    }
}

/// How field sections are decoded.
pub enum DecodeView {
    Stateless(usize),
    Dynamic(DecoderGuard),
    SendOnly,
}

/// How the field sections of a new stream are decoded: with the connection's decoder, where
/// the peer may refer to the dynamic table.
pub open spec fn fresh_decode(
    stream_id: StreamId,
    max_encoded_string_size: usize,
    decoder: Option<QpackDecoder>,
) -> DecodeView {
    match decoder {
        Some(decoder) => DecodeView::Dynamic(
            DecoderGuard {
                stream_id,
                cancel_on_drop: true,
                blocked: None,
                decoder,
                prefix: None,
            },
        ),
        None => DecodeView::Stateless(max_encoded_string_size),
    }
}

impl View for RequestDecodeState {
    type V = DecodeView;

    open spec fn view(&self) -> DecodeView {
        match *self {
            RequestDecodeState::Stateless { max_encoded_string_size } => DecodeView::Stateless(
                max_encoded_string_size,
            ),
            RequestDecodeState::Dynamic(guard) => DecodeView::Dynamic(*guard),
            RequestDecodeState::SendOnly => DecodeView::SendOnly,
        }
    }
}

/// An attempt to decode a field section with the connection's decoder: what it came to, the
/// bytes that are left, and the prefix that is known.
pub open spec fn attempted(
    guard: DecoderGuard,
    decoder: Decoder,
    max_size: u64,
    section: Seq<u8>,
) -> (Result<DecodedView, DecoderError>, Seq<u8>, Option<FieldSectionPrefix>) {
    if !guard.decoder.dynamic_table {
        let (result, rest) = stateless_spec(
            guard.decoder.max_encoded_string_size,
            max_size,
            section,
        );
        (result, rest, guard.prefix)
    } else {
        match section_prefix(
            decoder.table@.inserted(),
            decoder.max_table_capacity,
            guard.prefix,
            section,
        ) {
            (Err(error), rest) => (Err(error), rest, guard.prefix),
            (Ok(found), rest) => {
                let (result, rest) = section_spec(
                    decoder.table@,
                    found,
                    decoder.max_encoded_string_size,
                    max_size,
                    rest,
                );
                (result, rest, Some(found))
            },
        }
    }
}

/// What a field section comes to that was decoded: the peer is told, and nothing waits any
/// longer. Where the stream has ended, no other field section can come.
pub open spec fn settled<W>(
    guard: DecoderGuard,
    decoded: DecodedView,
    is_eos: bool,
    events: Events<W>,
) -> (Result<DecodedView, DecoderError>, DecoderGuard, Events<W>, bool) {
    let (guard, events) = unblocked(DecoderGuard { prefix: None, ..guard }, events);
    let told = if decoded.dyn_ref {
        with_event(events, QpackEvent::HeaderAck(guard.stream_id))
    } else {
        events
    };
    if decoded.dyn_ref && queue_result(events.1) is Err {
        (Err(queue_result(events.1)->Err_0), guard, told, false)
    } else if is_eos {
        let (guard, told) = finished(guard, told);
        (Ok(decoded), guard, told, decoded.dyn_ref)
    } else {
        (Ok(decoded), guard, told, decoded.dyn_ref)
    }
}

/// What decoding a field section comes to.
pub struct SectionOutcome<W> {
    pub result: Poll<Result<DecodedView, DecoderError>>,
    pub state: DecodeView,
    pub rest: Seq<u8>,
    pub events: Events<W>,
    pub wake: bool,
}

/// What decoding a field section comes to.
///
/// A section that waits for insertions makes the stream blocked, unless the connection has
/// failed.
pub open spec fn section_outcome<W>(
    state: DecodeView,
    decoder: Decoder,
    section: Seq<u8>,
    max_size: u64,
    is_eos: bool,
    conn_failed: bool,
    waker: W,
    events: Events<W>,
) -> SectionOutcome<W> {
    match state {
        DecodeView::SendOnly => SectionOutcome {
            result: Poll::Ready(
                Err(
                    DecoderError::Internal(
                        "attempted to decode a field section on a send-only stream half",
                    ),
                ),
            ),
            state,
            rest: section,
            events,
            wake: false,
        },
        DecodeView::Stateless(limit) => {
            let (result, rest) = stateless_spec(limit, max_size, section);
            SectionOutcome { result: Poll::Ready(result), state, rest, events, wake: false }
        },
        DecodeView::Dynamic(guard) => {
            let (result, rest, prefix) = attempted(guard, decoder, max_size, section);
            let guard = DecoderGuard { prefix, ..guard };
            match result {
                Ok(decoded) => {
                    let (result, guard, events, wake) = settled(guard, decoded, is_eos, events);
                    SectionOutcome {
                        result: Poll::Ready(result),
                        state: DecodeView::Dynamic(guard),
                        rest,
                        events,
                        wake,
                    }
                },
                Err(error) => if error matches DecoderError::MissingRefs(required) && required > 0 {
                    if conn_failed {
                        SectionOutcome {
                            result: Poll::Ready(
                                Err(
                                    DecoderError::Internal(
                                        "connection closed while a QPACK field section was blocked",
                                    ),
                                ),
                            ),
                            state: DecodeView::Dynamic(guard),
                            rest,
                            events,
                            wake: false,
                        }
                    } else {
                        let (blocked, guard, events) = blocked_on(
                            guard,
                            error->MissingRefs_0,
                            waker,
                            events,
                        );
                        SectionOutcome {
                            result: match blocked {
                                Ok(_) => Poll::Pending,
                                Err(error) => Poll::Ready(Err(error)),
                            },
                            state: DecodeView::Dynamic(guard),
                            rest,
                            events,
                            wake: false,
                        }
                    }
                } else {
                    SectionOutcome {
                        result: Poll::Ready(Err(error)),
                        state: DecodeView::Dynamic(DecoderGuard { prefix: None, ..guard }),
                        rest,
                        events,
                        wake: false,
                    }
                },
            }
        },
    }
}

/// A step with the view of what was decoded.
pub open spec fn viewed_section(step: Poll<Result<Decoded, DecoderError>>) -> Poll<
    Result<DecodedView, DecoderError>,
> {
    match step {
        Poll::Ready(result) => Poll::Ready(view_ok(result)),
        Poll::Pending => Poll::Pending,
    }
}

impl RequestDecodeState {
    /// Decodes a field section, of which `section` holds the bytes that were not read yet.
    /// The second part of the result tells whether the driver has to run.
    pub fn poll_decode_field_section<W>(
        &mut self,
        decoder: &Decoder,
        section: &mut Vec<u8>,
        max_size: u64,
        is_eos: bool,
        conn_failed: bool,
        waker: W,
        events: &mut EventQueue<W>,
    ) -> (step: (Poll<Result<Decoded, DecoderError>>, bool))
        requires
            decoder.wf(),
        ensures
            ({
                let outcome = section_outcome(
                    old(self)@,
                    *decoder,
                    old(section)@,
                    max_size,
                    is_eos,
                    conn_failed,
                    waker,
                    old(events)@,
                );
                &&& viewed_section(step.0) == outcome.result
                &&& step.1 == outcome.wake
                &&& final(self)@ == outcome.state
                &&& final(section)@ == outcome.rest
                &&& final(events)@ == outcome.events
            }),
    {
        match self {
            RequestDecodeState::SendOnly => (
                Poll::Ready(
                    Err(
                        DecoderError::Internal(
                            "attempted to decode a field section on a send-only stream half",
                        ),
                    ),
                ),
                false,
            ),
            RequestDecodeState::Stateless { max_encoded_string_size } => {
                let limit: usize = *max_encoded_string_size;
                let data = to_vec(section.as_slice());
                let mut read = Reader::new(data.as_slice());
                let result = decode_stateless_limited(&mut read, max_size, limit);
                *section = to_vec(read.chunk());
                (Poll::Ready(result), false)
            },
            RequestDecodeState::Dynamic(guard) => {
                let data = to_vec(section.as_slice());
                let mut read = Reader::new(data.as_slice());
                let result = guard.decoder.decode_field_section(
                    decoder,
                    &mut read,
                    max_size,
                    &mut guard.prefix,
                );
                *section = to_vec(read.chunk());
                match result {
                    Ok(decoded) => {
                        guard.prefix = None;
                        guard.unblock(events);
                        let wake: bool = match guard.acknowledge(decoded.dyn_ref, events) {
                            Ok(wake) => wake,
                            Err(error) => return (Poll::Ready(Err(error)), false),
                        };
                        if is_eos {
                            guard.finish_reading(events);
                        }
                        (Poll::Ready(Ok(decoded)), wake)
                    },
                    Err(DecoderError::MissingRefs(required)) => {
                        if required == 0 {
                            guard.prefix = None;
                            return (Poll::Ready(Err(DecoderError::MissingRefs(required))), false);
                        }
                        // Once the connection has failed, nothing would wake the task.
                        if conn_failed {
                            return (
                                Poll::Ready(
                                    Err(
                                        DecoderError::Internal(
                                            "connection closed while a QPACK field section was blocked",
                                        ),
                                    ),
                                ),
                                false,
                            );
                        }
                        match guard.block(required, waker, events) {
                            Ok(()) => (Poll::Pending, false),
                            Err(error) => (Poll::Ready(Err(error)), false),
                        }
                    },
                    Err(error) => {
                        guard.prefix = None;
                        (Poll::Ready(Err(error)), false)
                    },
                }
            },
        }
    }
}

/// A field section that requires insertions and was decoded is acknowledged once; one that
/// waits is not acknowledged.
pub proof fn sections_are_acknowledged_once<W>(
    guard: DecoderGuard,
    decoder: Decoder,
    section: Seq<u8>,
    max_size: u64,
    waker: W,
)
    requires
        guard.blocked is None,
    ensures
        ({
            let before: Events<W> = (Seq::empty(), false);
            let outcome = section_outcome(
                DecodeView::Dynamic(guard),
                decoder,
                section,
                max_size,
                false,
                false,
                waker,
                before,
            );
            match outcome.result {
                Poll::Ready(Ok(decoded)) => outcome.events.0 == if decoded.dyn_ref {
                    seq![QpackEvent::HeaderAck(guard.stream_id)]
                } else {
                    Seq::<QpackEvent<W>>::empty()
                },
                Poll::Ready(Err(_)) => outcome.events.0 == Seq::<QpackEvent<W>>::empty(),
                Poll::Pending => outcome.events.0.len() == 1
                    && outcome.events.0[0] is RegisterBlocked,
            }
        }),
{
    let before: Events<W> = (Seq::empty(), false);
    let outcome = section_outcome(
        DecodeView::Dynamic(guard),
        decoder,
        section,
        max_size,
        false,
        false,
        waker,
        before,
    );
    assert(Seq::<QpackEvent<W>>::empty().push(QpackEvent::HeaderAck(guard.stream_id)) =~= seq![
        QpackEvent::HeaderAck(guard.stream_id),
    ]);
}

} // verus!
