//! Frames as they come out of a stream.
use vstd::prelude::*;
use crate::buf_list::{chunk_taken, joined, skipped, BufList};
use crate::error::StreamErrorIncoming;
use crate::proto::frame::{
    frame_spec, payload_prefix_spec, unknown_prefix_spec, Frame, FrameError, FrameView, PayloadLen,
    SettingsError, HEADERS,
};
use crate::quic::StreamId;

verus! {

/// What a step came to.
#[derive(Debug, PartialEq, Eq)]
pub enum Poll<T> {
    Ready(T),
    /// Nothing, before the transport has delivered more.
    Pending,
}

/// Errors that can occur while decoding frames.
#[derive(Debug, Clone, Copy, PartialEq, Eq, Structural)]
pub enum FrameStreamError {
    Proto(FrameProtocolError),
    Quic(StreamErrorIncoming),
    UnexpectedEnd,
}

/// Protocol specific errors that can occur while decoding frames in a stream.
#[derive(Debug, Clone, Copy, PartialEq, Eq, Structural)]
pub enum FrameProtocolError {
    Malformed,
    /// A frame of HTTP/2 that is an error here.
    ForbiddenFrame(u64),
    InvalidFrameValue,
    ExcessiveLoad { len: u64, limit: usize },
    Settings(SettingsError),
    InvalidStreamId(u64),
    InvalidPushId(u64),
}

/// How an error in a frame is told.
pub open spec fn frame_error(error: FrameError) -> FrameStreamError {
    match error {
        FrameError::Incomplete(_) => FrameStreamError::UnexpectedEnd,
        FrameError::UnknownFrame(_) => FrameStreamError::Proto(FrameProtocolError::Malformed),
        FrameError::InvalidStreamId(id) => FrameStreamError::Proto(
            FrameProtocolError::InvalidStreamId(id),
        ),
        FrameError::InvalidPushId(id) => FrameStreamError::Proto(
            FrameProtocolError::InvalidPushId(id),
        ),
        FrameError::Settings(error) => FrameStreamError::Proto(FrameProtocolError::Settings(error)),
        FrameError::UnsupportedFrame(ty) => FrameStreamError::Proto(
            FrameProtocolError::ForbiddenFrame(ty),
        ),
        FrameError::InvalidFrameValue => FrameStreamError::Proto(
            FrameProtocolError::InvalidFrameValue,
        ),
        FrameError::ExcessiveLoad { len, limit } => FrameStreamError::Proto(
            FrameProtocolError::ExcessiveLoad { len, limit },
        ),
        FrameError::Malformed => FrameStreamError::Proto(FrameProtocolError::Malformed),
    }
}

pub fn map_frame_error(error: FrameError) -> (mapped: FrameStreamError)
    ensures
        mapped == frame_error(error),
{
    match error {
        FrameError::Incomplete(_) => FrameStreamError::UnexpectedEnd,
        FrameError::UnknownFrame(_) => FrameStreamError::Proto(FrameProtocolError::Malformed),
        FrameError::InvalidStreamId(id) => FrameStreamError::Proto(
            FrameProtocolError::InvalidStreamId(id),
        ),
        FrameError::InvalidPushId(id) => FrameStreamError::Proto(
            FrameProtocolError::InvalidPushId(id),
        ),
        FrameError::Settings(error) => FrameStreamError::Proto(FrameProtocolError::Settings(error)),
        FrameError::UnsupportedFrame(ty) => FrameStreamError::Proto(
            FrameProtocolError::ForbiddenFrame(ty),
        ),
        FrameError::InvalidFrameValue => FrameStreamError::Proto(
            FrameProtocolError::InvalidFrameValue,
        ),
        FrameError::ExcessiveLoad { len, limit } => FrameStreamError::Proto(
            FrameProtocolError::ExcessiveLoad { len, limit },
        ),
        FrameError::Malformed => FrameStreamError::Proto(FrameProtocolError::Malformed),
    }
}

/// What came of looking at the front of the bytes.
#[derive(Debug, PartialEq, Eq)]
pub enum DecodedFrame {
    Frame(Frame<PayloadLen>),
    /// A frame without a meaning has passed.
    Ignored,
}

/// What was decoded.
pub enum DecodedView {
    Frame(FrameView<PayloadLen>),
    Ignored,
}

impl View for DecodedFrame {
    type V = DecodedView;

    open spec fn view(&self) -> DecodedView {
        match *self {
            DecodedFrame::Frame(frame) => DecodedView::Frame(frame@),
            DecodedFrame::Ignored => DecodedView::Ignored,
        }
    }
}

/// Decodes frames out of received bytes.
#[derive(Debug, Clone, Copy, PartialEq, Eq, Structural)]
pub struct FrameDecoder {
    /// How many bytes there have to be before the next frame can be complete.
    pub expected: Option<usize>,
    pub max_field_section_size: usize,
    /// How many bytes of a frame without a meaning are still to be passed over.
    pub ignored_payload: u64,
}

impl Default for FrameDecoder {
    fn default() -> (decoder: Self)
        ensures
            decoder == fresh_decoder(),
    {
        FrameDecoder { expected: None, max_field_section_size: usize::MAX, ignored_payload: 0 }
    }
}

/// A decoder that has read nothing.
pub open spec fn fresh_decoder() -> FrameDecoder {
    FrameDecoder { expected: None, max_field_section_size: usize::MAX, ignored_payload: 0 }
}

/// The bytes of a payload to be ignored that have arrived.
pub open spec fn discarded(decoder: FrameDecoder, s: Seq<u8>) -> nat {
    if s.len() < decoder.ignored_payload {
        s.len()
    } else {
        decoder.ignored_payload as nat
    }
}

/// Passing over the payload of a frame without a meaning.
pub open spec fn discard_spec(decoder: FrameDecoder, s: Seq<u8>) -> (
    Option<DecodedView>,
    FrameDecoder,
    Seq<u8>,
) {
    let n = discarded(decoder, s);
    (
        if n == decoder.ignored_payload {
            Some(DecodedView::Ignored)
        } else {
            None
        },
        FrameDecoder { ignored_payload: (decoder.ignored_payload - n) as u64, ..decoder },
        s.skip(n as int),
    )
}

/// One look at the front of `s`: what was found, and the decoder and the bytes after it.
pub open spec fn decode_one_spec(decoder: FrameDecoder, s: Seq<u8>) -> (
    Result<Option<DecodedView>, FrameStreamError>,
    FrameDecoder,
    Seq<u8>,
) {
    if decoder.ignored_payload != 0 {
        let (found, after, rest) = discard_spec(decoder, s);
        (Ok(found), after, rest)
    } else if s.len() == 0 || (decoder.expected matches Some(min) && s.len() < min) {
        (Ok(None), decoder, s)
    } else {
        match unknown_prefix_spec(s) {
            Ok(Some((ty, len, rest))) => {
                let (found, after, rest) = discard_spec(
                    FrameDecoder { expected: None, ignored_payload: len, ..decoder },
                    rest,
                );
                (Ok(found), after, rest)
            },
            Err(FrameError::Incomplete(min)) => (
                Ok(None),
                FrameDecoder { expected: Some(min), ..decoder },
                s,
            ),
            Err(error) => (Err(frame_error(error)), decoder, s),
            Ok(None) => match frame_spec(s, decoder.max_field_section_size) {
                Err(FrameError::Incomplete(min)) => (
                    Ok(None),
                    FrameDecoder { expected: Some(min), ..decoder },
                    s,
                ),
                Err(error) => (Err(frame_error(error)), decoder, s),
                Ok((frame, rest)) => (
                    Ok(Some(DecodedView::Frame(frame))),
                    FrameDecoder { expected: None, ..decoder },
                    rest,
                ),
            },
        }
    }
}

/// The next frame that has a meaning.
pub open spec fn decode_spec(decoder: FrameDecoder, s: Seq<u8>) -> (
    Result<Option<FrameView<PayloadLen>>, FrameStreamError>,
    FrameDecoder,
    Seq<u8>,
)
    decreases s.len(),
{
    let (found, after, rest) = decode_one_spec(decoder, s);
    match found {
        Err(error) => (Err(error), after, rest),
        Ok(None) => (Ok(None), after, rest),
        Ok(Some(DecodedView::Frame(frame))) => (Ok(Some(frame)), after, rest),
        Ok(Some(DecodedView::Ignored)) => if rest.len() < s.len() {
            decode_spec(after, rest)
        } else {
            (Ok(None), after, rest)
        },
    }
}

/// How the bytes of a payload that is left are part of all.
pub open spec fn is_tail(rest: Seq<u8>, s: Seq<u8>) -> bool {
    rest.len() <= s.len() && rest == s.skip(s.len() - rest.len())
}

/// A look at the bytes leaves their end, and passing over a frame takes some of them.
pub proof fn lemma_decode_one(decoder: FrameDecoder, s: Seq<u8>)
    ensures
        ({
            let (found, after, rest) = decode_one_spec(decoder, s);
            &&& is_tail(rest, s)
            &&& after.max_field_section_size == decoder.max_field_section_size
            &&& found matches Ok(Some(_)) ==> rest.len() < s.len() && after.ignored_payload == 0
                && (decoder.ignored_payload == 0 ==> after.expected is None)
        }),
{
    lemma_prefixes(s, decoder.max_field_section_size);
    assert(s.skip(0) =~= s);
    if decoder.ignored_payload == 0 {
        if let Ok(Some((ty, len, rest))) = unknown_prefix_spec(s) {
            let d = FrameDecoder { expected: None, ignored_payload: len, ..decoder };
            let n = discarded(d, rest) as int;
            assert(rest.skip(n) =~= s.skip(s.len() - rest.len() + n));
        }
    }
}

/// What follows the front of a frame is the end of the bytes.
pub proof fn lemma_prefixes(s: Seq<u8>, max: usize)
    ensures
        unknown_prefix_spec(s) matches Ok(Some((ty, len, rest))) ==> is_tail(rest, s) && rest.len()
            < s.len(),
        payload_prefix_spec(s) matches Ok(Some((ty, len, rest))) ==> is_tail(rest, s) && rest.len()
            < s.len(),
        frame_spec(s, max) matches Ok((frame, rest)) ==> is_tail(rest, s) && rest.len() < s.len(),
{
    if let Some((ty, rest)) = crate::proto::varint::decode_spec(s) {
        if let Some((len, after)) = crate::proto::varint::decode_spec(rest) {
            assert(after =~= s.skip(s.len() - after.len()));
            if after.len() >= len {
                assert(after.skip(len as int) =~= s.skip(s.len() - after.len() + len));
            }
        }
    }
}

impl FrameDecoder {
    /// The next frame that has a meaning.
    pub fn decode(&mut self, src: &mut BufList) -> (result: Result<
        Option<Frame<PayloadLen>>,
        FrameStreamError,
    >)
        requires
            old(src).wf(),
        ensures
            final(src).wf(),
            ({
                let (found, after, rest) = decode_spec(*old(self), old(src).bytes());
                &&& viewed(result) == found
                &&& *final(self) == after
                &&& final(src).bytes() == rest
                &&& is_tail(rest, old(src).bytes())
                &&& final(src)@ == skipped(
                    old(src)@,
                    (old(src).bytes().len() - rest.len()) as nat,
                )
            }),
    {
        let ghost goal = decode_spec(*self, src.bytes());
        let ghost all = src.bytes();
        let ghost chunks = src@;
        proof {
            assert(all.skip(0) =~= all);
        }
        loop
            invariant
                src.wf(),
                goal == decode_spec(*old(self), old(src).bytes()),
                all == old(src).bytes(),
                chunks == old(src)@,
                decode_spec(*self, src.bytes()) == goal,
                is_tail(src.bytes(), all),
                src@ == skipped(chunks, (all.len() - src.bytes().len()) as nat),
            decreases src.bytes().len(),
        {
            let ghost before = src.bytes();
            proof {
                lemma_decode_one(*self, before);
            }
            let found = self.decode_one(src);
            proof {
                let rest = src.bytes();
                assert(rest =~= all.skip(all.len() - rest.len()));
                crate::buf_list::lemma_skipped_twice(
                    chunks,
                    (all.len() - before.len()) as nat,
                    (before.len() - rest.len()) as nat,
                );
            }
            match found {
                Err(error) => return Err(error),
                Ok(None) => return Ok(None),
                Ok(Some(DecodedFrame::Frame(frame))) => return Ok(Some(frame)),
                Ok(Some(DecodedFrame::Ignored)) => {},
            }
        }
    }

    /// Looks at the front of the bytes once.
    pub fn decode_one(&mut self, src: &mut BufList) -> (result: Result<
        Option<DecodedFrame>,
        FrameStreamError,
    >)
        requires
            old(src).wf(),
        ensures
            final(src).wf(),
            ({
                let (found, after, rest) = decode_one_spec(*old(self), old(src).bytes());
                &&& viewed_decoded(result) == found
                &&& *final(self) == after
                &&& final(src).bytes() == rest
                &&& is_tail(rest, old(src).bytes())
                &&& final(src)@ == skipped(
                    old(src)@,
                    (old(src).bytes().len() - rest.len()) as nat,
                )
            }),
    {
        proof {
            lemma_prefixes(src.bytes(), self.max_field_section_size);
            lemma_decode_one(*self, src.bytes());
            assert(src.bytes().skip(0) =~= src.bytes());
        }
        let ghost s = src.bytes();
        let ghost chunks = src@;
        if self.ignored_payload != 0 {
            return Ok(self.discard_unknown_payload(src));
        }
        if !src.has_remaining() {
            return Ok(None);
        }
        if let Some(min) = self.expected {
            if src.remaining() < min {
                return Ok(None);
            }
        }
        match Frame::decode_unknown_prefix(src) {
            Ok(Some((_, len, consumed))) => {
                // Only the number of bytes to pass over is kept, so that a frame without a
                // meaning never has to be held as a whole.
                src.advance(consumed);
                let ghost rest = src.bytes();
                self.expected = None;
                self.ignored_payload = len;
                let found = self.discard_unknown_payload(src);
                proof {
                    crate::buf_list::lemma_skipped_twice(
                        chunks,
                        (s.len() - rest.len()) as nat,
                        (rest.len() - src.bytes().len()) as nat,
                    );
                }
                return Ok(found);
            },
            Err(FrameError::Incomplete(min)) => {
                self.expected = Some(min);
                return Ok(None);
            },
            Err(error) => return Err(map_frame_error(error)),
            Ok(None) => {},
        }
        match Frame::decode_with_max_field_section_size(src, self.max_field_section_size) {
            Err(FrameError::Incomplete(min)) => {
                self.expected = Some(min);
                Ok(None)
            },
            Err(error) => Err(map_frame_error(error)),
            Ok((frame, consumed)) => {
                src.advance(consumed);
                self.expected = None;
                Ok(Some(DecodedFrame::Frame(frame)))
            },
        }
    }

    /// Passes over what has arrived of the payload of a frame without a meaning.
    pub fn discard_unknown_payload(&mut self, src: &mut BufList) -> (found: Option<DecodedFrame>)
        requires
            old(src).wf(),
        ensures
            final(src).wf(),
            ({
                let (decoded, after, rest) = discard_spec(*old(self), old(src).bytes());
                &&& found == match decoded {
                    Some(_) => Some(DecodedFrame::Ignored),
                    None => None,
                }
                &&& *final(self) == after
                &&& final(src).bytes() == rest
                &&& final(src)@ == skipped(
                    old(src)@,
                    (old(src).bytes().len() - rest.len()) as nat,
                )
            }),
    {
        let ghost s = src.bytes();
        let ghost chunks = src@;
        let ghost goal = discard_spec(*self, s);
        let ghost total = self.ignored_payload;
        proof {
            assert(s.skip(0) =~= s);
        }
        while self.ignored_payload != 0 && src.has_remaining()
            invariant
                src.wf(),
                self.ignored_payload <= total,
                is_tail(src.bytes(), s),
                total - self.ignored_payload == s.len() - src.bytes().len(),
                *self == (FrameDecoder { ignored_payload: self.ignored_payload, ..*old(self) }),
                total == old(self).ignored_payload,
                src@ == skipped(chunks, (s.len() - src.bytes().len()) as nat),
            decreases self.ignored_payload,
        {
            let ghost before = src.bytes();
            let held: usize = src.remaining();
            let consumed: usize = if (held as u64) < self.ignored_payload {
                held
            } else {
                self.ignored_payload as usize
            };
            src.advance(consumed);
            self.ignored_payload = self.ignored_payload - consumed as u64;
            proof {
                assert(src.bytes() =~= s.skip(s.len() - src.bytes().len()));
                crate::buf_list::lemma_skipped_twice(
                    chunks,
                    (s.len() - before.len()) as nat,
                    consumed as nat,
                );
            }
        }
        if self.ignored_payload == 0 {
            Some(DecodedFrame::Ignored)
        } else {
            None
        }
    }

    /// Whether bytes of a frame without a meaning are still to be passed over.
    pub fn is_discarding_unknown_payload(&self) -> (yes: bool)
        ensures
            yes == (self.ignored_payload != 0),
    {
        self.ignored_payload != 0
    }
}

/// A result with the view of its frame.
pub open spec fn viewed(result: Result<Option<Frame<PayloadLen>>, FrameStreamError>) -> Result<
    Option<FrameView<PayloadLen>>,
    FrameStreamError,
> {
    match result {
        Ok(Some(frame)) => Ok(Some(frame@)),
        Ok(None) => Ok(None),
        Err(error) => Err(error),
    }
}

/// A result with the view of what was decoded.
pub open spec fn viewed_decoded(result: Result<Option<DecodedFrame>, FrameStreamError>) -> Result<
    Option<DecodedView>,
    FrameStreamError,
> {
    match result {
        Ok(Some(decoded)) => Ok(Some(decoded@)),
        Ok(None) => Ok(None),
        Err(error) => Err(error),
    }
}

/// The receiving side of a stream: what was delivered and not yet read.
pub struct BufRecvStream {
    pub buf: BufList,
    /// Whether the peer has ended the stream.
    pub eos: bool,
    pub id: StreamId,
}

impl BufRecvStream {
    pub fn new(id: StreamId) -> (stream: Self)
        ensures
            stream.buf.wf(),
            stream.buf@ == Seq::<Seq<u8>>::empty(),
            !stream.eos,
            stream.id == id,
    {
        BufRecvStream { buf: BufList::new(), eos: false, id }
    }
}

/// Decodes HTTP/3 frames from the underlying stream.
///
/// The transport's part is done by the caller: where a step is pending and the stream is not
/// at its end, the caller reads from the transport, hands over what came with `receive` or
/// `finish`, and takes the step again.
pub struct FrameStream {
    pub stream: BufRecvStream,
    pub decoder: FrameDecoder,
    /// How many bytes of the payload of the current frame have not been read.
    pub remaining_data: usize,
    /// Whether the payload goes on to the end of the stream.
    pub data_until_eos: bool,
}

/// What a frame stream is to its readers.
pub struct StreamView {
    pub chunks: Seq<Seq<u8>>,
    pub eos: bool,
    pub id: StreamId,
    pub decoder: FrameDecoder,
    pub remaining_data: usize,
    pub data_until_eos: bool,
}

/// A stream of which nothing was received.
pub open spec fn unread_stream(id: StreamId) -> StreamView {
    StreamView {
        chunks: Seq::empty(),
        eos: false,
        id,
        decoder: fresh_decoder(),
        remaining_data: 0,
        data_until_eos: false,
    }
}

impl View for FrameStream {
    type V = StreamView;

    open spec fn view(&self) -> StreamView {
        StreamView {
            chunks: self.stream.buf@,
            eos: self.stream.eos,
            id: self.stream.id,
            decoder: self.decoder,
            remaining_data: self.remaining_data,
            data_until_eos: self.data_until_eos,
        }
    }
}

/// A frame of a stream; the payload of a HEADERS frame has not been read yet.
#[derive(Debug, PartialEq, Eq)]
pub enum Frames {
    Headers,
    Frame(Frame<PayloadLen>),
}

/// What was found in a stream.
pub enum FramesView {
    Headers,
    Frame(FrameView<PayloadLen>),
}

impl View for Frames {
    type V = FramesView;

    open spec fn view(&self) -> FramesView {
        match *self {
            Frames::Headers => FramesView::Headers,
            Frames::Frame(frame) => FramesView::Frame(frame@),
        }
    }
}

/// A step's result with the view of what it gives.
pub open spec fn viewed_poll<T: View>(
    result: Result<Poll<Option<T>>, FrameStreamError>,
) -> Result<Poll<Option<T::V>>, FrameStreamError> {
    match result {
        Ok(Poll::Ready(Some(value))) => Ok(Poll::Ready(Some(value@))),
        Ok(Poll::Ready(None)) => Ok(Poll::Ready(None)),
        Ok(Poll::Pending) => Ok(Poll::Pending),
        Err(error) => Err(error),
    }
}

/// What a step comes to when the bytes that are there hold no frame: a stream that has ended
/// must not end inside a frame.
pub open spec fn without_frame<T>(v: StreamView) -> Result<Poll<Option<T>>, FrameStreamError> {
    if !v.eos {
        Ok(Poll::Pending)
    } else if joined(v.chunks).len() > 0 || v.decoder.ignored_payload != 0 {
        Err(FrameStreamError::UnexpectedEnd)
    } else {
        Ok(Poll::Ready(None))
    }
}

/// The stream with so many bytes left.
pub open spec fn left_with(v: StreamView, decoder: FrameDecoder, rest: Seq<u8>) -> StreamView {
    StreamView {
        decoder,
        chunks: skipped(v.chunks, (joined(v.chunks).len() - rest.len()) as nat),
        ..v
    }
}

/// The next frame of a stream, and the stream after it.
pub open spec fn poll_next_spec(v: StreamView) -> (
    Result<Poll<Option<FrameView<PayloadLen>>>, FrameStreamError>,
    StreamView,
) {
    if v.remaining_data != 0 {
        (Err(FrameStreamError::Proto(FrameProtocolError::Malformed)), v)
    } else {
        let (found, decoder, rest) = decode_spec(v.decoder, joined(v.chunks));
        let after = left_with(v, decoder, rest);
        match found {
            Err(error) => (Err(error), after),
            Ok(None) => (without_frame(after), after),
            Ok(Some(frame)) => (Ok(Poll::Ready(Some(frame))), entered(after, frame)),
        }
    }
}

/// Looking for a frame leaves the end of the bytes, and finding one takes some of them.
proof fn lemma_decode(decoder: FrameDecoder, s: Seq<u8>)
    ensures
        ({
            let (found, after, rest) = decode_spec(decoder, s);
            &&& rest.len() <= s.len()
            &&& found matches Ok(Some(_)) ==> rest.len() < s.len()
        }),
    decreases s.len(),
{
    lemma_decode_one(decoder, s);
    let (found, after, rest) = decode_one_spec(decoder, s);
    if found matches Ok(Some(DecodedView::Ignored)) {
        lemma_decode(after, rest);
    }
}

/// A frame takes some of the bytes that a stream has delivered.
pub proof fn lemma_poll_next(v: StreamView)
    ensures
        poll_next_spec(v).0 matches Ok(Poll::Ready(Some(_))) ==> joined(
            poll_next_spec(v).1.chunks,
        ).len() < joined(v.chunks).len(),
{
    let s = joined(v.chunks);
    let (found, decoder, rest) = decode_spec(v.decoder, s);
    lemma_decode(v.decoder, s);
    crate::buf_list::lemma_skipped_joined(v.chunks, (s.len() - rest.len()) as nat);
}

/// The stream when a frame has been told: the payload of a DATA frame, and all that follows
/// the start of a WebTransport stream, is read next.
pub open spec fn entered(v: StreamView, frame: FrameView<PayloadLen>) -> StreamView {
    match frame {
        FrameView::Data(PayloadLen(len)) => StreamView {
            remaining_data: len,
            data_until_eos: false,
            ..v
        },
        FrameView::WebTransportStream(_) => StreamView {
            remaining_data: usize::MAX,
            data_until_eos: true,
            ..v
        },
        _ => v,
    }
}

/// What stands at the front of the bytes.
pub enum Front {
    /// A frame whose payload is read as it comes, with its type and length.
    Payload(u64, usize),
    Frame(FrameView<PayloadLen>),
}

/// The next front of a frame that has a meaning.
pub open spec fn front_spec(decoder: FrameDecoder, s: Seq<u8>) -> (
    Result<Option<Front>, FrameStreamError>,
    FrameDecoder,
    Seq<u8>,
)
    decreases s.len(),
{
    if decoder.ignored_payload != 0 {
        // What is left of a frame without a meaning is not looked at.
        let (found, after, rest) = discard_spec(decoder, s);
        match found {
            None => (Ok(None), after, rest),
            Some(_) => if rest.len() < s.len() {
                front_spec(after, rest)
            } else {
                (Ok(None), after, rest)
            },
        }
    } else {
        match payload_prefix_spec(s) {
            Ok(Some((ty, len, rest))) => if ty == HEADERS && len > decoder.max_field_section_size {
                (
                    Err(
                        FrameStreamError::Proto(
                            FrameProtocolError::ExcessiveLoad {
                                len: len as u64,
                                limit: decoder.max_field_section_size,
                            },
                        ),
                    ),
                    decoder,
                    s,
                )
            } else {
                (Ok(Some(Front::Payload(ty, len))), decoder, rest)
            },
            Err(FrameError::Incomplete(_)) => (Ok(None), decoder, s),
            Err(error) => (Err(frame_error(error)), decoder, s),
            Ok(None) => {
                let (found, after, rest) = decode_one_spec(decoder, s);
                match found {
                    Err(error) => (Err(error), after, rest),
                    Ok(None) => (Ok(None), after, rest),
                    Ok(Some(DecodedView::Frame(frame))) => (
                        Ok(Some(Front::Frame(frame))),
                        after,
                        rest,
                    ),
                    Ok(Some(DecodedView::Ignored)) => if rest.len() < s.len() {
                        front_spec(after, rest)
                    } else {
                        (Ok(None), after, rest)
                    },
                }
            },
        }
    }
}

/// The next frame of a stream, with the payload of a HEADERS frame left where it is, and the
/// stream after it.
pub open spec fn poll_next_frame_spec(v: StreamView) -> (
    Result<Poll<Option<FramesView>>, FrameStreamError>,
    StreamView,
) {
    if v.remaining_data != 0 {
        (Err(FrameStreamError::Proto(FrameProtocolError::Malformed)), v)
    } else {
        let (found, decoder, rest) = front_spec(v.decoder, joined(v.chunks));
        let after = left_with(v, decoder, rest);
        match found {
            Err(error) => (Err(error), after),
            Ok(None) => (without_frame(after), after),
            Ok(Some(Front::Payload(ty, len))) => (
                Ok(
                    Poll::Ready(
                        Some(
                            if ty == HEADERS {
                                FramesView::Headers
                            } else {
                                FramesView::Frame(FrameView::Data(PayloadLen(len)))
                            },
                        ),
                    ),
                ),
                StreamView { remaining_data: len, data_until_eos: false, ..after },
            ),
            Ok(Some(Front::Frame(frame))) => (
                Ok(Poll::Ready(Some(FramesView::Frame(frame)))),
                if frame is WebTransportStream {
                    entered(after, frame)
                } else {
                    after
                },
            ),
        }
    }
}

/// The next piece of the payload, and the stream after it.
pub open spec fn poll_data_spec(v: StreamView) -> (
    Result<Poll<Option<Seq<u8>>>, FrameStreamError>,
    StreamView,
) {
    if v.remaining_data == 0 {
        (Ok(Poll::Ready(None)), v)
    } else if v.chunks.len() == 0 {
        if !v.eos {
            (Ok(Poll::Pending), v)
        } else if v.data_until_eos {
            // Only an unbounded payload ends with the stream.
            (Ok(Poll::Ready(None)), StreamView { remaining_data: 0, data_until_eos: false, ..v })
        } else {
            (Err(FrameStreamError::UnexpectedEnd), v)
        }
    } else {
        let data = chunk_taken(v.chunks, v.remaining_data);
        let after = StreamView { chunks: skipped(v.chunks, data.len()), ..v };
        if v.data_until_eos {
            (Ok(Poll::Ready(Some(data))), after)
        } else if v.eos && data.len() < v.remaining_data && after.chunks.len() == 0 {
            (Err(FrameStreamError::UnexpectedEnd), after)
        } else {
            (
                Ok(Poll::Ready(Some(data))),
                StreamView { remaining_data: (v.remaining_data - data.len()) as usize, ..after },
            )
        }
    }
}

/// The next piece of the payload, of at most `max_len` bytes, and the stream after it.
pub open spec fn poll_data_chunk_spec(v: StreamView, max_len: usize) -> (
    Result<Poll<Option<Seq<u8>>>, FrameStreamError>,
    StreamView,
) {
    if v.remaining_data == 0 {
        (Ok(Poll::Ready(None)), v)
    } else if v.chunks.len() == 0 {
        if v.eos {
            (Err(FrameStreamError::UnexpectedEnd), v)
        } else {
            (Ok(Poll::Pending), v)
        }
    } else {
        let most = if v.remaining_data < max_len {
            v.remaining_data
        } else {
            max_len
        };
        let data = chunk_taken(v.chunks, most);
        (
            Ok(Poll::Ready(Some(data))),
            StreamView {
                chunks: skipped(v.chunks, data.len()),
                remaining_data: (v.remaining_data - data.len()) as usize,
                ..v
            },
        )
    }
}

/// The whole payload, where it has a length of at most `max_len` and lies in one chunk.
pub open spec fn buffered_payload(v: StreamView, max_len: usize) -> Option<Seq<u8>> {
    if v.data_until_eos || v.remaining_data > max_len {
        None
    } else if v.remaining_data == 0 {
        Some(Seq::empty())
    } else if v.chunks.len() == 0 || v.chunks[0].len() < v.remaining_data {
        None
    } else {
        Some(v.chunks[0].take(v.remaining_data as int))
    }
}

impl FrameStream {
    pub open spec fn wf(&self) -> bool {
        self.stream.buf.wf()
    }

    pub fn new(stream: BufRecvStream) -> (frames: Self)
        requires
            stream.buf.wf(),
        ensures
            frames.wf(),
            frames.stream == stream,
            frames.decoder == fresh_decoder(),
            frames.remaining_data == 0,
            !frames.data_until_eos,
    {
        FrameStream {
            stream,
            decoder: FrameDecoder::default(),
            remaining_data: 0,
            data_until_eos: false,
        }
    }

    /// The underlying stream, with what it delivered and was not read as a frame.
    pub fn into_inner(self) -> (stream: BufRecvStream)
        ensures
            stream == self.stream,
    {
        self.stream
    }

    pub fn set_max_field_section_size(&mut self, max: usize)
        requires
            old(self).wf(),
        ensures
            final(self).wf(),
            final(self)@ == (StreamView {
                decoder: FrameDecoder { max_field_section_size: max, ..old(self)@.decoder },
                ..old(self)@
            }),
    {
        self.decoder.max_field_section_size = max;
    }

    /// Takes what the transport delivered.
    pub fn receive(&mut self, chunk: Vec<u8>)
        requires
            old(self).wf(),
        ensures
            final(self).wf(),
            final(self)@ == (StreamView {
                chunks: if chunk@.len() == 0 {
                    old(self)@.chunks
                } else {
                    old(self)@.chunks.push(chunk@)
                },
                ..old(self)@
            }),
            joined(final(self)@.chunks) == joined(old(self)@.chunks) + chunk@,
    {
        self.stream.buf.push(chunk);
    }

    /// Takes that the transport delivers no more.
    pub fn finish(&mut self)
        requires
            old(self).wf(),
        ensures
            final(self).wf(),
            final(self)@ == (StreamView { eos: true, ..old(self)@ }),
    {
        self.stream.eos = true;
    }

    /// The next frame, as far as its header; `poll_data` then reads the payload of a DATA
    /// frame.
    pub fn poll_next(&mut self) -> (result: Result<
        Poll<Option<Frame<PayloadLen>>>,
        FrameStreamError,
    >)
        requires
            old(self).wf(),
        ensures
            final(self).wf(),
            viewed_poll(result) == poll_next_spec(old(self)@).0,
            final(self)@ == poll_next_spec(old(self)@).1,
    {
        if self.remaining_data != 0 {
            return Err(FrameStreamError::Proto(FrameProtocolError::Malformed));
        }
        match self.decoder.decode(&mut self.stream.buf) {
            Err(error) => Err(error),
            Ok(Some(Frame::Data(PayloadLen(len)))) => {
                self.remaining_data = len;
                self.data_until_eos = false;
                Ok(Poll::Ready(Some(Frame::Data(PayloadLen(len)))))
            },
            Ok(Some(Frame::WebTransportStream(id))) => {
                self.remaining_data = usize::MAX;
                self.data_until_eos = true;
                Ok(Poll::Ready(Some(Frame::WebTransportStream(id))))
            },
            Ok(Some(frame)) => Ok(Poll::Ready(Some(frame))),
            Ok(None) => self.end_without_frame(),
        }
    }

    /// What a step comes to when the bytes that are there hold no frame.
    fn end_without_frame<T>(&self) -> (result: Result<Poll<Option<T>>, FrameStreamError>)
        requires
            self.wf(),
        ensures
            result == without_frame::<T>(self@),
    {
        if !self.stream.eos {
            Ok(Poll::Pending)
        } else if self.stream.buf.has_remaining() || self.decoder.is_discarding_unknown_payload() {
            Err(FrameStreamError::UnexpectedEnd)
        } else {
            Ok(Poll::Ready(None))
        }
    }

    /// The next frame, with the payload of a HEADERS frame left for `poll_data_chunk`.
    ///
    /// See <https://www.rfc-editor.org/rfc/rfc9114.html#section-7.2.2>.
    pub fn poll_next_frame(&mut self) -> (result: Result<Poll<Option<Frames>>, FrameStreamError>)
        requires
            old(self).wf(),
        ensures
            final(self).wf(),
            viewed_poll(result) == poll_next_frame_spec(old(self)@).0,
            final(self)@ == poll_next_frame_spec(old(self)@).1,
    {
        if self.remaining_data != 0 {
            return Err(FrameStreamError::Proto(FrameProtocolError::Malformed));
        }
        let ghost start = self@;
        let ghost all = joined(start.chunks);
        proof {
            assert(all.skip(0) =~= all);
        }
        loop
            invariant
                self.wf(),
                start == old(self)@,
                start.remaining_data == 0,
                all == joined(start.chunks),
                front_spec(self@.decoder, joined(self@.chunks)) == front_spec(start.decoder, all),
                is_tail(joined(self@.chunks), all),
                self@ == left_with(start, self@.decoder, joined(self@.chunks)),
            decreases joined(self@.chunks).len(),
        {
            let ghost before = self@;
            let ghost s = joined(before.chunks);
            proof {
                lemma_decode_one(before.decoder, s);
                lemma_prefixes(s, before.decoder.max_field_section_size);
                assert(s.skip(0) =~= s);
            }
            if !self.decoder.is_discarding_unknown_payload() {
                match Frame::decode_payload_prefix(&self.stream.buf) {
                    Ok(Some((ty, PayloadLen(len), consumed))) => {
                        // The limit on a whole encoded field section holds though it is
                        // read in pieces.
                        if ty == HEADERS && len > self.decoder.max_field_section_size {
                            return Err(
                                FrameStreamError::Proto(
                                    FrameProtocolError::ExcessiveLoad {
                                        len: len as u64,
                                        limit: self.decoder.max_field_section_size,
                                    },
                                ),
                            );
                        }
                        self.stream.buf.advance(consumed);
                        proof {
                            lemma_left_twice(start, before, self@.decoder, joined(self@.chunks));
                        }
                        self.remaining_data = len;
                        self.data_until_eos = false;
                        return Ok(
                            Poll::Ready(
                                Some(
                                    if ty == HEADERS {
                                        Frames::Headers
                                    } else {
                                        Frames::Frame(Frame::Data(PayloadLen(len)))
                                    },
                                ),
                            ),
                        );
                    },
                    Err(FrameError::Incomplete(_)) => return self.end_without_frame(),
                    Err(error) => return Err(map_frame_error(error)),
                    Ok(None) => {},
                }
            }
            let found = self.decoder.decode_one(&mut self.stream.buf);
            proof {
                lemma_left_twice(start, before, self@.decoder, joined(self@.chunks));
            }
            match found {
                Err(error) => return Err(error),
                Ok(None) => return self.end_without_frame(),
                Ok(Some(DecodedFrame::Ignored)) => {},
                Ok(Some(DecodedFrame::Frame(Frame::WebTransportStream(id)))) => {
                    self.remaining_data = usize::MAX;
                    self.data_until_eos = true;
                    return Ok(
                        Poll::Ready(Some(Frames::Frame(Frame::WebTransportStream(id)))),
                    );
                },
                Ok(Some(DecodedFrame::Frame(frame))) => {
                    return Ok(Poll::Ready(Some(Frames::Frame(frame))));
                },
            }
        }
    }

    /// The next piece of the payload of a DATA frame or of a WebTransport stream, which goes
    /// on to the end of the stream.
    ///
    /// Where there is payload to read and the stream is not at its end, the caller reads from
    /// the transport once before this.
    pub fn poll_data(&mut self) -> (result: Result<Poll<Option<Vec<u8>>>, FrameStreamError>)
        requires
            old(self).wf(),
        ensures
            final(self).wf(),
            viewed_poll(result) == poll_data_spec(old(self)@).0,
            final(self)@ == poll_data_spec(old(self)@).1,
    {
        if self.remaining_data == 0 {
            return Ok(Poll::Ready(None));
        }
        match self.stream.buf.take_chunk(self.remaining_data) {
            None => if !self.stream.eos {
                Ok(Poll::Pending)
            } else if self.data_until_eos {
                self.remaining_data = 0;
                self.data_until_eos = false;
                Ok(Poll::Ready(None))
            } else {
                Err(FrameStreamError::UnexpectedEnd)
            },
            Some(data) => if self.data_until_eos {
                Ok(Poll::Ready(Some(data)))
            } else if self.stream.eos && data.len() < self.remaining_data
                && !self.stream.buf.has_remaining() {
                Err(FrameStreamError::UnexpectedEnd)
            } else {
                self.remaining_data = self.remaining_data - data.len();
                Ok(Poll::Ready(Some(data)))
            },
        }
    }

    /// The next piece of the payload, of at most `max_len` bytes. What is buffered is
    /// consumed before the transport is read again.
    ///
    /// See <https://www.rfc-editor.org/rfc/rfc9114.html#section-4.2.2>.
    pub fn poll_data_chunk(&mut self, max_len: usize) -> (result: Result<
        Poll<Option<Vec<u8>>>,
        FrameStreamError,
    >)
        requires
            old(self).wf(),
            max_len > 0,
        ensures
            final(self).wf(),
            viewed_poll(result) == poll_data_chunk_spec(old(self)@, max_len).0,
            final(self)@ == poll_data_chunk_spec(old(self)@, max_len).1,
    {
        if self.remaining_data == 0 {
            return Ok(Poll::Ready(None));
        }
        let most: usize = if self.remaining_data < max_len {
            self.remaining_data
        } else {
            max_len
        };
        match self.stream.buf.take_chunk(most) {
            Some(data) => {
                self.remaining_data = self.remaining_data - data.len();
                Ok(Poll::Ready(Some(data)))
            },
            None => if self.stream.eos {
                Err(FrameStreamError::UnexpectedEnd)
            } else {
                Ok(Poll::Pending)
            },
        }
    }

    /// Takes a whole payload that lies in one chunk, without reading from the transport; any
    /// other is left as it is.
    pub fn take_buffered_payload(&mut self, max_len: usize) -> (payload: Option<Vec<u8>>)
        requires
            old(self).wf(),
        ensures
            final(self).wf(),
            match buffered_payload(old(self)@, max_len) {
                Some(bytes) => payload matches Some(data) && data@ == bytes && final(self)@ == (
                StreamView {
                    chunks: skipped(old(self)@.chunks, bytes.len()),
                    remaining_data: 0,
                    ..old(self)@
                }),
                None => payload is None && final(self)@ == old(self)@,
            },
    {
        if self.data_until_eos || self.remaining_data > max_len {
            return None;
        }
        if self.remaining_data == 0 {
            let none: Vec<u8> = Vec::new();
            assert(none@ =~= Seq::<u8>::empty());
            return Some(none);
        }
        if self.stream.buf.chunk().len() < self.remaining_data {
            return None;
        }
        let payload = self.stream.buf.take_chunk(self.remaining_data);
        self.remaining_data = 0;
        payload
    }

    /// Whether payload of the current frame has not been read.
    pub fn has_data(&self) -> (yes: bool)
        ensures
            yes == (self.remaining_data != 0),
    {
        self.remaining_data != 0
    }

    /// Whether the stream has ended and everything was read.
    pub fn is_eos(&self) -> (yes: bool)
        requires
            self.wf(),
        ensures
            yes == (self.stream.eos && self.stream.buf.bytes().len() == 0),
    {
        self.stream.eos && !self.stream.buf.has_remaining()
    }

    pub fn id(&self) -> (id: StreamId)
        ensures
            id == self.stream.id,
    {
        self.stream.id
    }

    /// The sending half, which has nothing to decode, and the receiving half, which goes on
    /// where this stream was.
    pub fn split(self) -> (halves: (FrameStream, FrameStream))
        requires
            self.wf(),
        ensures
            halves.0.wf(),
            halves.0@ == unread_stream(self@.id),
            halves.1 == self,
    {
        let id = self.stream.id;
        (FrameStream::new(BufRecvStream::new(id)), self)
    }
}

/// Leaving part of the bytes twice leaves them at once.
proof fn lemma_left_twice(
    start: StreamView,
    before: StreamView,
    decoder: FrameDecoder,
    rest: Seq<u8>,
)
    requires
        is_tail(joined(before.chunks), joined(start.chunks)),
        is_tail(rest, joined(before.chunks)),
        before == left_with(start, before.decoder, joined(before.chunks)),
    ensures
        left_with(before, decoder, rest) == left_with(start, decoder, rest),
        is_tail(rest, joined(start.chunks)),
{
    let all = joined(start.chunks);
    let s = joined(before.chunks);
    assert(rest =~= all.skip(all.len() - rest.len()));
    crate::buf_list::lemma_skipped_twice(
        start.chunks,
        (all.len() - s.len()) as nat,
        (s.len() - rest.len()) as nat,
    );
}

/// Whether it is so that no frame is complete before there are as many bytes as the decoder
/// expects.
pub open spec fn hint_holds(decoder: FrameDecoder, s: Seq<u8>) -> bool {
    match decoder.expected {
        None => true,
        Some(min) => decoder.ignored_payload == 0 && forall|more: Seq<u8>|
            s.len() + more.len() < min ==> #[trigger] looked_at(decoder, s + more) == (
                Ok::<Option<DecodedView>, FrameStreamError>(None),
                decoder,
                s + more,
            ),
    }
}

/// One look at the front of `s`, whatever the decoder expects.
pub open spec fn looked_at(decoder: FrameDecoder, s: Seq<u8>) -> (
    Result<Option<DecodedView>, FrameStreamError>,
    FrameDecoder,
    Seq<u8>,
) {
    if s.len() == 0 {
        (Ok(None), decoder, s)
    } else {
        decode_one_spec(FrameDecoder { expected: None, ..decoder }, s)
    }
}

/// More bytes behind a frame do not change what stands at the front.
proof fn lemma_front_extends(s: Seq<u8>, more: Seq<u8>, max: usize)
    ensures
        match unknown_prefix_spec(s) {
            Ok(Some((ty, len, rest))) => unknown_prefix_spec(s + more) == Ok::<
                Option<(u64, u64, Seq<u8>)>,
                FrameError,
            >(Some((ty, len, rest + more))),
            Err(FrameError::Incomplete(min)) => min == s.len() + 1,
            other => unknown_prefix_spec(s + more) == other,
        },
        match payload_prefix_spec(s) {
            Ok(Some((ty, len, rest))) => payload_prefix_spec(s + more) == Ok::<
                Option<(u64, usize, Seq<u8>)>,
                FrameError,
            >(Some((ty, len, rest + more))),
            Err(FrameError::Incomplete(min)) => min == s.len() + 1,
            other => payload_prefix_spec(s + more) == other,
        },
        match frame_spec(s, max) {
            Ok((frame, rest)) => frame_spec(s + more, max) == Ok::<
                (FrameView<PayloadLen>, Seq<u8>),
                FrameError,
            >((frame, rest + more)),
            Err(FrameError::Incomplete(min)) => s.len() + more.len() < min ==> frame_spec(
                s + more,
                max,
            ) == frame_spec(s, max),
            other => frame_spec(s + more, max) == other,
        },
{
    crate::proto::varint::lemma_extends(s, more);
    if more.len() == 0 {
        assert(s + more =~= s);
    }
    if let Some((ty, rest)) = crate::proto::varint::decode_spec(s) {
        crate::proto::varint::lemma_extends(rest, more);
        if let Some((len, after)) = crate::proto::varint::decode_spec(rest) {
            if after.len() >= len {
                assert((after + more).take(len as int) =~= after.take(len as int));
                assert((after + more).skip(len as int) =~= after.skip(len as int) + more);
            }
            if more.len() == 0 {
                assert(after + more =~= after);
            }
        }
        if more.len() == 0 {
            assert(rest + more =~= rest);
        }
    }
}

/// Whether two looks found the same, and left the same behind. After an error what is left
/// does not matter.
pub open spec fn alike<T>(
    a: (Result<T, FrameStreamError>, FrameDecoder, Seq<u8>),
    b: (Result<T, FrameStreamError>, FrameDecoder, Seq<u8>),
) -> bool {
    match a.0 {
        Err(error) => b.0 == Err::<T, FrameStreamError>(error),
        Ok(_) => a == b,
    }
}

/// How a look at the bytes goes on when more have arrived.
pub proof fn lemma_look_extends(decoder: FrameDecoder, s: Seq<u8>, more: Seq<u8>)
    requires
        hint_holds(decoder, s),
    ensures
        ({
            let (found, after, rest) = decode_one_spec(decoder, s);
            &&& match found {
                Ok(None) => hint_holds(after, rest) && alike(
                    decode_one_spec(after, rest + more),
                    decode_one_spec(decoder, s + more),
                ),
                _ => decode_one_spec(decoder, s + more) == (found, after, rest + more),
            }
        }),
{
    let max = decoder.max_field_section_size;
    let (found, after, rest) = decode_one_spec(decoder, s);
    assert(Seq::<u8>::empty() + more =~= more);
    if decoder.ignored_payload != 0 {
        lemma_discard_extends(decoder, s, more);
    } else if s.len() == 0 {
    } else if decoder.expected matches Some(min) && s.len() < min {
    } else {
        lemma_front_extends(s, more, max);
        match unknown_prefix_spec(s) {
            Ok(Some((ty, len, tail))) => {
                lemma_discard_extends(
                    FrameDecoder { expected: None, ignored_payload: len, ..decoder },
                    tail,
                    more,
                );
            },
            Err(FrameError::Incomplete(min)) => {
                assert forall|extra: Seq<u8>| s.len() + extra.len() < min implies #[trigger] looked_at(
                    after,
                    s + extra,
                ) == (Ok::<Option<DecodedView>, FrameStreamError>(None), after, s + extra) by {
                    assert(s + extra =~= s);
                }
                if more.len() == 0 {
                    assert(s + more =~= s);
                }
            },
            Err(_) => {},
            Ok(None) => match frame_spec(s, max) {
                Err(FrameError::Incomplete(min)) => {
                    assert forall|extra: Seq<u8>|
                        s.len() + extra.len() < min implies #[trigger] looked_at(after, s + extra)
                        == (
                        Ok::<Option<DecodedView>, FrameStreamError>(None),
                        after,
                        s + extra,
                    ) by {
                        lemma_front_extends(s, extra, max);
                    }
                },
                _ => {},
            },
        }
    }
}

/// Passing over a payload as it comes passes over it.
proof fn lemma_discard_extends(decoder: FrameDecoder, s: Seq<u8>, more: Seq<u8>)
    ensures
        ({
            let (found, after, rest) = discard_spec(decoder, s);
            match found {
                None => rest.len() == 0 && after.ignored_payload != 0 && discard_spec(
                    after,
                    rest + more,
                ) == discard_spec(decoder, s + more),
                Some(_) => discard_spec(decoder, s + more) == (found, after, rest + more),
            }
        }),
{
    let (found, after, rest) = discard_spec(decoder, s);
    let n = discarded(decoder, s) as int;
    if found is None {
        let m = discarded(after, rest + more) as int;
        assert((rest + more).skip(m) =~= (s + more).skip(n + m));
    } else {
        assert((s + more).skip(n) =~= s.skip(n) + more);
    }
}

/// The frames of a stream do not depend on how its bytes are cut: where the bytes that are
/// there hold no frame, looking again when more have arrived gives what all of them together
/// give.
pub proof fn frames_do_not_depend_on_chunks(decoder: FrameDecoder, s: Seq<u8>, more: Seq<u8>)
    requires
        hint_holds(decoder, s),
    ensures
        ({
            let (found, after, rest) = decode_spec(decoder, s);
            match found {
                Ok(None) => hint_holds(after, rest) && alike(
                    decode_spec(after, rest + more),
                    decode_spec(decoder, s + more),
                ),
                _ => decode_spec(decoder, s + more) == (found, after, rest + more),
            }
        }),
    decreases s.len(),
{
    lemma_look_extends(decoder, s, more);
    lemma_decode_one(decoder, s);
    lemma_decode_one(decoder, s + more);
    let (found, after, rest) = decode_one_spec(decoder, s);
    if found == Ok::<Option<DecodedView>, FrameStreamError>(Some(DecodedView::Ignored)) {
        lemma_hint_cleared(decoder, s);
        frames_do_not_depend_on_chunks(after, rest, more);
    } else if found == Ok::<Option<DecodedView>, FrameStreamError>(None) {
        lemma_decode_one(after, rest + more);
    }
}

/// A decoder that has passed over a frame expects nothing.
proof fn lemma_hint_cleared(decoder: FrameDecoder, s: Seq<u8>)
    requires
        hint_holds(decoder, s),
        decode_one_spec(decoder, s).0 matches Ok(Some(_)),
    ensures
        decode_one_spec(decoder, s).1.expected is None,
{
    lemma_decode_one(decoder, s);
}

/// What stands at the front of a stream does not depend on how its bytes are cut either.
pub proof fn fronts_do_not_depend_on_chunks(decoder: FrameDecoder, s: Seq<u8>, more: Seq<u8>)
    requires
        hint_holds(decoder, s),
    ensures
        ({
            let (found, after, rest) = front_spec(decoder, s);
            match found {
                Ok(None) => hint_holds(after, rest) && alike(
                    front_spec(after, rest + more),
                    front_spec(decoder, s + more),
                ),
                _ => front_spec(decoder, s + more) == (found, after, rest + more),
            }
        }),
    decreases s.len(),
{
    lemma_look_extends(decoder, s, more);
    lemma_decode_one(decoder, s);
    lemma_decode_one(decoder, s + more);
    lemma_front_extends(s, more, decoder.max_field_section_size);
    let (found, after, rest) = decode_one_spec(decoder, s);
    if decoder.ignored_payload != 0 || payload_prefix_spec(s) == Ok::<
        Option<(u64, usize, Seq<u8>)>,
        FrameError,
    >(None) {
        if found == Ok::<Option<DecodedView>, FrameStreamError>(Some(DecodedView::Ignored)) {
            lemma_hint_cleared(decoder, s);
            fronts_do_not_depend_on_chunks(after, rest, more);
        } else if found == Ok::<Option<DecodedView>, FrameStreamError>(None) {
            lemma_decode_one(after, rest + more);
            if decoder.ignored_payload == 0 && after.ignored_payload == 0 {
                assert(rest == s);
            }
        }
    }
}

/// A piece of a payload is the next bytes of the stream, and what is left to read of the
/// payload is shorter by it.
pub proof fn payload_is_read_in_order(v: StreamView, max_len: usize)
    requires
        max_len > 0,
        forall|i: int| 0 <= i < v.chunks.len() ==> (#[trigger] v.chunks[i]).len() > 0,
    ensures
        ({
            let (result, after) = poll_data_chunk_spec(v, max_len);
            result matches Ok(Poll::Ready(Some(data))) ==> {
                &&& 0 < data.len() <= max_len
                &&& data + joined(after.chunks) == joined(v.chunks)
                &&& data.len() + after.remaining_data == v.remaining_data
            }
        }),
        ({
            let (result, after) = poll_data_spec(v);
            result matches Ok(Poll::Ready(Some(data))) ==> {
                &&& 0 < data.len() <= v.remaining_data
                &&& data + joined(after.chunks) == joined(v.chunks)
                &&& if v.data_until_eos {
                    after.remaining_data == v.remaining_data
                } else {
                    data.len() + after.remaining_data == v.remaining_data
                }
            }
        }),
{
    if v.chunks.len() > 0 {
        lemma_front_taken(v.chunks, v.remaining_data);
        lemma_front_taken(v.chunks, max_len);
    }
}

proof fn lemma_front_taken(chunks: Seq<Seq<u8>>, max_len: usize)
    requires
        chunks.len() > 0,
    ensures
        chunk_taken(chunks, max_len) + joined(
            skipped(chunks, chunk_taken(chunks, max_len).len()),
        ) == joined(chunks),
{
    let data = chunk_taken(chunks, max_len);
    let after = skipped(chunks, data.len());
    if data.len() == 0 {
    } else if data.len() == chunks[0].len() {
        assert(skipped(chunks.skip(1), 0) == chunks.skip(1));
    } else {
        assert(after[0] == chunks[0].skip(data.len() as int));
        assert(after.skip(1) =~= chunks.skip(1));
        assert(data + (after[0] + joined(after.skip(1))) =~= joined(chunks));
    }
    assert(data + joined(after) =~= joined(chunks));
}

/// A piece of a payload is taken off the front of the bytes, and nothing else is.
pub proof fn lemma_data_taken(v: StreamView)
    ensures
        ({
            let (result, after) = poll_data_spec(v);
            &&& result matches Ok(Poll::Ready(Some(data))) ==> {
                &&& data + joined(after.chunks) == joined(v.chunks)
                &&& data.len() <= v.remaining_data
                &&& !v.data_until_eos ==> data.len() + after.remaining_data == v.remaining_data
            }
            &&& result is Ok && !(result matches Ok(Poll::Ready(Some(_)))) ==> after.chunks
                == v.chunks
        }),
{
    if v.chunks.len() > 0 {
        lemma_front_taken(v.chunks, v.remaining_data);
    }
}

/// What a transport can have to say.
pub enum Arrival {
    Nothing,
    Bytes(Seq<u8>),
    End,
}

/// The stream with what the transport had to say.
pub open spec fn with_arrival(v: StreamView, arrival: Arrival) -> StreamView {
    match arrival {
        Arrival::Nothing => v,
        Arrival::Bytes(chunk) => StreamView {
            chunks: if chunk.len() == 0 {
                v.chunks
            } else {
                v.chunks.push(chunk)
            },
            ..v
        },
        Arrival::End => StreamView { eos: true, ..v },
    }
}

/// Whether nothing arrives once the stream has ended.
pub open spec fn arrives_in_order(eos: bool, arrivals: Seq<Arrival>) -> bool
    decreases arrivals.len(),
{
    arrivals.len() == 0 || match arrivals[0] {
        Arrival::Nothing => arrives_in_order(eos, arrivals.skip(1)),
        Arrival::Bytes(_) => !eos && arrives_in_order(eos, arrivals.skip(1)),
        Arrival::End => arrives_in_order(true, arrivals.skip(1)),
    }
}

/// All the bytes that arrive.
pub open spec fn arrived(arrivals: Seq<Arrival>) -> Seq<u8>
    decreases arrivals.len(),
{
    if arrivals.len() == 0 {
        Seq::empty()
    } else {
        match arrivals[0] {
            Arrival::Bytes(chunk) => chunk + arrived(arrivals.skip(1)),
            _ => arrived(arrivals.skip(1)),
        }
    }
}

/// Reading a payload to its end, with one look at the transport before each step: the pieces,
/// one after the other, and how it ended, where it has.
pub open spec fn payload_run(v: StreamView, arrivals: Seq<Arrival>) -> (
    Seq<u8>,
    Option<Result<(), FrameStreamError>>,
)
    decreases arrivals.len(),
{
    if arrivals.len() == 0 {
        (Seq::empty(), None)
    } else {
        let (result, after) = poll_data_spec(with_arrival(v, arrivals[0]));
        match result {
            Err(error) => (Seq::empty(), Some(Err(error))),
            Ok(Poll::Ready(None)) => (Seq::empty(), Some(Ok(()))),
            Ok(Poll::Pending) => payload_run(after, arrivals.skip(1)),
            Ok(Poll::Ready(Some(data))) => {
                let (rest, end) = payload_run(after, arrivals.skip(1));
                (data + rest, end)
            },
        }
    }
}

proof fn lemma_nothing_after_end(arrivals: Seq<Arrival>)
    requires
        arrives_in_order(true, arrivals),
    ensures
        arrived(arrivals) == Seq::<u8>::empty(),
    decreases arrivals.len(),
{
    if arrivals.len() > 0 {
        lemma_nothing_after_end(arrivals.skip(1));
    }
}

/// Chunks that all hold something do so when the first bytes are taken.
proof fn lemma_chunks_stay_filled(v: StreamView)
    requires
        forall|i: int| 0 <= i < v.chunks.len() ==> (#[trigger] v.chunks[i]).len() > 0,
    ensures
        ({
            let after = poll_data_spec(v).1;
            forall|i: int| 0 <= i < after.chunks.len() ==> (#[trigger] after.chunks[i]).len() > 0
        }),
{
    if v.remaining_data != 0 && v.chunks.len() > 0 {
        let data = chunk_taken(v.chunks, v.remaining_data);
        let after = skipped(v.chunks, data.len());
        let rest = v.chunks.skip(1);
        if data.len() == v.chunks[0].len() {
            assert(after == skipped(rest, 0));
            assert(after =~= rest);
        } else {
            assert(after =~= seq![v.chunks[0].skip(data.len() as int)] + rest);
        }
        assert forall|i: int| 0 <= i < after.len() implies (#[trigger] after[i]).len() > 0 by {
            if data.len() == v.chunks[0].len() {
                assert(after[i] == v.chunks[i + 1]);
            } else if i > 0 {
                assert(after[i] == v.chunks[i]);
            }
        }
    }
}

/// The payload of a frame is read whole or not at all: what is read, in however many pieces,
/// are the first bytes that follow the frame's header, and never more of them than the frame
/// holds; that the payload has ended is told exactly when all of it was read; and where the
/// stream ends before, that is told as an error.
pub proof fn payloads_are_read_whole(v: StreamView, arrivals: Seq<Arrival>)
    requires
        !v.data_until_eos,
        forall|i: int| 0 <= i < v.chunks.len() ==> (#[trigger] v.chunks[i]).len() > 0,
        arrives_in_order(v.eos, arrivals),
    ensures
        ({
            let (data, end) = payload_run(v, arrivals);
            let all = joined(v.chunks) + arrived(arrivals);
            let n = v.remaining_data;
            &&& data.len() <= n
            &&& data.len() <= all.len()
            &&& data == all.take(data.len() as int)
            &&& match end {
                Some(Ok(_)) => data.len() == n,
                Some(Err(error)) => error == FrameStreamError::UnexpectedEnd && all.len() < n,
                None => true,
            }
            &&& end is Some ==> (end == Some(Ok::<(), FrameStreamError>(())) <==> data.len() == n)
        }),
    decreases arrivals.len(),
{
    let all = joined(v.chunks) + arrived(arrivals);
    if arrivals.len() == 0 {
        assert(all.take(0) =~= Seq::<u8>::empty());
    } else {
        let now = with_arrival(v, arrivals[0]);
        let later = arrivals.skip(1);
        if let Arrival::Bytes(chunk) = arrivals[0] {
            crate::buf_list::lemma_joined_push(v.chunks, chunk);
        }
        assert(joined(now.chunks) + arrived(later) =~= all);
        assert forall|i: int| 0 <= i < now.chunks.len() implies (#[trigger] now.chunks[i]).len()
            > 0 by {
            if i < v.chunks.len() {
                assert(now.chunks[i] == v.chunks[i]);
            }
        }
        let (result, after) = poll_data_spec(now);
        payload_is_read_in_order(now, 1);
        lemma_chunks_stay_filled(now);
        if now.chunks.len() > 0 {
            lemma_front_taken(now.chunks, now.remaining_data);
        }
        if now.eos {
            lemma_nothing_after_end(later);
        }
        match result {
            Err(_) => {
                assert(all.take(0) =~= Seq::<u8>::empty());
                assert(joined(after.chunks) =~= Seq::<u8>::empty());
            },
            Ok(Poll::Ready(None)) => {
                assert(all.take(0) =~= Seq::<u8>::empty());
            },
            Ok(Poll::Pending) => {
                payloads_are_read_whole(after, later);
            },
            Ok(Poll::Ready(Some(data))) => {
                payloads_are_read_whole(after, later);
                let (rest, end) = payload_run(after, later);
                let remaining = joined(after.chunks) + arrived(later);
                assert(data + remaining =~= all);
                assert(data + rest =~= all.take((data.len() + rest.len()) as int));
            },
        }
    }
}

} // verus!
