//! Unidirectional streams.
//!
//! See <https://www.rfc-editor.org/rfc/rfc9114.html#section-6.2>.
use vstd::prelude::*;
use crate::buf::Reader;
use crate::frame::{BufRecvStream, FrameStream, Poll};
use crate::proto::frame::{
    frame_bytes, settings_bytes, settings_in_range, FrameView, Settings, SETTINGS,
};
use crate::proto::varint;
use crate::quic::MAX_VARINT;

verus! {

/// The types of streams.
pub const CONTROL: u64 = 0x0;

pub const PUSH: u64 = 0x1;

pub const ENCODER: u64 = 0x2;

pub const DECODER: u64 = 0x3;

pub const WEBTRANSPORT_UNI: u64 = 0x54;

/// The bytes at the front of a control stream: its type and the settings.
///
/// See <https://www.rfc-editor.org/rfc/rfc9114.html#section-6.2.1>.
pub open spec fn control_header_bytes(entries: Seq<(u64, u64)>) -> Seq<u8> {
    varint::encode_spec(CONTROL) + frame_bytes(FrameView::Settings(entries))
}

/// The bytes at the front of a control stream, unless the settings do not fit in a frame.
pub fn control_header(settings: &Settings) -> (header: Option<Vec<u8>>)
    requires
        settings_in_range(settings@),
    ensures
        if settings_bytes(settings@).len() <= MAX_VARINT {
            header matches Some(bytes) && bytes@ == control_header_bytes(settings@)
        } else {
            header is None
        },
{
    let mut payload: Vec<u8> = Vec::new();
    settings.encode(&mut payload);
    assert(payload@ =~= settings_bytes(settings@));
    if payload.len() as u64 > MAX_VARINT {
        return None;
    }
    let mut header: Vec<u8> = Vec::new();
    varint::encode(CONTROL, &mut header);
    crate::proto::frame::put_frame(SETTINGS, payload.as_slice(), &mut header);
    assert(header@ =~= control_header_bytes(settings@));
    Some(header)
}

/// The bytes at the front of a stream that carries nothing but its type there.
pub fn type_header(ty: u64) -> (header: Vec<u8>)
    requires
        ty <= MAX_VARINT,
    ensures
        header@ == varint::encode_spec(ty),
{
    let mut header: Vec<u8> = Vec::new();
    varint::encode(ty, &mut header);
    assert(header@ =~= varint::encode_spec(ty));
    header
}

/// The type of a stream and, of a stream that belongs to a push or a session, the identifier
/// of it, and what follows them.
pub open spec fn type_spec(s: Seq<u8>) -> Option<(u64, Option<u64>, Seq<u8>)> {
    match varint::decode_spec(s) {
        None => None,
        Some((ty, rest)) => if ty == PUSH || ty == WEBTRANSPORT_UNI {
            match varint::decode_spec(rest) {
                None => None,
                Some((id, rest)) => Some((ty, Some(id), rest)),
            }
        } else {
            Some((ty, None, rest))
        },
    }
}

/// A stream that the peer opened, of which the type may not have arrived.
pub struct AcceptRecvStream {
    pub stream: BufRecvStream,
    pub ty: Option<u64>,
    pub id: Option<u64>,
}

/// Why a stream has no type.
#[derive(Debug, Clone, Copy, PartialEq, Eq, Structural)]
pub enum PollTypeError {
    /// The stream ended before its type.
    EndOfStream,
}

impl AcceptRecvStream {
    pub fn new(stream: BufRecvStream) -> (accept: Self)
        ensures
            accept.stream == stream,
            accept.ty is None,
            accept.id is None,
    {
        AcceptRecvStream { stream, ty: None, id: None }
    }

    /// Reads the type of the stream, where it has arrived.
    pub fn poll_type(&mut self) -> (result: Result<Poll<()>, PollTypeError>)
        requires
            old(self).stream.buf.wf(),
            old(self).ty is None,
        ensures
            final(self).stream.buf.wf(),
            final(self).stream.eos == old(self).stream.eos,
            final(self).stream.id == old(self).stream.id,
            match type_spec(old(self).stream.buf.bytes()) {
                Some((ty, id, rest)) => {
                    &&& result == Ok::<Poll<()>, PollTypeError>(Poll::Ready(()))
                    &&& final(self).ty == Some(ty)
                    &&& final(self).id == id
                    &&& final(self).stream.buf.bytes() == rest
                },
                None => {
                    &&& result == if old(self).stream.eos {
                        Err::<Poll<()>, PollTypeError>(PollTypeError::EndOfStream)
                    } else {
                        Ok(Poll::Pending)
                    }
                    &&& *final(self) == *old(self)
                },
            },
    {
        let front = self.stream.buf.copy(0, 16);
        let ghost s = self.stream.buf.bytes();
        let ghost more = if s.len() < 16 {
            Seq::<u8>::empty()
        } else {
            s.skip(16)
        };
        proof {
            assert(s.skip(0) =~= s);
            assert(front@ + more =~= s);
            varint::lemma_extends(front@, more);
            if let Some((ty, rest)) = varint::decode_spec(front@) {
                varint::lemma_extends(rest, more);
            }
        }
        let mut buf = Reader::new(front.as_slice());
        let missing = if self.stream.eos {
            Err(PollTypeError::EndOfStream)
        } else {
            Ok(Poll::Pending)
        };
        let ty: u64 = match varint::decode(&mut buf) {
            None => return missing,
            Some(ty) => ty,
        };
        let id: Option<u64> = if ty == PUSH || ty == WEBTRANSPORT_UNI {
            match varint::decode(&mut buf) {
                None => return missing,
                Some(id) => Some(id),
            }
        } else {
            None
        };
        let consumed: usize = front.len() - buf.remaining();
        proof {
            lemma_type_consumes(front@);
            assert(front@.skip(consumed as int) + more =~= s.skip(consumed as int));
        }
        self.stream.buf.advance(consumed);
        self.ty = Some(ty);
        self.id = id;
        Ok(Poll::Ready(()))
    }

    /// The stream as what it is.
    pub fn into_stream(self) -> (accepted: AcceptedRecvStream)
        requires
            self.stream.buf.wf(),
        ensures
            accepted.wf(),
            match self.ty {
                Some(CONTROL) => accepted matches AcceptedRecvStream::Control(frames)
                    && frames.stream == self.stream && frames.decoder
                    == crate::frame::fresh_decoder() && frames.remaining_data == 0
                    && !frames.data_until_eos,
                Some(ENCODER) => accepted == AcceptedRecvStream::Encoder(self.stream),
                Some(DECODER) => accepted == AcceptedRecvStream::Decoder(self.stream),
                Some(WEBTRANSPORT_UNI) => match self.id {
                    Some(id) => accepted == AcceptedRecvStream::WebTransportUni(id, self.stream),
                    None => accepted == AcceptedRecvStream::Unknown(self.stream),
                },
                Some(PUSH) => accepted == AcceptedRecvStream::Push(self.stream),
                _ => accepted == AcceptedRecvStream::Unknown(self.stream),
            },
    {
        match self.ty {
            Some(CONTROL) => AcceptedRecvStream::Control(FrameStream::new(self.stream)),
            Some(ENCODER) => AcceptedRecvStream::Encoder(self.stream),
            Some(DECODER) => AcceptedRecvStream::Decoder(self.stream),
            Some(WEBTRANSPORT_UNI) => match self.id {
                Some(id) => AcceptedRecvStream::WebTransportUni(id, self.stream),
                None => AcceptedRecvStream::Unknown(self.stream),
            },
            Some(PUSH) => AcceptedRecvStream::Push(self.stream),
            _ => AcceptedRecvStream::Unknown(self.stream),
        }
    }
}

proof fn lemma_type_consumes(s: Seq<u8>)
    ensures
        type_spec(s) matches Some((ty, id, rest)) ==> rest.len() < s.len() && rest == s.skip(
            s.len() - rest.len(),
        ),
{
    if let Some((ty, rest)) = varint::decode_spec(s) {
        assert(rest =~= s.skip(s.len() - rest.len()));
        if let Some((id, after)) = varint::decode_spec(rest) {
            assert(after =~= s.skip(s.len() - after.len()));
        }
    }
}

/// A stream that the peer opened, as what it is.
pub enum AcceptedRecvStream {
    Control(FrameStream),
    Push(BufRecvStream),
    Encoder(BufRecvStream),
    Decoder(BufRecvStream),
    WebTransportUni(u64, BufRecvStream),
    Unknown(BufRecvStream),
}

impl AcceptedRecvStream {
    pub open spec fn wf(&self) -> bool {
        match *self {
            AcceptedRecvStream::Control(frames) => frames.wf(),
            AcceptedRecvStream::Push(stream) => stream.buf.wf(),
            AcceptedRecvStream::Encoder(stream) => stream.buf.wf(),
            AcceptedRecvStream::Decoder(stream) => stream.buf.wf(),
            AcceptedRecvStream::WebTransportUni(_, stream) => stream.buf.wf(),
            AcceptedRecvStream::Unknown(stream) => stream.buf.wf(),
        }
    }
}

} // verus!
