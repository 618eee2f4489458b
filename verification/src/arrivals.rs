//! What becomes of the streams that a peer opens, and of the fronts of their frames.
use vstd::prelude::*;
use crate::buf_list::{joined, lemma_skipped_joined};
use crate::config::grease_id;
use crate::connection::{
    grease_after, grease_stream_bytes, is_stream, taken, ConnectionInner, GreaseEvent, GreaseStatus,
};
use crate::delivery::{between_frames, spelled, unknown_frames_are_passed_over};
use crate::error::{Code, ErrorOrigin};
use crate::frame::{
    buffered_payload, decode_spec as next_frame, poll_next_frame_spec, BufRecvStream, FrameDecoder,
    FrameStream, FrameStreamError, FramesView, Poll, StreamView,
};
use crate::proto::frame::{frame_bytes, grease_payload, FrameView, PayloadLen};
use crate::proto::varint;
use crate::quic::MAX_VARINT;
use crate::stream::{type_spec, AcceptedRecvStream};

verus! {

/// A stream is what the number of its type says, and what follows the type is what there is to
/// read on it.
///
/// See <https://www.rfc-editor.org/rfc/rfc9114.html#section-6.2> and
/// <https://www.rfc-editor.org/rfc/rfc9204.html#section-4.2>.
pub proof fn streams_are_what_their_types_say(
    accepted: AcceptedRecvStream,
    ty: u64,
    id: Option<u64>,
    stream: BufRecvStream,
    rest: Seq<u8>,
)
    requires
        is_stream(accepted, ty, id, stream, rest),
    ensures
        accepted is Control <==> ty == 0x0,
        accepted is Push <==> ty == 0x1,
        accepted is Encoder <==> ty == 0x2,
        accepted is Decoder <==> ty == 0x3,
        accepted is WebTransportUni <==> ty == 0x54,
        accepted matches AcceptedRecvStream::Control(frames) ==> {
            &&& frames.stream.buf.bytes() == rest
            &&& between_frames(frames@, joined(frames@.chunks))
        },
        accepted matches AcceptedRecvStream::Push(recv) ==> recv.buf.bytes() == rest,
        accepted matches AcceptedRecvStream::Encoder(recv) ==> recv.buf.bytes() == rest,
        accepted matches AcceptedRecvStream::Decoder(recv) ==> recv.buf.bytes() == rest,
        accepted matches AcceptedRecvStream::WebTransportUni(session, recv) ==> recv.buf.bytes()
            == rest && id == Some(session),
        accepted matches AcceptedRecvStream::Unknown(recv) ==> recv.buf.bytes() == rest,
{
}

/// The first control stream, encoder stream and decoder stream are taken as they are; a second
/// one fails the connection. A stream without a meaning is not read, and the peer is told so.
///
/// See <https://www.rfc-editor.org/rfc/rfc9114.html#section-6.2>.
pub proof fn streams_are_taken_once<W>(
    before: ConnectionInner<W>,
    after: ConnectionInner<W>,
    frames: FrameStream,
    recv: BufRecvStream,
    result: Result<Option<(BufRecvStream, Code)>, ErrorOrigin>,
)
    requires
        before.shared.connection_error is None,
    ensures
        taken(before, after, AcceptedRecvStream::Control(frames), result) ==> {
            if before.control_recv is None {
                result is Ok && result->Ok_0 is None && after.control_recv == Some(frames)
            } else {
                &&& result matches Err(ErrorOrigin::Internal(error))
                &&& error.code == Code::H3_STREAM_CREATION_ERROR
                &&& after.control_recv == before.control_recv
                &&& after.shared.connection_error == Some(result->Err_0)
            }
        },
        taken(before, after, AcceptedRecvStream::Encoder(recv), result) ==> {
            if before.qpack_streams.encoder_recv is None {
                result is Ok && result->Ok_0 is None && after.qpack_streams.encoder_recv == Some(
                    recv,
                )
            } else {
                &&& result matches Err(ErrorOrigin::Internal(error))
                &&& error.code == Code::H3_STREAM_CREATION_ERROR
                &&& after.shared.connection_error == Some(result->Err_0)
            }
        },
        taken(before, after, AcceptedRecvStream::Decoder(recv), result) ==> {
            if before.qpack_streams.decoder_recv is None {
                result is Ok && result->Ok_0 is None && after.qpack_streams.decoder_recv == Some(
                    recv,
                )
            } else {
                &&& result matches Err(ErrorOrigin::Internal(error))
                &&& error.code == Code::H3_STREAM_CREATION_ERROR
                &&& after.shared.connection_error == Some(result->Err_0)
            }
        },
        taken(before, after, AcceptedRecvStream::Unknown(recv), result) ==> {
            &&& result is Ok
            &&& result->Ok_0 == Some((recv, Code::H3_STREAM_CREATION_ERROR))
            &&& after == before
        },
{
}

/// The streams of sessions are kept, each with its session, in the order in which they came,
/// where sessions are enabled.
pub proof fn session_streams_are_kept<W>(
    before: ConnectionInner<W>,
    after: ConnectionInner<W>,
    session: u64,
    recv: BufRecvStream,
    result: Result<Option<(BufRecvStream, Code)>, ErrorOrigin>,
    i: int,
)
    requires
        taken(before, after, AcceptedRecvStream::WebTransportUni(session, recv), result),
        0 <= i < before.accepted_streams.wt_uni_streams@.len(),
    ensures
        result is Ok && result->Ok_0 is None,
        after.accepted_streams.wt_uni_streams@[i] == before.accepted_streams.wt_uni_streams@[i],
        before.config.settings.enable_webtransport ==> {
            &&& after.accepted_streams.wt_uni_streams@.last() == (session, recv)
            &&& after.accepted_streams.wt_uni_streams@.len()
                == before.accepted_streams.wt_uni_streams@.len() + 1
        },
{
}

/// Where the front of a HEADERS or a DATA frame has arrived, all of its payload is to be read
/// next, and nothing of it was taken.
pub proof fn fronts_are_found(v: StreamView, ty: u64, len: u64, rest: Seq<u8>)
    requires
        ty == 0x0 || ty == 0x1,
        len <= MAX_VARINT,
        len <= usize::MAX,
        ty == 0x1 ==> len <= v.decoder.max_field_section_size,
        between_frames(v, varint::encode_spec(ty) + varint::encode_spec(len) + rest),
    ensures
        ({
            let (result, after) = poll_next_frame_spec(v);
            &&& result == Ok::<Poll<Option<FramesView>>, FrameStreamError>(
                Poll::Ready(
                    Some(
                        if ty == 0x1 {
                            FramesView::Headers
                        } else {
                            FramesView::Frame(FrameView::Data(PayloadLen(len as usize)))
                        },
                    ),
                ),
            )
            &&& joined(after.chunks) == rest
            &&& after.remaining_data == len
            &&& !after.data_until_eos
            &&& after.eos == v.eos
            &&& after.decoder == v.decoder
        }),
{
    let s = varint::encode_spec(ty) + varint::encode_spec(len) + rest;
    assert(s =~= varint::encode_spec(ty) + (varint::encode_spec(len) + rest));
    varint::round_trip(ty, varint::encode_spec(len) + rest);
    varint::round_trip(len, rest);
    lemma_skipped_joined(v.chunks, (s.len() - rest.len()) as nat);
    assert(s.skip(s.len() - rest.len()) =~= rest);
}

/// A payload that is handed over at once is all of the payload, and it is handed over where it
/// lies in the first chunk and is not longer than permitted.
pub proof fn payloads_are_handed_over_whole(v: StreamView, max_len: usize)
    ensures
        buffered_payload(v, max_len) matches Some(data) ==> {
            &&& data.len() == v.remaining_data
            &&& data.len() <= max_len
            &&& !v.data_until_eos
            &&& v.remaining_data > 0 ==> v.chunks.len() > 0 && data == v.chunks[0].take(
                v.remaining_data as int,
            )
        },
        !v.data_until_eos && 0 < v.remaining_data <= max_len && v.chunks.len() > 0
            && v.chunks[0].len() >= v.remaining_data ==> buffered_payload(v, max_len) is Some,
        !v.data_until_eos && v.remaining_data == 0 ==> buffered_payload(v, max_len) == Some(
            Seq::<u8>::empty(),
        ),
{
}

/// What is sent only to be ignored is ignored: the type of the stream has no meaning, and what
/// follows the frame is found as if the frame were not there.
///
/// See <https://www.rfc-editor.org/rfc/rfc9114.html#section-6.2.3> and
/// <https://www.rfc-editor.org/rfc/rfc9114.html#section-7.2.8>.
pub proof fn grease_is_ignored(n: u64, decoder: FrameDecoder, rest: Seq<u8>)
    requires
        decoder.ignored_payload == 0,
        decoder.expected is None,
    ensures
        next_frame(decoder, frame_bytes(FrameView::Grease(n)) + rest) == next_frame(decoder, rest),
        type_spec(grease_stream_bytes(n) + rest) matches Some((ty, id, left)) && ty % 0x1f == 2
            && ty >= 0x21 && ty != 0x54 && id is None && left == frame_bytes(FrameView::Grease(n))
            + rest,
{
    let ty = grease_id(n) as u64;
    let k = n % 0x1000_0000;
    assert((0x1f * k + 0x21) % 0x1f == 2 && 0x21 <= 0x1f * k + 0x21 <= 0x1f * 0x1000_0000 + 0x21)
        by (nonlinear_arith)
        requires
            0 <= k < 0x1000_0000,
    ;
    assert(frame_bytes(FrameView::Grease(n)) =~= spelled(ty, grease_payload()));
    unknown_frames_are_passed_over(decoder, ty, grease_payload(), rest);
    let tail = frame_bytes(FrameView::Grease(n)) + rest;
    assert(grease_stream_bytes(n) + rest =~= varint::encode_spec(ty) + tail);
    varint::round_trip(ty, tail);
}

/// A grease stream is opened, prepared, flushed and finished, one after the other, and waiting
/// in between changes nothing.
pub proof fn grease_streams_run_their_course(step: GreaseStatus)
    ensures
        grease_after(GreaseStatus::NotStarted, true, GreaseEvent::Done) == (
            GreaseStatus::Started,
            true,
        ),
        grease_after(GreaseStatus::Started, true, GreaseEvent::Done) == (
            GreaseStatus::DataPrepared,
            true,
        ),
        grease_after(GreaseStatus::DataPrepared, true, GreaseEvent::Done) == (
            GreaseStatus::DataSent,
            true,
        ),
        grease_after(GreaseStatus::DataSent, true, GreaseEvent::Done) == (
            GreaseStatus::Finished,
            false,
        ),
        grease_after(step, true, GreaseEvent::Pending) == (step, true),
{
}

} // verus!
