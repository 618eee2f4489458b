use std::cell::Cell;
use std::collections::VecDeque;
use std::rc::Rc;

use http3::buf_list::BufList;
use http3::frame::{
    BufRecvStream, FrameDecoder, FrameProtocolError, FrameStream, FrameStreamError, Frames, Poll,
};
use http3::proto::frame::{Frame, PayloadLen, DATA, HEADERS};
use http3::proto::varint;
use http3::quic::{StreamId, MAX_VARINT};

/// Types that carry no meaning.
const RESERVED: u64 = 0x21;
const GREASE: u64 = 0x21 + 0x1f * 1234;

fn list(chunks: &[&[u8]]) -> BufList {
    let mut list = BufList::new();
    for chunk in chunks {
        list.push(chunk.to_vec());
    }
    list
}

/// A transport stream with the chunks that it will deliver.
#[derive(Default)]
struct FakeRecv {
    chunks: VecDeque<Vec<u8>>,
    reads: Rc<Cell<usize>>,
    pending_when_empty: bool,
}

impl FakeRecv {
    fn chunk(&mut self, buf: Vec<u8>) -> &mut Self {
        self.chunks.push_back(buf);
        self
    }

    fn pending_when_empty(&mut self) -> &mut Self {
        self.pending_when_empty = true;
        self
    }
}

/// A frame stream with the transport stream that feeds it.
struct Driver {
    stream: FrameStream,
    recv: FakeRecv,
}

impl Driver {
    fn new(recv: FakeRecv) -> Self {
        Driver {
            stream: FrameStream::new(BufRecvStream::new(StreamId(0))),
            recv,
        }
    }

    /// Reads from the transport once, and tells whether it had anything to say.
    fn read(&mut self) -> bool {
        if self.stream.stream.eos {
            return false;
        }
        self.recv.reads.set(self.recv.reads.get() + 1);
        match self.recv.chunks.pop_front() {
            Some(chunk) => self.stream.receive(chunk),
            None if self.recv.pending_when_empty => return false,
            None => self.stream.finish(),
        }
        true
    }

    fn poll_next(&mut self) -> Result<Poll<Option<Frame<PayloadLen>>>, FrameStreamError> {
        loop {
            match self.stream.poll_next() {
                Ok(Poll::Pending) if self.read() => {}
                result => return result,
            }
        }
    }

    fn poll_next_frame(&mut self) -> Result<Poll<Option<Frames>>, FrameStreamError> {
        loop {
            match self.stream.poll_next_frame() {
                Ok(Poll::Pending) if self.read() => {}
                result => return result,
            }
        }
    }

    fn poll_data(&mut self) -> Result<Poll<Option<Vec<u8>>>, FrameStreamError> {
        if self.stream.has_data() {
            self.read();
        }
        self.stream.poll_data()
    }

    fn poll_data_chunk(&mut self, max: usize) -> Result<Poll<Option<Vec<u8>>>, FrameStreamError> {
        match self.stream.poll_data_chunk(max) {
            Ok(Poll::Pending) if self.read() => self.stream.poll_data_chunk(max),
            result => result,
        }
    }
}

// Decoder

#[test]
fn one_frame() {
    let mut buf = Vec::new();
    Frame::headers(b"salut".to_vec()).encode_with_payload(&mut buf);
    let mut buf = list(&[&buf]);

    let mut decoder = FrameDecoder::default();
    assert!(matches!(decoder.decode(&mut buf), Ok(Some(Frame::Headers(_)))));
}

#[test]
fn incomplete_frame() {
    let frame = Frame::headers(b"salut".to_vec());

    let mut buf = Vec::new();
    frame.encode_with_payload(&mut buf);
    buf.truncate(buf.len() - 1);
    let mut buf = list(&[&buf]);

    let mut decoder = FrameDecoder::default();
    assert!(matches!(decoder.decode(&mut buf), Ok(None)));
}

#[test]
fn oversized_field_section_is_rejected_from_its_frame_header() {
    let mut wire = Vec::new();
    varint::encode(HEADERS, &mut wire);
    varint::encode(5, &mut wire);
    let mut buf = list(&[&wire]);
    let buffered = buf.remaining();

    let mut decoder = FrameDecoder {
        max_field_section_size: 4,
        ..FrameDecoder::default()
    };
    assert!(matches!(decoder.decode(&mut buf), Err(FrameStreamError::Proto(FrameProtocolError::ExcessiveLoad { len: 5, limit: 4, }))));
    assert_eq!(buf.remaining(), buffered);
}

#[test]
fn incomplete_buffered_frame_waits_while_stream_is_open() {
    for ty in [HEADERS, GREASE] {
        let mut recv = FakeRecv::default();
        let mut wire = Vec::new();
        varint::encode(ty, &mut wire);
        varint::encode(4, &mut wire);
        recv.chunk(wire).pending_when_empty();

        let mut stream: Driver = Driver::new(recv);
        assert!(matches!(stream.poll_next(), Ok(Poll::Pending)));
    }
}

#[test]
fn incomplete_buffered_frame_rejects_clean_end() {
    for ty in [HEADERS, GREASE] {
        let mut recv = FakeRecv::default();
        let mut wire = Vec::new();
        varint::encode(ty, &mut wire);
        varint::encode(4, &mut wire);
        recv.chunk(wire);

        let mut stream: Driver = Driver::new(recv);
        assert!(matches!(stream.poll_next(), Err(FrameStreamError::UnexpectedEnd)));
    }
}

#[test]
fn header_spread_multiple_buf() {
    let mut buf = Vec::new();
    Frame::headers(b"salut".to_vec()).encode_with_payload(&mut buf);
    let mut buf_list = BufList::new();
    // Cut buffer between type and length
    buf_list.push(buf[..1].to_vec());
    buf_list.push(buf[1..].to_vec());

    let mut decoder = FrameDecoder::default();
    assert!(matches!(decoder.decode(&mut buf_list), Ok(Some(Frame::Headers(_)))));
}

#[test]
fn varint_spread_multiple_buf() {
    let mut buf = Vec::new();
    Frame::headers("salut".repeat(1024).into_bytes()).encode_with_payload(&mut buf);

    let mut buf_list = BufList::new();
    // Cut buffer in the middle of length's varint
    buf_list.push(buf[..2].to_vec());
    buf_list.push(buf[2..].to_vec());

    let mut decoder = FrameDecoder::default();
    assert!(matches!(decoder.decode(&mut buf_list), Ok(Some(Frame::Headers(_)))));
}

#[test]
fn two_frames_then_incomplete() {
    let mut buf = Vec::new();
    Frame::headers(b"header".to_vec()).encode_with_payload(&mut buf);
    Frame::Data(b"body".to_vec()).encode_with_payload(&mut buf);
    Frame::headers(b"trailer".to_vec()).encode_with_payload(&mut buf);

    buf.truncate(buf.len() - 1);
    let mut buf = list(&[&buf]);

    let mut decoder = FrameDecoder::default();
    assert!(matches!(decoder.decode(&mut buf), Ok(Some(Frame::Headers(_)))));
    assert!(matches!(decoder.decode(&mut buf), Ok(Some(Frame::Data(PayloadLen(4))))));
    assert!(matches!(decoder.decode(&mut buf), Ok(None)));
}

// FrameStream

#[test]
fn poll_full_request() {
    let mut recv = FakeRecv::default();
    let mut buf = Vec::new();

    Frame::headers(b"header".to_vec()).encode_with_payload(&mut buf);
    Frame::Data(b"body".to_vec()).encode_with_payload(&mut buf);
    Frame::headers(b"trailer".to_vec()).encode_with_payload(&mut buf);
    recv.chunk(buf);

    let mut stream: Driver = Driver::new(recv);

    assert!(matches!(stream.poll_next(), Ok(Poll::Ready(Some(Frame::Headers(_))))));
    assert!(matches!(stream.poll_next(), Ok(Poll::Ready(Some(Frame::Data(PayloadLen(4)))))));
    assert!(matches!(stream.poll_data(), Ok(Poll::Ready(Some(b))) if b.len() == 4));
    assert!(matches!(stream.poll_next(), Ok(Poll::Ready(Some(Frame::Headers(_))))));
}

#[test]
fn poll_next_incomplete_frame() {
    let mut recv = FakeRecv::default();
    let mut buf = Vec::new();

    Frame::headers(b"header".to_vec()).encode_with_payload(&mut buf);
    buf.truncate(buf.len() - 1);
    recv.chunk(buf);
    let mut stream: Driver = Driver::new(recv);

    assert!(matches!(stream.poll_next(), Err(FrameStreamError::UnexpectedEnd)));
}

#[test]
fn poll_next_rejects_unconsumed_data() {
    let mut recv = FakeRecv::default();
    let mut buf = Vec::new();

    varint::encode(DATA, &mut buf);
    varint::encode(4, &mut buf);
    recv.chunk(buf);
    let mut stream: Driver = Driver::new(recv);

    assert!(matches!(stream.poll_next(), Ok(Poll::Ready(Some(Frame::Data(PayloadLen(4)))))));

    assert!(matches!(stream.poll_next(), Err(FrameStreamError::Proto(FrameProtocolError::Malformed))));
}

#[test]
fn poll_data_split() {
    let mut recv = FakeRecv::default();
    let mut buf = Vec::new();

    // Body is split into two bufs
    Frame::Data(b"body".to_vec()).encode_with_payload(&mut buf);

    let rest = buf.split_off(buf.len() - 2);
    recv.chunk(buf);
    recv.chunk(rest);
    let mut stream: Driver = Driver::new(recv);

    // We get the total size of data about to be received
    assert!(matches!(stream.poll_next(), Ok(Poll::Ready(Some(Frame::Data(PayloadLen(4)))))));

    // Then we get parts of body, chunked as they arrived
    assert!(matches!(stream.poll_data(), Ok(Poll::Ready(Some(b))) if b.len() == 2));
    assert!(matches!(stream.poll_data(), Ok(Poll::Ready(Some(b))) if b.len() == 2));
}

#[test]
fn poll_data_unexpected_end() {
    let mut recv = FakeRecv::default();
    let mut buf = Vec::new();

    // Truncated body
    varint::encode(DATA, &mut buf);
    varint::encode(4, &mut buf);
    buf.extend_from_slice(b"b");
    recv.chunk(buf);
    let mut stream: Driver = Driver::new(recv);

    assert!(matches!(stream.poll_next(), Ok(Poll::Ready(Some(Frame::Data(PayloadLen(4)))))));
    assert!(matches!(stream.poll_data(), Err(FrameStreamError::UnexpectedEnd)));
}

#[test]
fn poll_data_waits_when_fixed_payload_is_still_open() {
    let mut recv = FakeRecv::default();
    let mut buf = Vec::new();
    varint::encode(DATA, &mut buf);
    varint::encode(4, &mut buf);
    recv.chunk(buf).pending_when_empty();

    let mut stream: Driver = Driver::new(recv);
    assert!(matches!(stream.poll_next(), Ok(Poll::Ready(Some(Frame::Data(PayloadLen(4)))))));

    assert!(matches!(stream.poll_data(), Ok(Poll::Pending)));
}

#[test]
fn poll_data_rejects_clean_end_before_fixed_payload() {
    let mut recv = FakeRecv::default();
    let mut buf = Vec::new();
    varint::encode(DATA, &mut buf);
    varint::encode(4, &mut buf);
    recv.chunk(buf);

    let mut stream: Driver = Driver::new(recv);
    assert!(matches!(stream.poll_next(), Ok(Poll::Ready(Some(Frame::Data(PayloadLen(4)))))));
    assert!(matches!(stream.poll_data(), Err(FrameStreamError::UnexpectedEnd)));
}

#[test]
fn poll_webtransport_data_accepts_clean_end() {
    let mut recv = FakeRecv::default();
    let mut buf = Vec::new();
    Frame::<Vec<u8>>::WebTransportStream(0).encode_with_payload(&mut buf);
    buf.extend_from_slice(b"body");
    recv.chunk(buf);

    let mut stream: Driver = Driver::new(recv);
    assert!(matches!(stream.poll_next(), Ok(Poll::Ready(Some(Frame::WebTransportStream(_))))));
    assert!(matches!(stream.poll_data(), Ok(Poll::Ready(Some(body))) if body == b"body"));
    assert!(matches!(stream.poll_data(), Ok(Poll::Ready(None))));
}

#[test]
fn poll_data_ignores_unknown_frames() {
    let mut recv = FakeRecv::default();
    let mut buf = Vec::new();

    // grease a lil
    varint::encode(GREASE, &mut buf);
    varint::encode(0, &mut buf);

    // grease with some data
    varint::encode(GREASE, &mut buf);
    varint::encode(6, &mut buf);
    buf.extend_from_slice(b"grease");

    // Body
    Frame::Data(b"body".to_vec()).encode_with_payload(&mut buf);

    recv.chunk(buf);
    let mut stream: Driver = Driver::new(recv);

    assert!(matches!(stream.poll_next(), Ok(Poll::Ready(Some(Frame::Data(PayloadLen(4)))))));
    assert!(matches!(stream.poll_data(), Ok(Poll::Ready(Some(b))) if b == b"body"));
}

#[test]
fn poll_data_eos_but_buffered_data() {
    let mut recv = FakeRecv::default();
    let mut buf = Vec::new();

    varint::encode(DATA, &mut buf);
    varint::encode(4, &mut buf);
    buf.extend_from_slice(b"bo");
    recv.chunk(buf);

    let mut stream: Driver = Driver::new(recv);

    assert!(matches!(stream.poll_next(), Ok(Poll::Ready(Some(Frame::Data(PayloadLen(4)))))));

    let mut buf = Vec::new();
    buf.extend_from_slice(b"dy");
    stream.stream.receive(buf);

    assert!(matches!(stream.poll_data(), Ok(Poll::Ready(Some(b))) if b == b"bo"));

    assert!(matches!(stream.poll_data(), Ok(Poll::Ready(Some(b))) if b == b"dy"));
}

#[test]
fn poll_next_consumes_buffered_frame_before_reading_more() {
    let mut recv = FakeRecv::default();
    let reads = recv.reads.clone();
    let mut buf = Vec::new();

    Frame::headers(b"header".to_vec()).encode_with_payload(&mut buf);
    Frame::headers(b"trailer".to_vec()).encode_with_payload(&mut buf);
    recv.chunk(buf);
    recv.chunk(b"unused".to_vec());

    let mut stream: Driver = Driver::new(recv);

    assert!(matches!(stream.poll_next(), Ok(Poll::Ready(Some(Frame::Headers(_))))));
    assert_eq!(reads.get(), 1);

    assert!(matches!(stream.poll_next(), Ok(Poll::Ready(Some(Frame::Headers(_))))));
    assert_eq!(reads.get(), 1);
}

#[test]
fn request_headers_payload_is_read_in_bounded_chunks() {
    let mut recv = FakeRecv::default();
    let mut encoded = Vec::new();
    Frame::headers(b"header-payload".to_vec()).encode_with_payload(&mut encoded);
    recv.chunk(encoded);

    let mut stream: Driver = Driver::new(recv);
    assert!(matches!(stream.poll_next_frame(), Ok(Poll::Ready(Some(Frames::Headers)))));
    assert!(matches!(stream.poll_data_chunk(3), Ok(Poll::Ready(Some(bytes))) if bytes == b"hea"[..]));
    assert!(matches!(stream.poll_data_chunk(3), Ok(Poll::Ready(Some(bytes))) if bytes == b"der"[..]));
    assert!(stream.stream.has_data());
}

#[test]
fn streaming_prefixes_accept_split_nonminimal_varints() {
    for ty in [0u8, 1] {
        // Both type and length use legal two-byte encodings. Splitting
        // either integer must leave the prefix intact until it is complete.
        let prefix = [0x40, ty, 0x40, 4];
        for split in 1..prefix.len() {
            let mut recv = FakeRecv::default();
            recv.chunk(prefix[..split].to_vec())
                .pending_when_empty();
            let mut stream: Driver = Driver::new(recv);
            // The encoded field-section budget must not limit DATA.
            stream.stream.set_max_field_section_size(if ty == 0 { 0 } else { 4 });
                    assert!(matches!(stream.poll_next_frame(), Ok(Poll::Pending)));
            assert_eq!(stream.stream.stream.buf.remaining(), split);

            let mut rest = prefix[split..].to_vec();
            rest.extend_from_slice(b"body");
            Frame::headers(Vec::new()).encode_with_payload(&mut rest);
            stream.stream.receive(rest);
            match ty {
                0 => {
                    assert!(matches!(stream.poll_next_frame(), Ok(Poll::Ready(Some(Frames::Frame(Frame::Data(PayloadLen(4))))))));
                }
                _ => {
                    assert!(matches!(stream.poll_next_frame(), Ok(Poll::Ready(Some(Frames::Headers)))));
                }
            }
            assert!(matches!(stream.poll_data_chunk(usize::MAX), Ok(Poll::Ready(Some(bytes))) if bytes == b"body"[..]));
            assert!(matches!(stream.poll_next_frame(), Ok(Poll::Ready(Some(Frames::Headers)))));
        }
    }
}

#[test]
fn buffered_headers_keep_the_next_frame_and_do_not_read_quic() {
    for payload in [&b""[..], &b"headers"[..]] {
        let mut recv = FakeRecv::default();
        let reads = recv.reads.clone();
        let mut encoded = Vec::new();
        Frame::headers(payload.to_vec()).encode_with_payload(&mut encoded);
        Frame::Data(b"body".to_vec()).encode_with_payload(&mut encoded);
        recv.chunk(encoded);

        let mut stream: Driver = Driver::new(recv);
        stream.stream.set_max_field_section_size(payload.len());
        assert!(matches!(stream.poll_next_frame(), Ok(Poll::Ready(Some(Frames::Headers)))));
        assert_eq!(reads.get(), 1);
        if !payload.is_empty() {
            assert!(stream.stream.take_buffered_payload(payload.len() - 1).is_none());
            assert!(stream.stream.has_data());
        }
        assert_eq!(
            stream.stream.take_buffered_payload(payload.len()).unwrap(),
            payload
        );
        assert!(!stream.stream.has_data());
        assert_eq!(reads.get(), 1);
        assert!(matches!(stream.poll_next_frame(), Ok(Poll::Ready(Some(Frames::Frame(Frame::Data(PayloadLen(4))))))));
        assert!(matches!(stream.poll_data(), Ok(Poll::Ready(Some(bytes))) if bytes == b"body"[..]));
    }
}

#[test]
fn fragmented_headers_are_left_for_incremental_reads() {
    let mut recv = FakeRecv::default();
    let reads = recv.reads.clone();
    let mut encoded = Vec::new();
    Frame::headers(b"headers".to_vec()).encode_with_payload(&mut encoded);
    let rest = encoded.split_off(encoded.len() - 3);
    recv.chunk(encoded);
    recv.chunk(rest);

    let mut stream: Driver = Driver::new(recv);
    assert!(matches!(stream.poll_next_frame(), Ok(Poll::Ready(Some(Frames::Headers)))));
    assert!(stream.stream.take_buffered_payload(7).is_none());
    assert_eq!(reads.get(), 1);
    assert!(matches!(stream.poll_data_chunk(7), Ok(Poll::Ready(Some(bytes))) if bytes == b"head"[..]));
    assert!(matches!(stream.poll_data_chunk(7), Ok(Poll::Ready(Some(bytes))) if bytes == b"ers"[..]));
    assert!(!stream.stream.has_data());
}

#[test]
fn maximum_data_length_still_rejects_early_fin() {
    let mut recv = FakeRecv::default();
    let mut encoded = Vec::new();
    varint::encode(DATA, &mut encoded);
    let max_len = u64::try_from(usize::MAX).unwrap_or(u64::MAX).min(MAX_VARINT);
    varint::encode(max_len, &mut encoded);
    recv.chunk(encoded);

    let mut stream: Driver = Driver::new(recv);
    assert!(matches!(stream.poll_next_frame(), Ok(Poll::Ready(Some(Frames::Frame(Frame::Data(PayloadLen(len)))))) if len as u64 == max_len));
    assert!(matches!(stream.poll_data(), Err(FrameStreamError::UnexpectedEnd)));
}

#[test]
fn request_headers_payload_reports_zero_byte_truncation() {
    let mut recv = FakeRecv::default();
    let mut encoded = Vec::new();
    varint::encode(HEADERS, &mut encoded);
    varint::encode(4, &mut encoded);
    recv.chunk(encoded);

    let mut stream: Driver = Driver::new(recv);
    assert!(matches!(stream.poll_next_frame(), Ok(Poll::Ready(Some(Frames::Headers)))));
    assert!(matches!(stream.poll_data_chunk(4), Err(FrameStreamError::UnexpectedEnd)));
}

#[test]
fn unknown_frame_is_discarded_before_incremental_headers() {
    let mut recv = FakeRecv::default();
    let reads = recv.reads.clone();

    let mut first = Vec::new();
    varint::encode(RESERVED, &mut first);
    varint::encode(6, &mut first);
    first.extend_from_slice(b"gre");
    recv.chunk(first);

    let mut second = Vec::new();
    second.extend_from_slice(b"ase");
    varint::encode(HEADERS, &mut second);
    varint::encode(6, &mut second);
    second.extend_from_slice(b"hea");
    recv.chunk(second);

    let mut third = Vec::new();
    third.extend_from_slice(b"der");
    Frame::Data(b"body".to_vec()).encode_with_payload(&mut third);
    recv.chunk(third);

    let mut stream: Driver = Driver::new(recv);
    assert!(matches!(stream.poll_next_frame(), Ok(Poll::Ready(Some(Frames::Headers)))));
    assert_eq!(reads.get(), 2);
    assert!(matches!(stream.poll_data_chunk(3), Ok(Poll::Ready(Some(bytes))) if bytes == b"hea"[..]));
    assert!(matches!(stream.poll_data_chunk(3), Ok(Poll::Ready(Some(bytes))) if bytes == b"der"[..]));
    assert!(matches!(stream.poll_next_frame(), Ok(Poll::Ready(Some(Frames::Frame(Frame::Data(PayloadLen(4))))))));
    assert!(matches!(stream.poll_data(), Ok(Poll::Ready(Some(bytes))) if bytes == b"body"[..]));
}

#[test]
fn unknown_payload_cannot_be_mistaken_for_headers() {
    let mut recv = FakeRecv::default();
    let mut prefix = Vec::new();
    varint::encode(RESERVED, &mut prefix);
    varint::encode(2, &mut prefix);
    recv.chunk(prefix);

    let mut payload_and_headers = Vec::new();
    // These are payload bytes of the unknown frame, not an empty HEADERS
    // frame. The next HEADERS frame is the one the caller must observe.
    varint::encode(HEADERS, &mut payload_and_headers);
    varint::encode(0, &mut payload_and_headers);
    Frame::headers(b"ok".to_vec()).encode_with_payload(&mut payload_and_headers);
    recv.chunk(payload_and_headers);

    let mut stream: Driver = Driver::new(recv);
    assert!(matches!(stream.poll_next_frame(), Ok(Poll::Ready(Some(Frames::Headers)))));
    assert!(matches!(stream.poll_data_chunk(2), Ok(Poll::Ready(Some(bytes))) if bytes == b"ok"[..]));
}

#[test]
fn truncated_unknown_frame_is_rejected_after_prefix_is_consumed() {
    let mut recv = FakeRecv::default();
    let mut encoded = Vec::new();
    varint::encode(RESERVED, &mut encoded);
    varint::encode(6, &mut encoded);
    encoded.extend_from_slice(b"gre");
    recv.chunk(encoded);

    let mut stream: Driver = Driver::new(recv);
    assert!(matches!(stream.poll_next_frame(), Err(FrameStreamError::UnexpectedEnd)));
}
