use bytes::BytesMut;
use http::{HeaderMap, HeaderValue};
use http3::buf::Reader;
use http3::buf_list::BufList;
use http3::client::{Connection, SendRequest};
use http3::config::{local_settings, Config, SettingId, Settings};
use http3::connection::{Accepting, ConnectionInner, GreaseAction, GreaseEvent, GreaseStatus};
use http3::critical::{
    critical_stream_failed, handle_critical_send_stream_result, open_critical_send_stream,
    CriticalStream,
};
use http3::encode_buffer::take_qpack_encode_buffer;
use http3::error::{
    Code, Detail, ErrorOrigin, InternalConnectionError, StreamError, StreamErrorIncoming,
};
use http3::ext::Protocol;
use http3::frame::{
    BufRecvStream, FrameDecoder, FrameProtocolError, FrameStream, FrameStreamError, Poll,
};
use http3::guard::{Cancellation, RequestStreamGuard, StreamGuard};
use http3::proto::frame::{
    put_frame, Frame, FrameError, FrameSummary, PayloadLen, Settings as WireSettings,
    SettingsError, CANCEL_PUSH, GOAWAY, HEADERS, MAX_PUSH_ID, PUSH_PROMISE, SETTINGS,
};
use http3::proto::headers::{
    Header, HeaderError, MessageExtensions, PseudoHeaderSensitivity, PseudoId, PseudoOrder, Target,
};
use http3::proto::varint;
use http3::qpack::decoder::decode_stateless;
use http3::qpack::shared::{EventQueue, QpackDecoder, QpackEncoder, QpackEvent};
use http3::qpack::stream::{DynamicTableSizeUpdate, InsertCountIncrement, InsertWithoutNameRef};
use http3::qpack::{Decoder, DecoderError, EncoderError, HeaderField};
use http3::qpack_streams::{FlushAt, QpackIo, QpackStep, QpackStreams};
use http3::quic::{StreamId, MAX_VARINT};
use http3::recv_control::{QpackReceive, ReceiveState};
use http3::request::{DecoderGuard, RequestDecodeState};
use http3::request_stream::{headers_frame, RecvStep, RequestStream};
use http3::send_order::{SendEvent, SendOrder, SendPhase};
use http3::shared_state::SharedState;
use http3::stream::{
    type_header, AcceptRecvStream, AcceptedRecvStream, PollTypeError, CONTROL, DECODER, ENCODER,
    PUSH, WEBTRANSPORT_UNI,
};

fn line(name: &str, value: &str) -> HeaderField {
    HeaderField::new(name.as_bytes(), value.as_bytes())
}

fn list(bytes: &[u8]) -> BufList {
    let mut list = BufList::new();
    list.push(bytes.to_vec());
    list
}

fn internal(code: Code, message: &'static str) -> ErrorOrigin {
    ErrorOrigin::Internal(InternalConnectionError::new(code, message))
}

fn detailed(code: Code, message: &'static str, detail: Detail) -> ErrorOrigin {
    ErrorOrigin::Internal(InternalConnectionError::with_detail(code, message, detail))
}

#[test]
fn variable_length_integers_of_the_examples() {
    // https://www.rfc-editor.org/rfc/rfc9000.html#appendix-A.1
    let examples: [(u64, &[u8]); 4] = [
        (151_288_809_941_952_652, &[0xc2, 0x19, 0x7c, 0x5e, 0xff, 0x14, 0xe8, 0x8c]),
        (494_878_333, &[0x9d, 0x7f, 0x3e, 0x7d]),
        (15_293, &[0x7b, 0xbd]),
        (37, &[0x25]),
    ];
    for (value, bytes) in examples {
        let mut buf = vec![];
        varint::encode(value, &mut buf);
        assert_eq!(buf, bytes);
        assert_eq!(varint::decode(&mut Reader::new(bytes)), Some(value));
        assert_eq!(varint::decode(&mut Reader::new(&bytes[..bytes.len() - 1])), None);
    }
    let mut buf = vec![];
    varint::encode(MAX_VARINT, &mut buf);
    assert_eq!(varint::decode(&mut Reader::new(&buf)), Some(MAX_VARINT));
}

#[test]
fn chunks_are_taken_and_skipped_in_order() {
    let mut chunks = BufList::new();
    chunks.push(b"ab".to_vec());
    chunks.push(vec![]);
    chunks.push(b"cde".to_vec());
    assert_eq!(chunks.remaining(), 5);
    assert_eq!(chunks.copy(1, 3), b"bcd");
    assert_eq!(chunks.take_chunk(1), Some(b"a".to_vec()));
    assert_eq!(chunks.chunk(), b"b");
    chunks.advance(2);
    assert_eq!(chunks.take_chunk(9), Some(b"de".to_vec()));
    assert_eq!(chunks.take_chunk(9), None);
    assert!(!chunks.has_remaining());
}

#[test]
fn settings_round_trip() {
    let mut settings = WireSettings::default();
    settings.insert(0x6, 1000).unwrap();
    settings.insert(0x33, 1).unwrap();
    settings.insert(0x1, 0).unwrap();
    let mut payload = vec![];
    settings.encode(&mut payload);
    let read = WireSettings::decode(&payload).unwrap();
    assert_eq!(read.get(0x6), Some(1000));
    assert_eq!(read.get(0x33), Some(1));
    assert_eq!(read.get(0x1), Some(0));
    assert_eq!(read.get(0x7), None);
    assert_eq!(Settings::from_wire(&read).max_field_section_size, 1000);
}

#[test]
fn settings_errors_are_told_apart() {
    let mut settings = WireSettings::default();
    settings.insert(0x6, 1000).unwrap();
    assert_eq!(settings.insert(0x6, 2), Err(SettingsError::Repeated(0x6)));
    // Settings of HTTP/2 that are reserved here.
    assert_eq!(WireSettings::decode(&[0x4, 0]), Err(SettingsError::InvalidSettingId(0x4)));
    assert_eq!(
        settings.insert(0x7, MAX_VARINT + 1),
        Err(SettingsError::InvalidSettingValue(0x7, MAX_VARINT + 1))
    );
    assert_eq!(WireSettings::decode(&[0x6]), Err(SettingsError::Malformed));
}

#[test]
fn frames_round_trip() {
    let mut settings = WireSettings::default();
    settings.insert(0x6, 7).unwrap();
    let frames: Vec<Frame<Vec<u8>>> = vec![
        Frame::Headers(b"encoded".to_vec()),
        Frame::CancelPush(1),
        Frame::Settings(settings),
        Frame::Goaway(400),
        Frame::MaxPushId(70_000),
        Frame::WebTransportStream(8),
    ];
    for frame in frames {
        let mut bytes = vec![];
        frame.encode_with_payload(&mut bytes);
        let len = bytes.len();
        bytes.extend_from_slice(b"rest");
        let (read, consumed) =
            Frame::<PayloadLen>::decode_with_max_field_section_size(&list(&bytes), 100).unwrap();
        assert_eq!(consumed, len);
        match (frame, read) {
            (Frame::Headers(a), Frame::Headers(b)) => assert_eq!(a, b),
            (Frame::CancelPush(a), Frame::CancelPush(b)) => assert_eq!(a, b),
            (Frame::Settings(a), Frame::Settings(b)) => assert_eq!(a.get(0x6), b.get(0x6)),
            (Frame::Goaway(a), Frame::Goaway(b)) => assert_eq!(a, b),
            (Frame::MaxPushId(a), Frame::MaxPushId(b)) => assert_eq!(a, b),
            (Frame::WebTransportStream(a), Frame::WebTransportStream(b)) => assert_eq!(a, b),
            _ => panic!("a frame was read as another"),
        }
    }
    let mut bytes = vec![];
    Frame::Data(b"body".to_vec()).encode_with_payload(&mut bytes);
    assert!(matches!(
        Frame::<PayloadLen>::decode_with_max_field_section_size(&list(&bytes), 0),
        Ok((Frame::Data(PayloadLen(4)), 2))
    ));
}

#[test]
fn grease_frames_have_no_meaning() {
    let mut bytes = vec![];
    Frame::<Vec<u8>>::Grease(5).encode_with_payload(&mut bytes);
    let (ty, len, consumed) = Frame::<PayloadLen>::decode_unknown_prefix(&list(&bytes))
        .unwrap()
        .unwrap();
    assert_eq!((ty - 0x21) % 0x1f, 0);
    assert_eq!(len, 6);
    assert_eq!(&bytes[consumed..], b"grease");
    put_frame(HEADERS, b"x", &mut bytes);
    let mut decoder = FrameDecoder::default();
    assert!(matches!(decoder.decode(&mut list(&bytes)), Ok(Some(Frame::Headers(_)))));
}

#[test]
fn frame_errors_are_told_apart() {
    let read = |bytes: &[u8]| {
        Frame::<PayloadLen>::decode_with_max_field_section_size(&list(bytes), 10).unwrap_err()
    };
    assert!(matches!(read(&[0x1]), FrameError::Incomplete(_)));
    assert!(matches!(read(&[0x1, 4, 0]), FrameError::Incomplete(_)));
    // Frames of HTTP/2 that must not be sent.
    assert_eq!(read(&[0x2, 0]), FrameError::UnsupportedFrame(0x2));
    assert_eq!(read(&[0x21, 1, 0]), FrameError::UnknownFrame(0x21));
    assert_eq!(read(&[0x1, 11]), FrameError::ExcessiveLoad { len: 11, limit: 10 });
    assert!(matches!(read(&[0x4, 1, 6]), FrameError::Settings(SettingsError::Malformed)));
    // An identifier with something after it.
    let mut bytes = vec![];
    put_frame(GOAWAY, &[4, 4], &mut bytes);
    assert_eq!(read(&bytes), FrameError::Malformed);
    for ty in [CANCEL_PUSH, MAX_PUSH_ID] {
        let mut bytes = vec![];
        put_frame(ty, &[], &mut bytes);
        assert!(matches!(read(&bytes), FrameError::InvalidPushId(_) | FrameError::Malformed));
    }
}

#[test]
fn frame_stream_errors_become_connection_errors() {
    let code = |error| InternalConnectionError::got_frame_error(error).code;
    assert_eq!(code(FrameProtocolError::Malformed), Code::H3_FRAME_ERROR);
    assert_eq!(code(FrameProtocolError::ForbiddenFrame(2)), Code::H3_FRAME_UNEXPECTED);
    assert_eq!(code(FrameProtocolError::InvalidFrameValue), Code::H3_FRAME_ERROR);
    assert_eq!(
        code(FrameProtocolError::ExcessiveLoad { len: 5, limit: 4 }),
        Code::H3_EXCESSIVE_LOAD
    );
    assert_eq!(
        code(FrameProtocolError::Settings(SettingsError::Malformed)),
        Code::H3_SETTINGS_ERROR
    );
    assert_eq!(code(FrameProtocolError::InvalidStreamId(1)), Code::H3_ID_ERROR);
    assert_eq!(code(FrameProtocolError::InvalidPushId(1)), Code::H3_ID_ERROR);
    assert_eq!(Code::H3_ID_ERROR.value(), 0x108);
    assert_eq!(Code::QPACK_DECODER_STREAM_ERROR.value(), 0x202);
}

#[test]
fn frames_do_not_depend_on_chunks() {
    let mut bytes = vec![];
    Frame::headers(b"header".to_vec()).encode_with_payload(&mut bytes);
    Frame::<Vec<u8>>::Grease(9).encode_with_payload(&mut bytes);
    Frame::Data(b"content".to_vec()).encode_with_payload(&mut bytes);
    for split in 0..=bytes.len() {
        let mut stream = FrameStream::new(BufRecvStream::new(StreamId(0)));
        stream.receive(bytes[..split].to_vec());
        let mut seen = vec![];
        let mut content = vec![];
        for rest in [Some(bytes[split..].to_vec()), None] {
            loop {
                if stream.has_data() {
                    match stream.poll_data().unwrap() {
                        Poll::Ready(Some(data)) => content.extend(data),
                        _ => break,
                    }
                } else {
                    match stream.poll_next().unwrap() {
                        Poll::Ready(Some(Frame::Headers(_))) => seen.push("headers"),
                        Poll::Ready(Some(Frame::Data(PayloadLen(7)))) => seen.push("data"),
                        Poll::Ready(Some(_)) => panic!("an unexpected frame"),
                        _ => break,
                    }
                }
            }
            if let Some(rest) = rest {
                stream.receive(rest);
                stream.finish();
            }
        }
        assert_eq!(seen, ["headers", "data"]);
        assert_eq!(content, b"content");
        assert!(stream.is_eos());
    }
}

#[test]
fn pseudo_orders_are_complete() {
    let order = PseudoOrder::builder()
        .extend(&[PseudoId::Path, PseudoId::Status, PseudoId::Path])
        .push(PseudoId::Method)
        .build();
    let ids = order.ids();
    assert_eq!(ids[..3], [PseudoId::Path, PseudoId::Status, PseudoId::Method]);
    for id in PseudoId::DEFAULT_IDS {
        assert_eq!(ids.iter().filter(|other| **other == id).count(), 1);
    }
}

#[test]
fn marks_of_pseudo_fields_are_their_own() {
    let mut marks = PseudoHeaderSensitivity::default();
    assert!(marks.is_empty());
    marks.set_sensitive(PseudoId::Path, true);
    marks.set_sensitive(PseudoId::Method, true);
    marks.set_sensitive(PseudoId::Method, false);
    for id in PseudoId::DEFAULT_IDS {
        assert_eq!(marks.is_sensitive(id), id == PseudoId::Path);
    }
    assert!(!marks.is_empty());
}

#[test]
fn sections_are_received_as_they_were_sent() {
    let mut fields = HeaderMap::new();
    fields.append("x-one", HeaderValue::from_static("1"));
    let mut secret = HeaderValue::from_static("secret");
    secret.set_sensitive(true);
    fields.append("x-two", secret);
    fields.append("x-one", HeaderValue::from_static("again"));
    let target = Target {
        scheme: Some(b"https".to_vec()),
        authority: Some(b"example.com:8443".to_vec()),
        path: Some(b"/a?b=c".to_vec()),
    };
    let sent = Header::request(
        b"PUT".to_vec(),
        target,
        fields,
        MessageExtensions::default(),
    )
    .unwrap();
    assert_eq!(sent.len(), 7);
    let lines = sent.iter_ref();
    let received = Header::try_from(lines.clone()).unwrap();
    assert_eq!(received.iter_ref(), lines);
    let parts = received.into_request_parts().unwrap();
    assert_eq!(parts.method, b"PUT");
    assert_eq!(parts.target.scheme.as_deref(), Some(&b"https"[..]));
    assert_eq!(parts.target.authority.as_deref(), Some(&b"example.com:8443"[..]));
    assert_eq!(parts.target.path.as_deref(), Some(&b"/a?b=c"[..]));
    assert_eq!(parts.fields.get_all("x-one").iter().count(), 2);
    assert_eq!(parts.fields["x-one"], "1");
    assert!(parts.fields["x-two"].is_sensitive());
}

#[test]
fn authorities_of_hosts_complete_a_request() {
    let headers = Header::try_from(vec![
        line(":method", "GET"),
        line(":scheme", "http"),
        line("host", "test.com"),
        line(":path", "/p"),
    ])
    .unwrap();
    let parts = headers.into_request_parts().unwrap();
    assert_eq!(parts.target.authority.as_deref(), Some(&b"test.com"[..]));
}

#[test]
fn paths_end_before_a_fragment() {
    let headers = Header::try_from(vec![
        line(":method", "GET"),
        line(":scheme", "https"),
        line(":authority", "test.com"),
        line(":path", "/a?b=c#d"),
    ])
    .unwrap();
    assert_eq!(headers.pseudo.path.as_deref(), Some(&b"/a?b=c"[..]));
    let parts = headers.into_request_parts().unwrap();
    assert_eq!(parts.target.path.as_deref(), Some(&b"/a?b=c"[..]));
}

#[test]
fn protocols_round_trip() {
    for (protocol, name) in [
        (Protocol::WebTransport, "webtransport"),
        (Protocol::ConnectUdp, "connect-udp"),
        (Protocol::WebSocket, "websocket"),
    ] {
        assert_eq!(protocol.as_bytes(), name.as_bytes());
        assert_eq!(Protocol::parse(name.as_bytes()), Some(protocol));
    }
    assert_eq!(Protocol::parse(b"other"), None);
}

#[test]
fn header_errors_are_told_apart() {
    let read = |name: &str, value: &str| Header::try_from(vec![line(name, value)]).unwrap_err();
    // Names have to be lower case, and there are only so many that begin with a colon.
    assert_eq!(
        read("Upper", "x"),
        HeaderError::InvalidHeaderName(b"Upper".to_vec())
    );
    assert_eq!(read("", "x"), HeaderError::InvalidHeaderName(vec![]));
    assert_eq!(
        read(":other", "x"),
        HeaderError::InvalidHeaderName(b":other".to_vec())
    );
    for (name, value) in [
        (":method", "G E T"),
        (":scheme", "no scheme"),
        (":authority", "a b"),
        (":path", "no path"),
        (":status", "9999"),
        (":protocol", "other"),
        ("x-value", "bad\nvalue"),
    ] {
        assert_eq!(
            read(name, value),
            HeaderError::InvalidHeaderValue(name.as_bytes().to_vec(), value.as_bytes().to_vec())
        );
    }
    assert_eq!(
        Header::try_from(vec![line(":authority", "a.b")])
            .unwrap()
            .into_request_parts()
            .unwrap_err(),
        HeaderError::MissingMethod
    );
    assert_eq!(
        Header::try_from(vec![line("x", "y")])
            .unwrap()
            .into_response_parts()
            .unwrap_err(),
        HeaderError::MissingStatus
    );
    let many: Vec<HeaderField> = (0..40_000).map(|i| line(&format!("x-{i}"), "y")).collect();
    assert_eq!(
        Header::try_from(many).unwrap_err(),
        HeaderError::TooManyFields
    );
}

#[test]
fn statuses_are_three_digits() {
    for (text, status) in [("100", 100), ("200", 200), ("599", 599), ("999", 999)] {
        let header = Header::try_from(vec![line(":status", text)]).unwrap();
        assert_eq!(header.into_response_parts().unwrap().0, status);
    }
    for text in ["", "99", "0200", "2x0", "1000"] {
        assert!(Header::try_from(vec![line(":status", text)]).is_err());
    }
}

#[test]
fn first_connection_error_stands() {
    let mut shared = SharedState::default();
    let first = internal(Code::H3_ID_ERROR, "first");
    let second = internal(Code::H3_NO_ERROR, "second");
    assert_eq!(shared.set_conn_error(first), first);
    assert_eq!(shared.set_conn_error(second), first);
    assert_eq!(shared.get_conn_error(), Some(first));
}

#[test]
fn rejections_are_final_and_spare_requests_below() {
    let mut shared = SharedState::default();
    assert_eq!(shared.peer_goaway(), None);
    shared.set_peer_goaway(StreamId(8));
    assert_eq!(shared.request_error(StreamId(4)), None);
    assert!(matches!(
        shared.request_error(StreamId(8)),
        Some(StreamError::GoawayRejected { .. })
    ));
    // A later boundary cannot take that back.
    shared.set_peer_goaway(StreamId(20));
    assert_eq!(shared.peer_goaway(), Some(StreamId(8)));
    assert_eq!(
        shared.request_error(StreamId(12)),
        Some(StreamError::GoawayRejected {
            stream_id: StreamId(12),
            boundary: StreamId(8),
        })
    );
}

#[test]
fn stream_failures_are_told_apart() {
    let mut shared = SharedState::default();
    assert_eq!(
        shared.handle_quic_stream_error(StreamErrorIncoming::StreamTerminated { error_code: 7 }),
        StreamError::RemoteTerminate { remote_code: 7 }
    );
    assert_eq!(
        shared.handle_quic_stream_error(StreamErrorIncoming::Unknown(9)),
        StreamError::Undefined(9)
    );
    assert!(shared.get_conn_error().is_none());
    assert_eq!(
        shared.handle_quic_stream_error(StreamErrorIncoming::ConnectionErrorIncoming {
            connection_error: 3,
        }),
        StreamError::ConnectionError(ErrorOrigin::Transport(3))
    );
    assert_eq!(shared.get_conn_error(), Some(ErrorOrigin::Transport(3)));
    assert_eq!(
        shared.handle_frame_stream_error_on_request_stream(FrameStreamError::UnexpectedEnd),
        StreamError::ConnectionError(ErrorOrigin::Transport(3))
    );
}

#[test]
fn critical_streams_fail_the_connection() {
    let terminated = StreamErrorIncoming::StreamTerminated { error_code: 7 };
    for stream in [
        CriticalStream::Control,
        CriticalStream::QpackEncoder,
        CriticalStream::QpackDecoder,
    ] {
        for origin in [
            open_critical_send_stream(Err(terminated), stream).unwrap_err(),
            handle_critical_send_stream_result(Err(terminated), stream).unwrap_err(),
            critical_stream_failed(terminated, stream),
        ] {
            assert!(matches!(
                origin,
                ErrorOrigin::Internal(InternalConnectionError {
                    code: Code::H3_CLOSED_CRITICAL_STREAM,
                    detail: Some(Detail::Number(7)),
                    ..
                })
            ));
        }
        // A stream that could not even be opened was not closed by the peer.
        assert!(matches!(
            open_critical_send_stream(Err(StreamErrorIncoming::Unknown(1)), stream),
            Err(ErrorOrigin::Internal(InternalConnectionError {
                code: Code::H3_INTERNAL_ERROR,
                ..
            }))
        ));
        assert_eq!(open_critical_send_stream(Ok(()), stream), Ok(()));
        assert_eq!(handle_critical_send_stream_result(Ok(()), stream), Ok(()));
    }
}

#[test]
fn stream_types_are_read_as_they_arrive() {
    let mut stream = AcceptRecvStream::new(BufRecvStream::new(StreamId(3)));
    assert_eq!(stream.poll_type(), Ok(Poll::Pending));
    stream.stream.buf.push(vec![0x40]);
    assert_eq!(stream.poll_type(), Ok(Poll::Pending));
    stream.stream.buf.push(vec![0x54, 8, 9]);
    assert_eq!(stream.poll_type(), Ok(Poll::Ready(())));
    match stream.into_stream() {
        AcceptedRecvStream::WebTransportUni(8, recv) => assert_eq!(recv.buf.chunk(), [9]),
        _ => panic!("the stream belongs to a session"),
    }
    let mut ended = AcceptRecvStream::new(BufRecvStream::new(StreamId(3)));
    ended.stream.eos = true;
    assert_eq!(ended.poll_type(), Err(PollTypeError::EndOfStream));
}

fn stream_of(ty: u64, id: u64) -> AcceptRecvStream {
    let mut stream = BufRecvStream::new(StreamId(id));
    stream.buf.push(type_header(ty));
    if ty == PUSH || ty == WEBTRANSPORT_UNI {
        stream.buf.push(vec![0]);
    }
    AcceptRecvStream::new(stream)
}

#[test]
fn streams_of_the_peer_are_taken_once() {
    let mut config = Config::default();
    config.settings.enable_webtransport = true;
    let mut inner: ConnectionInner<u8> = ConnectionInner::new(config).unwrap();
    let mut id = 3;
    for ty in [CONTROL, ENCODER, DECODER, PUSH, WEBTRANSPORT_UNI] {
        assert!(matches!(inner.poll_accept_recv(stream_of(ty, id)), Ok(Accepting::Taken)));
        id += 4;
    }
    assert_eq!(inner.control_recv.as_ref().unwrap().id(), StreamId(3));
    assert_eq!(inner.qpack_streams.encoder_recv.as_ref().unwrap().id, StreamId(7));
    assert_eq!(inner.qpack_streams.decoder_recv.as_ref().unwrap().id, StreamId(11));
    assert_eq!(inner.accepted_streams.wt_uni_streams.len(), 1);
    assert!(matches!(
        inner.poll_accept_recv(stream_of(0x21, id)),
        Ok(Accepting::Stop(_, Code::H3_STREAM_CREATION_ERROR))
    ));
    let empty = AcceptRecvStream::new(BufRecvStream::new(StreamId(id)));
    assert!(matches!(inner.poll_accept_recv(empty), Ok(Accepting::Pending(_))));
    let mut ended = AcceptRecvStream::new(BufRecvStream::new(StreamId(id)));
    ended.stream.eos = true;
    assert!(matches!(inner.poll_accept_recv(ended), Ok(Accepting::Ended)));
    for (ty, text) in [
        (CONTROL, "got two control streams"),
        (ENCODER, "got two encoder streams"),
        (DECODER, "got two decoder streams"),
    ] {
        let mut inner: ConnectionInner<u8> = ConnectionInner::new(Config::default()).unwrap();
        assert!(inner.poll_accept_recv(stream_of(ty, 3)).is_ok());
        let Err(origin) = inner.poll_accept_recv(stream_of(ty, 7)) else {
            panic!("a second stream was taken");
        };
        assert_eq!(origin, internal(Code::H3_STREAM_CREATION_ERROR, text));
        assert_eq!(inner.shared.get_conn_error(), Some(origin));
    }
}

/// A connection whose control stream has delivered these frames.
fn controlled(frames: &[u8]) -> ConnectionInner<u8> {
    let config = Config {
        qpack_encoder_table_capacity: 4096,
        ..Config::default()
    };
    let mut inner: ConnectionInner<u8> = ConnectionInner::new(config).unwrap();
    let mut stream = stream_of(CONTROL, 3);
    stream.stream.buf.push(frames.to_vec());
    assert!(matches!(inner.poll_accept_recv(stream), Ok(Accepting::Taken)));
    inner
}

#[test]
fn settings_come_first_and_once() {
    let mut settings = vec![];
    put_frame(SETTINGS, &[0x1, 0x40, 0x80, 0x6, 0x40, 0x64], &mut settings);
    let mut goaway = vec![];
    put_frame(GOAWAY, &[4], &mut goaway);

    let mut inner = controlled(&goaway);
    assert_eq!(
        inner.poll_control().unwrap_err(),
        detailed(
            Code::H3_MISSING_SETTINGS,
            "received frame {} before settings",
            Detail::Frame(FrameSummary::Goaway(4))
        )
    );

    let mut inner = controlled(&[&settings[..], &goaway, &settings].concat());
    assert!(matches!(
        inner.poll_control(),
        Ok(Poll::Ready((Frame::Settings(_), true)))
    ));
    // The encoder uses what the peer permits.
    assert_eq!(inner.shared.settings().max_field_section_size, 100);
    assert_eq!(inner.qpack_streams.encoder.encoder.table.max_mem_size(), 128);
    assert!(matches!(
        inner.poll_control(),
        Ok(Poll::Ready((Frame::Goaway(4), false)))
    ));
    assert_eq!(
        inner.poll_control().unwrap_err(),
        internal(Code::H3_FRAME_UNEXPECTED, "second settings frame received")
    );

    let mut unexpected = settings.clone();
    put_frame(HEADERS, &[], &mut unexpected);
    let mut inner = controlled(&unexpected);
    assert!(inner.poll_control().is_ok());
    assert_eq!(
        inner.poll_control().unwrap_err(),
        detailed(
            Code::H3_FRAME_UNEXPECTED,
            "received unexpected frame {} on control stream",
            Detail::Frame(FrameSummary::Headers)
        )
    );

    let mut inner = controlled(&settings);
    assert!(inner.poll_control().is_ok());
    assert!(matches!(inner.poll_control(), Ok(Poll::Pending)));
    inner.control_recv.as_mut().unwrap().finish();
    assert_eq!(
        inner.poll_control().unwrap_err(),
        internal(Code::H3_CLOSED_CRITICAL_STREAM, "control stream was closed")
    );
}

#[test]
fn clients_take_all_frames_that_were_delivered() {
    let mut frames = vec![];
    put_frame(SETTINGS, &[0x1, 0x40, 0x80], &mut frames);
    put_frame(GOAWAY, &[8], &mut frames);
    Frame::<Vec<u8>>::Grease(2).encode_with_payload(&mut frames);
    put_frame(GOAWAY, &[4], &mut frames);
    let mut inner = controlled(&frames);
    let mut client = Connection::new();
    assert_eq!(client.poll_close(&mut inner), (Poll::Pending, true));
    assert_eq!(client.recv_closing, Some(4));
    assert_eq!(inner.shared.peer_goaway(), Some(StreamId(4)));
    assert_eq!(client.poll_close(&mut inner), (Poll::Pending, false));

    put_frame(MAX_PUSH_ID, &[1], &mut frames);
    put_frame(GOAWAY, &[0], &mut frames);
    let mut inner = controlled(&frames);
    let mut client = Connection::new();
    let expected = detailed(
        Code::H3_FRAME_UNEXPECTED,
        "on client control stream: {}",
        Detail::Frame(FrameSummary::MaxPushId(1)),
    );
    assert_eq!(client.poll_close(&mut inner), (Poll::Ready(expected), true));
    // The last frame is not looked at.
    assert_eq!(inner.shared.peer_goaway(), Some(StreamId(4)));
    assert_eq!(inner.shared.get_conn_error(), Some(expected));
}

#[test]
fn clients_follow_the_control_stream() {
    let mut inner: ConnectionInner<u8> = ConnectionInner::new(Config::default()).unwrap();
    let mut client = Connection::new();
    assert!(client.on_control_frame(&mut inner, Frame::Goaway(8)).is_ok());
    assert!(inner.shared.is_closing());
    assert!(client.on_control_frame(&mut inner, Frame::Goaway(4)).is_ok());
    assert_eq!(inner.shared.peer_goaway(), Some(StreamId(4)));
    assert!(matches!(
        client.on_control_frame(&mut inner, Frame::Goaway(8)),
        Err(ErrorOrigin::Internal(InternalConnectionError {
            code: Code::H3_ID_ERROR,
            detail: Some(Detail::Numbers(8, 4)),
            ..
        }))
    ));
    let mut inner: ConnectionInner<u8> = ConnectionInner::new(Config::default()).unwrap();
    // Not the identifier of a request.
    assert!(matches!(
        Connection::new().on_control_frame(&mut inner, Frame::Goaway(3)),
        Err(ErrorOrigin::Internal(InternalConnectionError {
            code: Code::H3_ID_ERROR,
            detail: Some(Detail::Number(3)),
            ..
        }))
    ));
    let mut inner: ConnectionInner<u8> = ConnectionInner::new(Config::default()).unwrap();
    let mut client = Connection::new();
    let mut goaway = vec![];
    put_frame(GOAWAY, &[0], &mut goaway);
    assert_eq!(client.shutdown(&mut inner), Some(goaway));
    assert_eq!(client.shutdown(&mut inner), None);
    assert!(inner.shared.is_closing());
    assert!(matches!(
        Connection::on_server_stream(&mut inner),
        ErrorOrigin::Internal(InternalConnectionError {
            code: Code::H3_STREAM_CREATION_ERROR,
            ..
        })
    ));
}

#[test]
fn qpack_streams_are_worked_on_where_there_are_some() {
    let mut inner: ConnectionInner<u8> = ConnectionInner::new(Config::default()).unwrap();
    let work = inner.poll_qpack();
    assert!(!work.read_decoder_stream);
    assert!(inner.poll_accept_recv(stream_of(DECODER, 3)).is_ok());
    assert!(inner.poll_accept_recv(stream_of(ENCODER, 7)).is_ok());
    let work = inner.poll_qpack();
    assert!(work.read_decoder_stream && work.read_encoder_stream);
    inner.config.qpack_encoder_table_capacity = 0;
    assert!(!inner.poll_qpack().flush_encoder);
    inner.config.qpack_encoder_table_capacity = 1;
    assert!(inner.poll_qpack().flush_encoder);
}

#[test]
fn grease_streams_end() {
    let mut inner: ConnectionInner<u8> = ConnectionInner::new(Config::default()).unwrap();
    inner.send_grease_stream_flag = true;
    let mut expected = vec![];
    varint::encode(0x21 + 0x1f * 3, &mut expected);
    Frame::<Vec<u8>>::Grease(3).encode_with_payload(&mut expected);
    for action in [
        GreaseAction::Open,
        GreaseAction::Prepare(expected),
        GreaseAction::Flush,
        GreaseAction::Finish,
    ] {
        assert_eq!(inner.grease_action(3), action);
        assert_eq!(inner.poll_grease_stream(GreaseEvent::Pending), Poll::Pending);
        assert_eq!(inner.grease_action(3), action);
        inner.poll_grease_stream(GreaseEvent::Done);
    }
    assert_eq!(inner.grease_step, GreaseStatus::Finished);
    assert_eq!(inner.grease_action(3), GreaseAction::Nothing);

    let mut inner: ConnectionInner<u8> = ConnectionInner::new(Config::default()).unwrap();
    inner.send_grease_stream_flag = true;
    assert_eq!(inner.poll_grease_stream(GreaseEvent::Failed), Poll::Ready(()));
    assert_eq!(inner.grease_action(3), GreaseAction::Nothing);
}

#[test]
fn settings_of_this_endpoint_are_checked() {
    let mut config = Config {
        send_grease: false,
        ..Config::default()
    };
    config.extra_settings = vec![(SettingId::Other(MAX_VARINT + 1), 1)];
    assert_eq!(
        local_settings(&config),
        Err(SettingsError::InvalidSettingId(MAX_VARINT + 1))
    );
    let Err(origin) = ConnectionInner::<u8>::new(config) else {
        panic!("the settings make no connection");
    };
    assert_eq!(
        origin,
        detailed(
            Code::H3_INTERNAL_ERROR,
            "invalid local SETTINGS configuration: {}",
            Detail::Settings(SettingsError::InvalidSettingId(MAX_VARINT + 1))
        )
    );
}

#[test]
fn instructions_are_sent_once() {
    let mut streams: QpackStreams<u8> = QpackStreams::new(Decoder::new(0, 0).unwrap());
    streams.encoder.configure(256, 256).unwrap();
    let mut update = vec![];
    DynamicTableSizeUpdate(256).encode(&mut update);
    assert_eq!(streams.poll_flush_qpack_encoder(QpackIo::Start), Ok(QpackStep::Send));
    assert_eq!(streams.encoder_send_buf, update);
    assert_eq!(
        streams.poll_flush_qpack_encoder(QpackIo::Sent(1)),
        Ok(QpackStep::Send)
    );
    assert_eq!(streams.encoder_send_buf, update[1..]);
    assert_eq!(
        streams.poll_flush_qpack_encoder(QpackIo::SendPending),
        Ok(QpackStep::Pending)
    );
    assert_eq!(
        streams.poll_flush_qpack_encoder(QpackIo::Sent(update.len() - 1)),
        Ok(QpackStep::Done)
    );
    assert_eq!(
        streams.poll_flush_qpack_encoder(QpackIo::Sent(0)),
        Err(internal(
            Code::H3_INTERNAL_ERROR,
            "QPACK encoder stream made no write progress"
        ))
    );
}

#[test]
fn answers_do_not_pile_up() {
    let mut streams: QpackStreams<u8> = QpackStreams::new(Decoder::new(256, 1).unwrap());
    streams.encoder_recv = Some(BufRecvStream::new(StreamId(7)));
    let mut at = FlushAt::After;
    assert_eq!(
        streams.poll_qpack_encoder_stream(&mut at, QpackIo::Start),
        Ok(QpackStep::TakeEvents)
    );
    assert_eq!(at, FlushAt::Before);
    // There is nothing to send yet; the stream is read, and what came of it is flushed.
    assert_eq!(
        streams.poll_qpack_encoder_stream(&mut at, QpackIo::EventsTaken),
        Ok(QpackStep::TakeEvents)
    );
    assert_eq!(at, FlushAt::After);
    assert_eq!(
        streams.poll_qpack_encoder_stream(&mut at, QpackIo::EventsTaken),
        Ok(QpackStep::Receive)
    );
    let mut received = vec![];
    DynamicTableSizeUpdate(256).encode(&mut received);
    InsertWithoutNameRef::new(b"a", b"b").encode(&mut received).unwrap();
    assert!(streams
        .on_event(QpackEvent::RegisterBlocked {
            stream_id: StreamId(0),
            required_ref: 1,
            waker: 5,
        })
        .is_ok());
    // The insertion wakes whoever waited for it, and is answered before more is read.
    assert_eq!(
        streams.poll_qpack_encoder_stream(&mut at, QpackIo::Received(received)),
        Ok(QpackStep::TakeEvents)
    );
    assert_eq!(streams.woken, [5]);
    assert_eq!(
        streams.poll_qpack_encoder_stream(&mut at, QpackIo::EventsTaken),
        Ok(QpackStep::Send)
    );
    let mut answer = vec![];
    InsertCountIncrement(1).encode(&mut answer);
    assert_eq!(streams.decoder_send_buf, answer);
    assert_eq!(
        streams.poll_qpack_encoder_stream(&mut at, QpackIo::SendPending),
        Ok(QpackStep::Pending)
    );
    let recv = streams.encoder_recv.as_ref().unwrap();
    assert_eq!((recv.id, recv.eos), (StreamId(7), false));
    assert_eq!(
        streams.poll_qpack_encoder_stream(&mut at, QpackIo::Start),
        Ok(QpackStep::TakeEvents)
    );
    assert_eq!(
        streams.poll_qpack_encoder_stream(&mut at, QpackIo::EventsTaken),
        Ok(QpackStep::Send)
    );
    assert_eq!(
        streams.poll_qpack_encoder_stream(&mut at, QpackIo::Sent(1)),
        Ok(QpackStep::TakeEvents)
    );
    assert_eq!(
        streams.poll_qpack_encoder_stream(&mut at, QpackIo::EventsTaken),
        Ok(QpackStep::Receive)
    );
}

#[test]
fn failed_streams_are_let_go() {
    let event = InternalConnectionError::new(Code::QPACK_DECOMPRESSION_FAILED, "an event");
    let cases = || {
        vec![
            (QpackIo::Ended, Code::H3_CLOSED_CRITICAL_STREAM, false),
            (
                QpackIo::ReceiveFailed(StreamErrorIncoming::Unknown(1)),
                Code::H3_CLOSED_CRITICAL_STREAM,
                false,
            ),
            (
                QpackIo::Received(vec![0x3f, 0xff, 0xff, 0xff, 0x7f]),
                Code::QPACK_ENCODER_STREAM_ERROR,
                false,
            ),
            (QpackIo::SendUnavailable, Code::H3_CLOSED_CRITICAL_STREAM, true),
            (
                QpackIo::SendFailed(StreamErrorIncoming::Unknown(1)),
                Code::H3_CLOSED_CRITICAL_STREAM,
                true,
            ),
            (QpackIo::Sent(0), Code::H3_INTERNAL_ERROR, true),
            (QpackIo::EventsFailed(event), Code::QPACK_DECOMPRESSION_FAILED, true),
        ]
    };
    for start in [FlushAt::Before, FlushAt::After] {
        for (io, code, flush) in cases() {
            let mut streams: QpackStreams<u8> = QpackStreams::new(Decoder::new(256, 1).unwrap());
            streams.encoder_recv = Some(BufRecvStream::new(StreamId(7)));
            let mut at = start;
            match streams.poll_qpack_encoder_stream(&mut at, io) {
                Err(ErrorOrigin::Internal(error)) => assert_eq!(error.code, code),
                _ => panic!("the stream goes on"),
            }
            // Before the flush the stream was not being read.
            let kept = flush && start == FlushAt::Before;
            assert_eq!(streams.encoder_recv.is_some(), kept);
        }
    }
    for io in [QpackIo::Ended, QpackIo::ReceiveFailed(StreamErrorIncoming::Unknown(1))] {
        let mut streams: QpackStreams<u8> = QpackStreams::new(Decoder::new(0, 0).unwrap());
        streams.decoder_recv = Some(BufRecvStream::new(StreamId(11)));
        assert!(streams.poll_qpack_decoder_stream(io).is_err());
        assert!(streams.decoder_recv.is_none());
    }
}

#[test]
fn decoder_stream_errors_fail_the_connection() {
    let mut streams: QpackStreams<u8> = QpackStreams::new(Decoder::new(0, 0).unwrap());
    streams.decoder_recv = Some(BufRecvStream::new(StreamId(11)));
    assert_eq!(
        streams.poll_qpack_decoder_stream(QpackIo::Start),
        Ok(QpackStep::Receive)
    );
    let mut increment = vec![];
    InsertCountIncrement(1).encode(&mut increment);
    match streams.poll_qpack_decoder_stream(QpackIo::Received(increment)) {
        Err(ErrorOrigin::Internal(error)) => {
            assert_eq!(error.code, Code::QPACK_DECODER_STREAM_ERROR);
            assert_eq!(error.message, "invalid QPACK decoder stream instruction: {}");
            assert!(matches!(
                error.detail,
                Some(Detail::Encoder(EncoderError::Insertion(_)))
            ));
        }
        _ => panic!("nothing was inserted"),
    }
    assert!(streams.decoder_recv.is_none());
    assert_eq!(
        streams.poll_qpack_decoder_stream(QpackIo::Ended),
        Err(internal(
            Code::H3_CLOSED_CRITICAL_STREAM,
            "QPACK decoder stream closed"
        ))
    );
}

#[test]
fn directions_are_cancelled_once() {
    let mut events: EventQueue<u8> = EventQueue::new();
    let mut guard = StreamGuard::new();
    let both = Cancellation {
        reset: Some(Code::H3_REQUEST_CANCELLED),
        stop: Some(Code::H3_REQUEST_CANCELLED),
    };
    let none = Cancellation {
        reset: None,
        stop: None,
    };
    assert_eq!(guard.cancel_remaining(&mut None, &mut events), both);
    assert_eq!(guard.cancel_remaining(&mut None, &mut events), none);

    // A code that was given is not replaced.
    let mut guard = StreamGuard::new();
    assert_eq!(
        guard.stop_sending(Code::H3_MESSAGE_ERROR, &mut None, &mut events),
        Some(Code::H3_MESSAGE_ERROR)
    );
    assert_eq!(
        guard.stop_sending(Code::H3_NO_ERROR, &mut None, &mut events),
        Some(Code::H3_MESSAGE_ERROR)
    );
    assert_eq!(guard.recv_stop_code, Some(Code::H3_MESSAGE_ERROR));

    let (mut send, mut recv) = StreamGuard::new().split();
    let sending = send.cancel_remaining(&mut None, &mut events);
    let receiving = recv.cancel_remaining(&mut None, &mut events);
    assert_eq!((sending.reset, sending.stop), (both.reset, None));
    assert_eq!((receiving.reset, receiving.stop), (None, both.stop));

    let mut guard = RequestStreamGuard::new(true, true);
    guard.disarm_reset();
    assert_eq!(guard.close().stop, both.stop);
    let mut guard = RequestStreamGuard::new(true, true);
    guard.disarm_stop_sending();
    assert_eq!(guard.close().reset, both.reset);
    let mut guard = RequestStreamGuard::new(true, true);
    guard.into_inner();
    assert_eq!(guard.close(), none);
}

fn receiving() -> ReceiveState {
    let decoder = QpackDecoder::new(&Decoder::new(256, 1).unwrap());
    let qpack = QpackReceive {
        stream_id: StreamId(4),
        decoder,
    };
    ReceiveState::new(Some(qpack), true, None, false, None)
}

#[test]
fn first_stop_of_a_receiver_stands() {
    let mut events: EventQueue<u8> = EventQueue::new();
    let mut state = receiving();
    assert_eq!(
        state.cancel(Code::H3_MESSAGE_ERROR, &mut events),
        Some(Code::H3_MESSAGE_ERROR)
    );
    assert_eq!(
        state.cancel(Code::H3_NO_ERROR, &mut events),
        Some(Code::H3_MESSAGE_ERROR)
    );
    assert!(matches!(
        events.events[..],
        [QpackEvent::StreamCancel(StreamId(4))]
    ));
    // Nothing is queued any more.
    state.block(3, 0, &mut events).unwrap();
    state.acknowledge(true, &mut events).unwrap();
    assert!(!state.finish(&mut events));
    assert_eq!(events.events.len(), 1);
    let pending: Poll<Result<u8, StreamError>> = Poll::Pending;
    assert!(matches!(
        state.poll(pending),
        Poll::Ready(Err(StreamError::StreamError {
            code: Code::H3_MESSAGE_ERROR,
            ..
        }))
    ));
}

#[test]
fn received_messages_are_not_stopped() {
    let mut events: EventQueue<u8> = EventQueue::new();
    let mut state = receiving();
    state.block(3, 0, &mut events).unwrap();
    assert!(state.finish(&mut events));
    assert_eq!(state.cancel(Code::H3_NO_ERROR, &mut events), None);
    assert_eq!(state.error(), None);
    assert!(matches!(
        events.events[..],
        [
            QpackEvent::RegisterBlocked { required_ref: 3, .. },
            QpackEvent::ReleaseBlocked { required_ref: 3, .. }
        ]
    ));
}

#[test]
fn finished_streams_are_not_cancelled() {
    let mut events: EventQueue<u8> = EventQueue::new();
    let decoder = QpackDecoder::new(&Decoder::new(256, 1).unwrap());
    let mut guard = DecoderGuard::new(StreamId(0), decoder);
    guard.block(2, 1, &mut events).unwrap();
    guard.finish_reading(&mut events);
    assert!(!guard.cancel_reading(&mut events));
    assert!(matches!(
        events.events[..],
        [
            QpackEvent::RegisterBlocked { required_ref: 2, .. },
            QpackEvent::ReleaseBlocked { required_ref: 2, .. }
        ]
    ));
    events.closed = true;
    assert!(matches!(
        guard.acknowledge(true, &mut events),
        Err(DecoderError::Internal(_))
    ));
}

#[test]
fn sending_half_settles_nothing() {
    let mut events: EventQueue<u8> = EventQueue::new();
    let decoder = QpackDecoder::new(&Decoder::new(256, 1).unwrap());
    let stream = FrameStream::new(BufRecvStream::new(StreamId(0)));
    let request = RequestStream::new(stream, 1000, 1000, false, Some(decoder));
    let (mut send, mut recv) = request.split();
    send.cancel_qpack_reading(&mut events);
    assert!(events.events.is_empty());
    recv.cancel_qpack_reading(&mut events);
    assert!(matches!(
        events.events[..],
        [QpackEvent::StreamCancel(StreamId(0))]
    ));
}

#[test]
fn sections_are_acknowledged_once() {
    // Required insert count 1, and the latest insertion.
    let section = [2, 0, 0x80];
    let mut decoder = Decoder::new(256, 1).unwrap();
    let mut instructions = vec![];
    DynamicTableSizeUpdate(256).encode(&mut instructions);
    InsertWithoutNameRef::new(b":status", b"204")
        .encode(&mut instructions)
        .unwrap();
    let stream = FrameStream::new(BufRecvStream::new(StreamId(0)));
    let shared_decoder = QpackDecoder::new(&decoder);
    let mut request = RequestStream::new(stream, 1000, 1000, false, Some(shared_decoder));
    let mut frame = vec![];
    put_frame(HEADERS, &section, &mut frame);
    request.stream.receive(frame);
    let mut shared = SharedState::default();
    let mut events: EventQueue<u8> = EventQueue::new();
    let mut waiting = None;
    assert!(matches!(
        request.poll_recv_response(&mut waiting, &decoder, &mut shared, 1, &mut events),
        Ok(http3::request_stream::RecvStep::Blocked)
    ));
    assert!(waiting.is_some());
    decoder
        .on_encoder_recv(&mut Reader::new(&instructions), &mut vec![])
        .unwrap();
    match request.poll_recv_response(&mut waiting, &decoder, &mut shared, 1, &mut events) {
        Ok(http3::request_stream::RecvStep::Ready((status, fields, _))) => {
            assert_eq!(status, 204);
            assert!(fields.is_empty());
        }
        _ => panic!("the section can be decoded"),
    }
    assert!(matches!(
        events.events[..],
        [
            QpackEvent::RegisterBlocked { required_ref: 1, .. },
            QpackEvent::ReleaseBlocked { required_ref: 1, .. },
            QpackEvent::HeaderAck(StreamId(0))
        ]
    ));
}

#[test]
fn responses_that_are_too_large_stop_the_stream() {
    let stream = FrameStream::new(BufRecvStream::new(StreamId(0)));
    let mut request = RequestStream::new(stream, 20, 1000, false, None);
    let mut frame = vec![];
    put_frame(HEADERS, &[0, 0, 0xd9], &mut frame);
    request.stream.receive(frame);
    let decoder = Decoder::new(0, 0).unwrap();
    let mut shared = SharedState::default();
    let mut events: EventQueue<u8> = EventQueue::new();
    let Err(failure) =
        request.poll_recv_response(&mut None, &decoder, &mut shared, 1, &mut events)
    else {
        panic!("the response is too large");
    };
    assert_eq!(failure.stop, Some(Code::H3_REQUEST_CANCELLED));
    assert_eq!(
        failure.error,
        StreamError::HeaderTooBig {
            actual_size: 42,
            max_size: 20,
        }
    );
}

#[test]
fn trailers_are_sent_and_received() {
    let mut shared = SharedState::default();
    let mut trailers = HeaderMap::new();
    trailers.insert("x-sum", HeaderValue::from_static("42"));
    assert!(matches!(
        RequestStream::send_trailers(trailers.clone(), 38, &mut shared),
        Err(StreamError::HeaderTooBig {
            actual_size: 39,
            max_size: 38,
        })
    ));
    let frame = RequestStream::send_trailers(trailers, 1000, &mut shared).unwrap();
    let stream = FrameStream::new(BufRecvStream::new(StreamId(0)));
    let mut request = RequestStream::new(stream, 1000, 1000, false, None);
    let mut bytes = vec![];
    Frame::Data(b"content".to_vec()).encode_with_payload(&mut bytes);
    bytes.extend(frame);
    request.stream.receive(bytes);
    request.stream.finish();
    let decoder = Decoder::new(0, 0).unwrap();
    let mut events: EventQueue<u8> = EventQueue::new();
    assert!(matches!(
        request.poll_recv_data(&mut shared, &mut events),
        Ok(http3::request_stream::RecvStep::Ready(true))
    ));
    match request.poll_recv_payload(&mut shared, &mut events) {
        Ok(http3::request_stream::RecvStep::Ready(Some(data))) => assert_eq!(data, b"content"),
        _ => panic!("there is content"),
    }
    match request.poll_recv_trailers(&decoder, &mut shared, 1, &mut events) {
        Ok(http3::request_stream::RecvStep::Ready(Some(fields))) => {
            assert_eq!(fields["x-sum"], "42");
        }
        _ => panic!("there are trailers"),
    }
}

#[test]
fn last_frames_may_be_grease() {
    let stream = FrameStream::new(BufRecvStream::new(StreamId(0)));
    let mut request = RequestStream::new(stream, 1000, 1000, true, None);
    let mut expected = vec![];
    Frame::<Vec<u8>>::Grease(11).encode_with_payload(&mut expected);
    assert_eq!(request.finish(11), Some(expected));
    request.grease_sent();
    assert_eq!(request.finish(11), None);
}

#[test]
fn goaway_rejects_requests_from_its_boundary() {
    let mut shared = SharedState::default();
    shared.set_peer_goaway(StreamId(4));
    assert_eq!(SendRequest::write_headers(StreamId(0), Ok(()), &mut shared), Ok(()));
    assert_eq!(
        SendRequest::write_headers(StreamId(4), Ok(()), &mut shared),
        Err(StreamError::GoawayRejected {
            stream_id: StreamId(4),
            boundary: StreamId(4),
        })
    );
    shared.set_closing();
    assert_eq!(
        SendRequest::open_request_stream_with_state(Ok(()), &mut shared),
        Err(StreamError::ConnectionClosing)
    );
}

#[test]
fn requests_larger_than_the_peer_accepts_are_not_sent() {
    let mut sender = SendRequest::new(None, 65536, 262144, false);
    let mut shared = SharedState::default();
    shared.set_settings(Settings {
        max_field_section_size: 100,
        ..Settings::default()
    });
    let target = || Target {
        scheme: Some(b"https".to_vec()),
        authority: Some(b"localhost".to_vec()),
        path: Some(b"/".to_vec()),
    };
    let result = sender.send_request(
        b"GET".to_vec(),
        target(),
        HeaderMap::new(),
        MessageExtensions::default(),
        false,
        &mut shared,
    );
    assert!(matches!(
        result,
        Err(StreamError::HeaderTooBig {
            actual_size: 175,
            max_size: 100,
        })
    ));
    shared = SharedState::default();
    let prepared = sender
        .send_request(
            b"GET".to_vec(),
            target(),
            HeaderMap::new(),
            MessageExtensions::default(),
            false,
            &mut shared,
        )
        .unwrap();
    let mut encoder = QpackEncoder::default();
    let (frame, queued) = sender
        .encode_request(StreamId(0), prepared, &mut encoder, &mut shared)
        .unwrap();
    assert!(!queued);
    // GET, https and / are in the static table, and so is the name of the authority.
    assert_eq!(frame[..2], [1, frame.len() as u8 - 2]);
    assert_eq!(frame[2..6], [0, 0, 0xd1, 0xd7]);
    assert_eq!(headers_frame(&[7, 8]), [1, 2, 7, 8]);
}

#[test]
fn requests_are_received_as_they_were_sent() {
    let mut sender = SendRequest::new(None, 65536, 262144, false);
    let mut shared = SharedState::default();
    let mut headers = HeaderMap::new();
    headers.insert("accept", HeaderValue::from_static("text/plain"));
    let target = Target {
        scheme: Some(b"https".to_vec()),
        authority: Some(b"example.org".to_vec()),
        path: Some(b"/x".to_vec()),
    };
    let prepared = sender
        .send_request(
            b"POST".to_vec(),
            target,
            headers,
            MessageExtensions::default(),
            false,
            &mut shared,
        )
        .unwrap();
    let (mut bytes, _) = sender
        .encode_request(
            StreamId(0),
            prepared,
            &mut QpackEncoder::default(),
            &mut shared,
        )
        .unwrap();
    bytes.extend_from_slice(b"rest");
    let mut received = list(&bytes);
    let Ok(Some(Frame::Headers(block))) = FrameDecoder::default().decode(&mut received) else {
        panic!("a header section was sent");
    };
    assert_eq!(received.chunk(), b"rest");
    let decoded = decode_stateless(&mut Reader::new(&block), 65536).unwrap();
    let parts = Header::try_from(decoded.fields)
        .unwrap()
        .into_request_parts()
        .unwrap();
    assert_eq!(parts.method, b"POST");
    assert_eq!(parts.target.authority.as_deref(), Some(&b"example.org"[..]));
    assert_eq!(parts.target.path.as_deref(), Some(&b"/x"[..]));
    assert_eq!(parts.fields["accept"], "text/plain");
}

#[test]
fn announced_settings_are_understood() {
    let mut config = Config {
        send_grease: true,
        ..Config::default()
    };
    config.settings.qpack_max_table_capacity = Some(1000);
    config.settings.enable_datagram = true;
    config.extra_settings = vec![(SettingId::Other(0x9999), 5)];
    let settings = local_settings(&config).unwrap();
    let mut payload = vec![];
    settings.encode(&mut payload);
    let read = WireSettings::decode(&payload).unwrap();
    assert_eq!(read.get(0x9999), None);
    assert_eq!(Settings::from_wire(&read), Settings::from_wire(&settings));
    assert_eq!(Settings::from_wire(&read).qpack_max_table_capacity, Some(1000));
    assert!(Settings::from_wire(&read).enable_datagram);
}

#[test]
fn taken_buffers_are_emptied() {
    let mut buffer = BytesMut::from(&b"block"[..]);
    assert_eq!(take_qpack_encode_buffer(&mut buffer), b"block");
    assert!(buffer.is_empty());
}

#[test]
fn frames_of_pushes_are_told_apart() {
    let mut bytes = vec![];
    put_frame(PUSH_PROMISE, &[7, 1, 2], &mut bytes);
    match Frame::<PayloadLen>::decode_with_max_field_section_size(&list(&bytes), 10) {
        Ok((Frame::PushPromise(promise), 5)) => {
            assert_eq!(promise.id, 7);
            assert_eq!(promise.encoded, [1, 2]);
        }
        _ => panic!("a push is promised"),
    }
}

#[test]
fn payloads_are_read_whole_or_not_at_all() {
    let mut bytes = vec![];
    Frame::Data(b"a longer body".to_vec()).encode_with_payload(&mut bytes);
    bytes.extend_from_slice(b"next");
    for end in 2..=bytes.len() {
        let mut stream = FrameStream::new(BufRecvStream::new(StreamId(0)));
        stream.receive(bytes[..2].to_vec());
        assert!(matches!(
            stream.poll_next(),
            Ok(Poll::Ready(Some(Frame::Data(PayloadLen(13)))))
        ));
        let mut arriving: Vec<Vec<u8>> = bytes[2..end].chunks(4).map(|c| c.to_vec()).collect();
        arriving.reverse();
        let mut read = vec![];
        let outcome = loop {
            match arriving.pop() {
                Some(chunk) => stream.receive(chunk),
                None => stream.finish(),
            }
            match stream.poll_data() {
                Ok(Poll::Ready(Some(data))) => read.extend(data),
                Ok(Poll::Ready(None)) => break Ok(()),
                Ok(Poll::Pending) => {}
                Err(error) => break Err(error),
            }
        };
        assert!(b"a longer body".starts_with(&read));
        if end >= 15 {
            assert_eq!(outcome, Ok(()));
            assert_eq!(read, b"a longer body");
        } else {
            assert_eq!(outcome, Err(FrameStreamError::UnexpectedEnd));
        }
    }
}

#[test]
fn streams_of_requests_decode_with_the_connections_decoder() {
    let decoder = Decoder::new(256, 1).unwrap();
    let shared_decoder = QpackDecoder::new(&decoder);
    let mut sender = SendRequest::new(Some(shared_decoder), 1000, 500, true);
    let stream = sender.request_stream(StreamId(8));
    assert_eq!(stream.inner.stream.decoder.max_field_section_size, 500);
    assert!(stream.inner.send_grease_frame);
    assert!(matches!(
        &stream.inner.decode_state,
        RequestDecodeState::Dynamic(guard) if **guard == DecoderGuard::new(StreamId(8), shared_decoder)
    ));
    let (send, recv) = stream.split();
    assert!(send.inner.send_grease_frame);
    assert_eq!(send.inner.stream.id(), StreamId(8));
    assert!(matches!(send.inner.decode_state, RequestDecodeState::SendOnly));
    assert!(matches!(recv.inner.decode_state, RequestDecodeState::Dynamic(_)));
    // Only the first request sends the frame that means nothing.
    assert!(!sender.request_stream(StreamId(12)).inner.send_grease_frame);
}

#[test]
fn stopped_requests_give_up_their_field_sections() {
    let decoder = Decoder::new(256, 1).unwrap();
    let mut sender = SendRequest::new(Some(QpackDecoder::new(&decoder)), 1000, 500, false);
    let mut events: EventQueue<u8> = EventQueue::new();
    let mut stream = sender.request_stream(StreamId(8));
    stream.response = Some(vec![1]);
    assert_eq!(
        stream.stop_sending(Code::H3_MESSAGE_ERROR, &mut events),
        Some(Code::H3_MESSAGE_ERROR)
    );
    assert!(stream.response.is_none());
    assert!(matches!(
        events.events[..],
        [QpackEvent::StreamCancel(StreamId(8))]
    ));

    let mut stream = sender.request_stream(StreamId(12));
    stream.finish_reading(&mut events);
    assert!(stream.guard.stop_sending_on_drop);
    stream.inner.stream.finish();
    stream.inner.trailers = Some(vec![1]);
    stream.finish_reading(&mut events);
    assert!(stream.guard.stop_sending_on_drop);
    stream.inner.trailers = None;
    stream.finish_reading(&mut events);
    assert!(!stream.guard.stop_sending_on_drop);
}

#[test]
fn many_fields_of_few_names_are_taken() {
    let many: Vec<HeaderField> = (0..40_000)
        .map(|i| line(&format!("x-{}", i % 100), "y"))
        .collect();
    assert_eq!(Header::try_from(many).unwrap().len(), 40_000);
}

fn status_frame(section: &[u8]) -> Vec<u8> {
    let mut frame = vec![];
    put_frame(HEADERS, section, &mut frame);
    frame
}

#[test]
fn trailers_that_are_too_large_stop_the_stream() {
    let mut sender = SendRequest::new(None, 20, 1000, false);
    let mut request = sender.request_stream(StreamId(0));
    request.response = Some(vec![1]);
    request.inner.stream.receive(status_frame(&[0, 0, 0xd9]));
    request.inner.stream.finish();
    let decoder = Decoder::new(0, 0).unwrap();
    let mut shared = SharedState::default();
    let mut events: EventQueue<u8> = EventQueue::new();
    let Err(failure) = request.poll_recv_trailers(&decoder, &mut shared, 1, &mut events) else {
        panic!("the trailers are too large");
    };
    assert_eq!(failure.stop, Some(Code::H3_REQUEST_CANCELLED));
    assert_eq!(
        failure.error,
        StreamError::HeaderTooBig {
            actual_size: 42,
            max_size: 20,
        }
    );
    assert!(!request.guard.stop_sending_on_drop);
    assert!(request.guard.reset_on_drop);
    assert_eq!(request.guard.recv_stop_code, Some(Code::H3_REQUEST_CANCELLED));
    assert_eq!(request.response, Some(vec![1]));
}

#[test]
fn first_stop_codes_stand_when_trailers_are_too_large() {
    let mut sender = SendRequest::new(None, 20, 1000, false);
    let mut request = sender.request_stream(StreamId(0));
    request.control = Some(ReceiveState::new(None, false, None, false, Some(Code::H3_NO_ERROR)));
    request.inner.stream.receive(status_frame(&[0, 0, 0xd9]));
    request.inner.stream.finish();
    let decoder = Decoder::new(0, 0).unwrap();
    let mut shared = SharedState::default();
    let mut events: EventQueue<u8> = EventQueue::new();
    let local = StreamError::StreamError {
        code: Code::H3_NO_ERROR,
        reason: "receive direction canceled locally",
    };
    assert_eq!(request.receive_rejected(&shared), Some(local));
    assert_eq!(request.rejected(&shared), None);
    let Err(failure) = request.poll_recv_trailers(&decoder, &mut shared, 1, &mut events) else {
        panic!("the trailers are too large");
    };
    assert_eq!(failure.stop, Some(Code::H3_NO_ERROR));
    shared.set_peer_goaway(StreamId(0));
    assert!(matches!(
        request.receive_rejected(&shared),
        Some(StreamError::GoawayRejected { .. })
    ));
}

#[test]
fn refused_responses_tell_why() {
    let mut sender = SendRequest::new(None, 1000, 1000, false);
    let mut request = sender.request_stream(StreamId(0));
    // A literal line: "A" is no name of a field.
    request
        .inner
        .stream
        .receive(status_frame(&[0, 0, 0x21, b'A', 0x01, b'b']));
    let decoder = Decoder::new(0, 0).unwrap();
    let mut shared = SharedState::default();
    let mut events: EventQueue<u8> = EventQueue::new();
    let Err(failure) = request.poll_recv_response(&decoder, &mut shared, 1, &mut events) else {
        panic!("the response is malformed");
    };
    assert_eq!(failure.stop, Some(Code::H3_MESSAGE_ERROR));
    assert_eq!(failure.cause, Some(HeaderError::InvalidHeaderName(b"A".to_vec())));
    assert!(!request.guard.stop_sending_on_drop);

    let mut request = sender.request_stream(StreamId(4));
    request.inner.stream.receive(status_frame(&[0, 0]));
    let Err(failure) = request.poll_recv_response(&decoder, &mut shared, 1, &mut events) else {
        panic!("the response has no status");
    };
    assert_eq!(failure.cause, Some(HeaderError::MissingStatus));

    let mut request = sender.request_stream(StreamId(8));
    request.inner.stream.receive(status_frame(&[0, 0, 0xd9]));
    assert!(matches!(
        request.poll_recv_response(&decoder, &mut shared, 1, &mut events),
        Ok(RecvStep::Ready((200, _, _)))
    ));
    assert!(request.guard.stop_sending_on_drop);
    // Not a dynamic table: the line refers to nothing.
    let mut request = sender.request_stream(StreamId(12));
    request.inner.stream.receive(status_frame(&[0, 0, 0x80]));
    let Err(failure) = request.poll_recv_response(&decoder, &mut shared, 1, &mut events) else {
        panic!("the section cannot be decoded");
    };
    let StreamError::ConnectionError(ErrorOrigin::Internal(error)) = failure.error else {
        panic!("the connection fails");
    };
    assert_eq!(error.code, Code::QPACK_DECOMPRESSION_FAILED);
    assert_eq!(error.message, "failed to decode response headers: {}");
    assert!(matches!(error.detail, Some(Detail::Decoder(_))));
}

#[test]
fn nothing_follows_the_end_of_a_message() {
    let mut order = SendOrder::new();
    assert_eq!(order.step(SendEvent::Data), Ok(()));
    // What was handed over is still pending.
    let pending = order;
    for event in [SendEvent::Data, SendEvent::Trailers] {
        assert_eq!(order.step(event), Err(StreamError::InvalidStreamState));
        assert_eq!(order, pending);
    }
    assert_eq!(order.step(SendEvent::Flushed), Ok(()));
    assert_eq!(order.step(SendEvent::Data), Ok(()));
    assert_eq!(order.step(SendEvent::Flushed), Ok(()));
    for last in [SendEvent::Trailers, SendEvent::Finish, SendEvent::Finished, SendEvent::Reset] {
        let mut ended = order;
        assert_eq!(ended.step(last), Ok(()));
        assert_eq!(ended.step(SendEvent::Flushed), Ok(()));
        for event in [SendEvent::Data, SendEvent::Trailers] {
            assert_eq!(ended.step(event), Err(StreamError::InvalidStreamState));
        }
    }
    let mut ended = order;
    assert_eq!(ended.step(SendEvent::Finish), Ok(()));
    assert_eq!(ended.phase, SendPhase::Finishing);
    assert_eq!(ended.step(SendEvent::Finished), Ok(()));
    assert_eq!(ended.step(SendEvent::Finish), Ok(()));
    assert_eq!(ended.phase, SendPhase::Finished);
}

#[test]
fn content_and_trailers_are_sent_in_order() {
    let mut sender = SendRequest::new(None, 1000, 1000, false);
    let mut request = sender.request_stream(StreamId(0));
    let mut shared = SharedState::default();
    let mut expected = vec![];
    Frame::Data(b"content".to_vec()).encode_with_payload(&mut expected);
    assert_eq!(request.start_send_data(b"content", &shared), Ok(expected));
    assert_eq!(
        request.start_send_data(b"more", &shared),
        Err(StreamError::InvalidStreamState)
    );
    request.sending.step(SendEvent::Flushed).unwrap();
    let mut trailers = HeaderMap::new();
    trailers.insert("x-sum", HeaderValue::from_static("42"));
    // Trailers that the peer refuses leave the order as it was.
    shared.set_settings(Settings {
        max_field_section_size: 38,
        ..Settings::default()
    });
    assert_eq!(
        request.start_send_trailers(trailers.clone(), &mut shared),
        Err(StreamError::HeaderTooBig {
            actual_size: 39,
            max_size: 38,
        })
    );
    assert_eq!(request.sending, SendOrder::new());
    let mut shared = SharedState::default();
    assert_eq!(
        request.start_send_trailers(trailers.clone(), &mut shared),
        RequestStream::send_trailers(trailers.clone(), MAX_VARINT, &mut SharedState::default())
    );
    request.sending.step(SendEvent::Flushed).unwrap();
    assert_eq!(
        request.start_send_trailers(trailers, &mut shared),
        Err(StreamError::InvalidStreamState)
    );
    assert_eq!(
        request.start_send_data(b"more", &shared),
        Err(StreamError::InvalidStreamState)
    );
    shared.set_peer_goaway(StreamId(0));
    assert!(matches!(
        request.start_send_data(b"more", &shared),
        Err(StreamError::GoawayRejected { .. })
    ));
}

#[test]
fn sections_without_a_chosen_order_have_the_default_order() {
    let header = Header::try_from(vec![
        line(":status", "200"),
        line(":protocol", "websocket"),
        line(":method", "GET"),
    ])
    .unwrap();
    let names: Vec<Vec<u8>> = header.iter_ref().into_iter().map(|field| field.name).collect();
    assert_eq!(names, [&b":method"[..], b":protocol", b":status"]);
    let mut fields = header.into_iter();
    for name in names {
        assert_eq!(fields.next().unwrap().name, name);
    }
}

#[test]
fn refused_stops_of_the_control_stream_have_their_own_words() {
    let mut inner: ConnectionInner<u8> = ConnectionInner::new(Config::default()).unwrap();
    assert_eq!(
        inner.control_write_failed(StreamErrorIncoming::StreamTerminated { error_code: 5 }),
        detailed(
            Code::H3_CLOSED_CRITICAL_STREAM,
            "control stream was requested to stop sending with error code {}",
            Detail::Number(5)
        )
    );
    assert_eq!(
        critical_stream_failed(StreamErrorIncoming::Unknown(9), CriticalStream::QpackDecoder),
        detailed(
            Code::H3_CLOSED_CRITICAL_STREAM,
            "QPACK decoder stream error: {}",
            Detail::Transport(9)
        )
    );
}

#[test]
fn refused_targets_tell_why() {
    let header = Header::try_from(vec![line(":method", "GET"), line("host", "")]).unwrap();
    match header.into_request_parts() {
        Err(HeaderError::InvalidRequest(text)) => assert_eq!(text, "empty string"),
        _ => panic!("an empty authority makes no target"),
    }
}
