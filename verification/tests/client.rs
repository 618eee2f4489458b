use bytes::BytesMut;
use http::{HeaderMap, HeaderValue};
use http3::client::{OpeningStream, PreparedRequest, RequestStream, SendRequest};
use http3::encode_buffer::{
    clear_qpack_encode_buffer, take_qpack_encode_buffer, MAX_RETAINED_QPACK_ENCODE_CAPACITY,
};
use http3::error::{Code, ErrorOrigin, StreamError};
use http3::frame::Poll;
use http3::guard::Cancellation;
use http3::proto::headers::{MessageExtensions, Target};
use http3::qpack::shared::{EventQueue, QpackDecoder, QpackEncoder, QpackEvent};
use http3::qpack::Decoder;
use http3::quic::StreamId;
use http3::request_stream::{RecvStep, RequestStream as MessageStream};
use http3::shared_state::SharedState;

/// A transport that holds operations back on demand and counts what is done to its streams.
#[derive(Default)]
struct Transport {
    block_open: bool,
    block_write: bool,
    block_finish: bool,
    close_on_open: bool,
    reject_on_read: bool,
    read: Option<Vec<u8>>,
    opened: usize,
    written: bool,
    reset: u64,
    reset_calls: usize,
    stopped: u64,
    stop_calls: usize,
}

impl Transport {
    fn apply(&mut self, cancellation: Cancellation) {
        if let Some(code) = cancellation.reset {
            self.reset = code.value();
            self.reset_calls += 1;
        }
        if let Some(code) = cancellation.stop {
            self.stopped = code.value();
            self.stop_calls += 1;
        }
    }
}

/// The connection that requests are made on.
struct Peer {
    transport: Transport,
    shared: SharedState,
    decoder: Decoder,
    encoder: QpackEncoder,
    dynamic: bool,
    events: EventQueue<u8>,
}

fn sender(dynamic: bool) -> (SendRequest, Peer) {
    let mut encoder = QpackEncoder::default();
    if dynamic {
        encoder.configure(4096, 4096).unwrap();
        encoder.take_pending_instructions();
        assert!(encoder.dynamic_ready());
    }
    let peer = Peer {
        transport: Transport::default(),
        shared: SharedState::default(),
        decoder: Decoder::new(256, 1).unwrap(),
        encoder,
        dynamic,
        events: EventQueue::new(),
    };
    (SendRequest::new(None, 65536, 262144, false), peer)
}

fn target() -> Target {
    Target {
        scheme: Some(b"https".to_vec()),
        authority: Some(b"localhost".to_vec()),
        path: Some(b"/".to_vec()),
    }
}

/// A request that is being sent.
enum Sending {
    Opening(PreparedRequest),
    Writing(OpeningStream),
    Done,
}

fn begin(sender: &mut SendRequest, peer: &mut Peer) -> Sending {
    let prepared = sender
        .send_request(
            b"GET".to_vec(),
            target(),
            HeaderMap::new(),
            MessageExtensions::default(),
            peer.dynamic && peer.encoder.dynamic_ready(),
            &mut peer.shared,
        )
        .unwrap();
    Sending::Opening(prepared)
}

impl Sending {
    fn poll(
        &mut self,
        sender: &mut SendRequest,
        peer: &mut Peer,
    ) -> Poll<Result<RequestStream, StreamError>> {
        if let Sending::Opening(prepared) = self {
            if peer.transport.block_open {
                return Poll::Pending;
            }
            peer.transport.opened += 1;
            if peer.transport.close_on_open {
                peer.shared.set_closing();
            }
            if let Err(error) =
                SendRequest::open_request_stream_with_state(Ok(()), &mut peer.shared)
            {
                let opening = OpeningStream::new(StreamId(0), None);
                peer.transport.apply(opening.close(&mut peer.events));
                *self = Sending::Done;
                return Poll::Ready(Err(error));
            }
            let opening = OpeningStream::new(StreamId(0), sender.decoder);
            let mut taken = PreparedRequest::Stateless(vec![]);
            std::mem::swap(prepared, &mut taken);
            sender
                .encode_request(StreamId(0), taken, &mut peer.encoder, &mut peer.shared)
                .unwrap();
            peer.transport.written = true;
            *self = Sending::Writing(opening);
        }
        match std::mem::replace(self, Sending::Done) {
            Sending::Writing(mut opening) => {
                if peer.transport.block_write {
                    *self = Sending::Writing(opening);
                    return Poll::Pending;
                }
                match SendRequest::write_headers(StreamId(0), Ok(()), &mut peer.shared) {
                    Err(error) => {
                        peer.transport.apply(opening.close(&mut peer.events));
                        Poll::Ready(Err(error))
                    }
                    Ok(()) => {
                        opening.complete = true;
                        peer.transport.apply(opening.close(&mut peer.events));
                        Poll::Ready(Ok(sender.request_stream(StreamId(0))))
                    }
                }
            }
            _ => unreachable!(),
        }
    }

    fn give_up(self, peer: &mut Peer) {
        if let Sending::Writing(opening) = self {
            peer.transport.apply(opening.close(&mut peer.events));
        }
    }
}

fn returned(sender: &mut SendRequest, peer: &mut Peer) -> RequestStream {
    match begin(sender, peer).poll(sender, peer) {
        Poll::Ready(Ok(stream)) => stream,
        _ => panic!("request did not open"),
    }
}

fn let_go(mut stream: RequestStream, peer: &mut Peer) {
    let cancellation = stream
        .guard
        .cancel_remaining(&mut stream.control, &mut peer.events);
    peer.transport.apply(cancellation);
    stream.inner.cancel_qpack_reading(&mut peer.events);
}

/// One attempt at an operation on the transport.
fn attempt(
    stream: &mut RequestStream,
    peer: &mut Peer,
    operation: usize,
) -> Poll<Result<(), StreamError>> {
    loop {
        let step = match operation {
            0 => match stream.inner.poll_recv_response(
                &mut stream.response,
                &peer.decoder,
                &mut peer.shared,
                7,
                &mut peer.events,
            ) {
                Ok(RecvStep::Ready((status, _, _))) => {
                    assert_eq!(status, 200);
                    return Poll::Ready(Ok(()));
                }
                Ok(RecvStep::Blocked) => return Poll::Pending,
                Ok(RecvStep::Read) => Ok(()),
                Err(failure) => Err(failure.error),
            },
            1 => match stream
                .inner
                .poll_recv_data(&mut peer.shared, &mut peer.events)
            {
                Ok(RecvStep::Ready(_)) => return Poll::Ready(Ok(())),
                Ok(_) => Ok(()),
                Err(error) => Err(error),
            },
            2 => match stream.inner.poll_recv_trailers(
                &peer.decoder,
                &mut peer.shared,
                7,
                &mut peer.events,
            ) {
                Ok(RecvStep::Ready(_)) => return Poll::Ready(Ok(())),
                Ok(_) => Ok(()),
                Err(failure) => Err(failure.error),
            },
            3 | 4 => {
                if operation == 4 {
                    let max = peer.shared.settings().max_field_section_size;
                    MessageStream::send_trailers(HeaderMap::new(), max, &mut peer.shared).unwrap();
                }
                if peer.transport.block_write {
                    return Poll::Pending;
                }
                peer.transport.written = true;
                return Poll::Ready(Ok(()));
            }
            5 => {
                stream.guard.poll_finish(!peer.transport.block_finish);
                if peer.transport.block_finish {
                    return Poll::Pending;
                }
                return Poll::Ready(Ok(()));
            }
            6 => return Poll::Pending,
            _ => unreachable!(),
        };
        if let Err(error) = step {
            return Poll::Ready(Err(error));
        }
        if peer.transport.reject_on_read {
            peer.shared.set_peer_goaway(StreamId(0));
        }
        match peer.transport.read.take() {
            Some(bytes) => stream.inner.stream.receive(bytes),
            None => return Poll::Pending,
        }
    }
}

/// An operation as its caller sees it.
fn operate(
    stream: &mut RequestStream,
    peer: &mut Peer,
    operation: usize,
) -> Poll<Result<(), StreamError>> {
    let step = match stream.rejected(&peer.shared) {
        Some(error) => Poll::Ready(Err(error)),
        None => attempt(stream, peer, operation),
    };
    let answer = stream.poll_rejection(&peer.shared, step);
    if let Poll::Ready(Err(error)) = &answer {
        let cancellation = stream.handle_result(*error, &mut peer.events);
        peer.transport.apply(cancellation);
    }
    answer
}

fn prepare_response_body(stream: &mut RequestStream, peer: &mut Peer, operation: usize) {
    if matches!(operation, 1 | 2) {
        peer.transport.read = Some(vec![1, 3, 0, 0, 0xd9]);
        assert_eq!(operate(stream, peer, 0), Poll::Ready(Ok(())));
    }
}

#[test]
fn goaway_rejects_returned_request_operations_on_next_poll_and_cancels_directions() {
    for terminal_error in [false, true] {
        for operation in 0..7 {
            let (mut sender, mut peer) = sender(false);
            let mut stream = returned(&mut sender, &mut peer);
            prepare_response_body(&mut stream, &mut peer, operation);
            peer.transport.block_write = true;
            peer.transport.block_finish = true;
            assert_eq!(operate(&mut stream, &mut peer, operation), Poll::Pending);
            if terminal_error {
                peer.shared.set_conn_error(ErrorOrigin::Transport(5));
            } else {
                peer.shared.set_peer_goaway(StreamId(0));
            }
            match operate(&mut stream, &mut peer, operation) {
                Poll::Ready(Err(StreamError::ConnectionError(ErrorOrigin::Transport(5))))
                    if terminal_error => {}
                Poll::Ready(Err(StreamError::GoawayRejected {
                    stream_id,
                    boundary,
                })) if !terminal_error => {
                    assert_eq!(stream_id, boundary);
                }
                _ => panic!("operation {operation} did not receive its error"),
            }
            let code = if terminal_error {
                0
            } else {
                Code::H3_REQUEST_CANCELLED.value()
            };
            assert_eq!(peer.transport.reset, code);
            assert_eq!(peer.transport.stopped, code);
        }
    }
}

#[test]
fn goaway_rejects_both_split_halves_independently() {
    for send_operation in 3..7 {
        for recv_operation in 0..3 {
            let (mut sender, mut peer) = sender(false);
            let (mut send, mut recv) = returned(&mut sender, &mut peer).split();
            prepare_response_body(&mut recv, &mut peer, recv_operation);
            peer.transport.block_write = true;
            peer.transport.block_finish = true;
            assert_eq!(operate(&mut send, &mut peer, send_operation), Poll::Pending);
            assert_eq!(operate(&mut recv, &mut peer, recv_operation), Poll::Pending);
            peer.shared.set_peer_goaway(StreamId(0));
            assert!(matches!(
                operate(&mut recv, &mut peer, recv_operation),
                Poll::Ready(Err(StreamError::GoawayRejected { .. }))
            ));
            assert_eq!(
                peer.transport.stopped,
                Code::H3_REQUEST_CANCELLED.value()
            );
            assert_eq!(peer.transport.reset, 0);
            assert!(matches!(
                operate(&mut send, &mut peer, send_operation),
                Poll::Ready(Err(StreamError::GoawayRejected { .. }))
            ));
            assert_eq!(peer.transport.reset, Code::H3_REQUEST_CANCELLED.value());
        }
    }
}

#[test]
fn goaway_during_transport_poll_is_not_lost() {
    let (mut sender, mut peer) = sender(false);
    let mut stream = returned(&mut sender, &mut peer);
    peer.transport.reject_on_read = true;
    assert!(matches!(
        operate(&mut stream, &mut peer, 0),
        Poll::Ready(Err(StreamError::GoawayRejected { .. }))
    ));
}

#[test]
fn goaway_is_checked_before_ready_writes() {
    let (mut sender, mut peer) = sender(false);
    let mut stream = returned(&mut sender, &mut peer);
    peer.transport.written = false;
    peer.shared.set_peer_goaway(StreamId(0));
    assert!(matches!(
        operate(&mut stream, &mut peer, 3),
        Poll::Ready(Err(StreamError::GoawayRejected { .. }))
    ));
    assert!(!peer.transport.written);
}

#[test]
fn goaway_preserves_completed_directions_and_cancels_remaining_once() {
    for split in [false, true] {
        // Open upload, completed upload, explicitly reset upload.
        for send_state in 0..3 {
            for stopped_receive in [false, true] {
                let (mut sender, mut peer) = sender(false);
                let mut stream = returned(&mut sender, &mut peer);
                if send_state == 1 {
                    assert_eq!(operate(&mut stream, &mut peer, 5), Poll::Ready(Ok(())));
                } else if send_state == 2 {
                    stream.guard.reset();
                    peer.transport.apply(Cancellation {
                        reset: Some(Code::H3_NO_ERROR),
                        stop: None,
                    });
                }
                if stopped_receive {
                    let stop = stream.guard.stop_sending(
                        Code::H3_MESSAGE_ERROR,
                        &mut stream.control,
                        &mut peer.events,
                    );
                    assert_eq!(stop, Some(Code::H3_MESSAGE_ERROR));
                    peer.transport.apply(Cancellation { reset: None, stop });
                }
                peer.shared.set_peer_goaway(StreamId(0));
                if split {
                    let (mut send, mut recv) = stream.split();
                    for _ in 0..2 {
                        assert!(matches!(
                            operate(&mut send, &mut peer, 5),
                            Poll::Ready(Err(StreamError::GoawayRejected { .. }))
                        ));
                        assert!(matches!(
                            operate(&mut recv, &mut peer, 1),
                            Poll::Ready(Err(StreamError::GoawayRejected { .. }))
                        ));
                    }
                    let_go(send, &mut peer);
                    let_go(recv, &mut peer);
                } else {
                    for _ in 0..2 {
                        assert!(matches!(
                            operate(&mut stream, &mut peer, 1),
                            Poll::Ready(Err(StreamError::GoawayRejected { .. }))
                        ));
                    }
                    let_go(stream, &mut peer);
                }
                assert_eq!(peer.transport.reset_calls, usize::from(send_state != 1));
                assert_eq!(
                    peer.transport.reset,
                    match send_state {
                        0 => Code::H3_REQUEST_CANCELLED.value(),
                        1 => 0,
                        _ => Code::H3_NO_ERROR.value(),
                    }
                );
                assert_eq!(peer.transport.stop_calls, 1);
                assert_eq!(
                    peer.transport.stopped,
                    if stopped_receive {
                        Code::H3_MESSAGE_ERROR.value()
                    } else {
                        Code::H3_REQUEST_CANCELLED.value()
                    }
                );
            }
        }
    }
}

#[test]
fn goaway_rejection_cancels_qpack_blocked_response_on_next_poll() {
    let (mut sender, mut peer) = sender(false);
    sender.decoder = Some(QpackDecoder::new(&peer.decoder));
    let mut stream = returned(&mut sender, &mut peer);
    // HEADERS with Required Insert Count 1, but the insertion has not arrived.
    peer.transport.read = Some(vec![1, 3, 2, 0, 0x80]);
    assert_eq!(operate(&mut stream, &mut peer, 0), Poll::Pending);
    assert!(matches!(
        peer.events.events[..],
        [QpackEvent::RegisterBlocked {
            required_ref: 1,
            ..
        }]
    ));
    peer.events.events.clear();
    peer.shared.set_peer_goaway(StreamId(0));
    assert!(matches!(
        operate(&mut stream, &mut peer, 0),
        Poll::Ready(Err(StreamError::GoawayRejected { .. }))
    ));
    let_go(stream, &mut peer);
    assert!(matches!(
        peer.events.events[..],
        [
            QpackEvent::ReleaseBlocked {
                required_ref: 1,
                ..
            },
            QpackEvent::StreamCancel(StreamId(0))
        ]
    ));
}

#[test]
fn goaway_rejects_poll_receivers_only_at_or_below_their_stream() {
    for trailers in [false, true] {
        let operation = if trailers { 2 } else { 1 };
        let (mut sender, mut peer) = sender(false);
        let mut stream = returned(&mut sender, &mut peer);
        prepare_response_body(&mut stream, &mut peer, operation);
        assert_eq!(operate(&mut stream, &mut peer, operation), Poll::Pending);
        // A boundary above this request changes nothing for it.
        peer.shared.set_peer_goaway(StreamId(4));
        assert_eq!(operate(&mut stream, &mut peer, operation), Poll::Pending);
        peer.shared.set_peer_goaway(StreamId(0));
        assert!(matches!(
            operate(&mut stream, &mut peer, operation),
            Poll::Ready(Err(StreamError::GoawayRejected { .. }))
        ));
    }
}

#[test]
fn pending_headers_cancel_both_directions_in_both_encoders() {
    for dynamic in [false, true] {
        let (mut sender, mut peer) = sender(dynamic);
        peer.transport.block_write = true;
        sender.decoder = Some(QpackDecoder::new(&Decoder::new(4096, 16).unwrap()));
        let mut sending = begin(&mut sender, &mut peer);
        assert!(matches!(
            sending.poll(&mut sender, &mut peer),
            Poll::Pending
        ));
        assert!(peer.transport.written);
        sending.give_up(&mut peer);
        assert!(matches!(
            peer.events.events[..],
            [QpackEvent::StreamCancel(StreamId(0))]
        ));
        assert_eq!(peer.transport.reset, Code::H3_REQUEST_CANCELLED.value());
        assert_eq!(peer.transport.stopped, Code::H3_REQUEST_CANCELLED.value());
    }
}

#[test]
fn closing_rejects_blocked_opens_once_the_transport_completes_them() {
    let (mut first, mut peer) = sender(false);
    peer.transport.block_open = true;
    let mut second = first.duplicate();
    let mut a = begin(&mut first, &mut peer);
    let mut b = begin(&mut second, &mut peer);
    assert!(matches!(a.poll(&mut first, &mut peer), Poll::Pending));
    assert!(matches!(b.poll(&mut second, &mut peer), Poll::Pending));
    // The open is rejected once the transport completes it, and the unusable
    // stream is cancelled.
    peer.shared.set_closing();
    assert!(matches!(a.poll(&mut first, &mut peer), Poll::Pending));
    peer.transport.block_open = false;
    assert!(matches!(
        a.poll(&mut first, &mut peer),
        Poll::Ready(Err(StreamError::ConnectionClosing))
    ));
    assert!(matches!(
        b.poll(&mut second, &mut peer),
        Poll::Ready(Err(StreamError::ConnectionClosing))
    ));
    assert_eq!(peer.transport.opened, 2);
    assert!(!peer.transport.written);
    assert_eq!(peer.transport.reset, Code::H3_REQUEST_CANCELLED.value());
    assert_eq!(peer.transport.stopped, Code::H3_REQUEST_CANCELLED.value());

    let (mut sender, mut peer) = sender(false);
    peer.transport.close_on_open = true;
    assert!(matches!(
        begin(&mut sender, &mut peer).poll(&mut sender, &mut peer),
        Poll::Ready(Err(StreamError::ConnectionClosing))
    ));
    assert!(!peer.transport.written);
    assert_eq!(peer.transport.reset, Code::H3_REQUEST_CANCELLED.value());
    assert_eq!(peer.transport.stopped, Code::H3_REQUEST_CANCELLED.value());
}

#[test]
fn decreasing_goaway_rejects_written_headers_only_at_boundary() {
    for dynamic in [false, true] {
        for (boundary, rejected) in [(4, false), (0, true)] {
            let (mut sender, mut peer) = sender(dynamic);
            peer.transport.block_write = true;
            let mut sending = begin(&mut sender, &mut peer);
            assert!(matches!(
                sending.poll(&mut sender, &mut peer),
                Poll::Pending
            ));
            peer.shared.set_peer_goaway(StreamId(boundary));
            peer.shared.set_closing();
            // The blocked write is not interrupted; the boundary is checked
            // once the headers are written.
            assert!(matches!(
                sending.poll(&mut sender, &mut peer),
                Poll::Pending
            ));
            peer.transport.block_write = false;
            let result = sending.poll(&mut sender, &mut peer);
            if rejected {
                assert!(matches!(
                    result,
                    Poll::Ready(Err(StreamError::GoawayRejected { stream_id, boundary }))
                        if stream_id == boundary
                ));
                assert_eq!(peer.transport.reset, Code::H3_REQUEST_CANCELLED.value());
                assert_eq!(peer.transport.stopped, Code::H3_REQUEST_CANCELLED.value());
            } else {
                assert!(matches!(result, Poll::Ready(Ok(_))));
                assert_eq!(peer.transport.reset, 0);
                assert_eq!(peer.transport.stopped, 0);
            }
        }
    }
}

#[test]
fn successful_headers_disarm_guard_and_invalid_requests_preserve_connection() {
    for dynamic in [false, true] {
        let (mut sender, mut peer) = sender(dynamic);
        let no_authority = Target {
            scheme: None,
            authority: None,
            path: Some(b"/".to_vec()),
        };
        let mut other_host = HeaderMap::new();
        other_host.insert("host", HeaderValue::from_static("other"));
        for (target, fields) in [(no_authority, HeaderMap::new()), (target(), other_host)] {
            assert!(matches!(
                sender.send_request(
                    b"GET".to_vec(),
                    target,
                    fields,
                    MessageExtensions::default(),
                    dynamic,
                    &mut peer.shared,
                ),
                Err(StreamError::InvalidRequest { .. })
            ));
            assert!(peer.shared.get_conn_error().is_none());
            assert_eq!(peer.transport.opened, 0);
        }
        let stream = returned(&mut sender, &mut peer);
        assert_eq!(peer.transport.reset, 0);
        assert_eq!(peer.transport.stopped, 0);
        // HEADERS completion transfers cancellation to the returned owner.
        let_go(stream, &mut peer);
        assert_eq!(peer.transport.reset, Code::H3_REQUEST_CANCELLED.value());
        assert_eq!(peer.transport.stopped, Code::H3_REQUEST_CANCELLED.value());
    }
}

#[test]
fn taken_blocks_remain_independent_and_large_storage_is_not_retained() {
    let mut buffer = BytesMut::with_capacity(64);
    buffer.extend_from_slice(b"first");
    let first = take_qpack_encode_buffer(&mut buffer);

    buffer.extend_from_slice(b"second");
    let second = take_qpack_encode_buffer(&mut buffer);

    assert_eq!(first, b"first"[..]);
    assert_eq!(second, b"second"[..]);

    let mut large = BytesMut::with_capacity(MAX_RETAINED_QPACK_ENCODE_CAPACITY + 1);
    large.extend_from_slice(b"large");
    assert_eq!(take_qpack_encode_buffer(&mut large), b"large"[..]);
    assert_eq!(large.capacity(), 0);
}

#[test]
fn clearing_drops_only_oversized_storage() {
    let mut small = BytesMut::with_capacity(64);
    small.extend_from_slice(b"partial");
    clear_qpack_encode_buffer(&mut small);
    assert!(small.is_empty());
    assert!(small.capacity() >= 64);

    let mut large = BytesMut::with_capacity(MAX_RETAINED_QPACK_ENCODE_CAPACITY + 1);
    large.extend_from_slice(b"partial");
    clear_qpack_encode_buffer(&mut large);
    assert!(large.is_empty());
    assert_eq!(large.capacity(), 0);
}
