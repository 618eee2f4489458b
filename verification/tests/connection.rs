use http3::config::{local_settings, Config, SettingId, Settings};
use http3::connection::invalid_qpack_decoder_configuration;
use http3::error::{Code, ErrorOrigin, InternalConnectionError};
use http3::qpack::shared::{BlockedStreamRegistry, EventQueue, QpackDecoder, QpackEvent};
use http3::qpack::{Decoder, DecoderError};
use http3::qpack_streams::wake_qpack_waiters_on_connection_error;
use http3::quic::StreamId;
use http3::request::{DecoderGuard, RequestDecodeState};
use http3::shared_state::SharedState;

fn field_section_guard() -> (DecoderGuard, EventQueue<u8>) {
    let decoder = QpackDecoder::new(&Decoder::new(0, 0).unwrap());
    (DecoderGuard::new(StreamId(0), decoder), EventQueue::new())
}

#[test]
fn request_decode_state_stays_within_two_words() {
    assert!(std::mem::size_of::<RequestDecodeState>() <= 2 * std::mem::size_of::<usize>());
}

#[test]
fn send_half_does_not_cancel_the_receive_decode_state() {
    let (guard, mut events) = field_section_guard();
    let mut send = RequestDecodeState::SendOnly;
    let mut recv = RequestDecodeState::Dynamic(Box::new(guard));

    send.cancel_reading(&mut events);
    assert!(events.events.is_empty());

    recv.cancel_reading(&mut events);
    assert!(matches!(
        events.events[..],
        [QpackEvent::StreamCancel(StreamId(0))]
    ));
}

#[test]
fn static_field_section_does_not_emit_acknowledgment() {
    let (mut guard, mut events) = field_section_guard();

    guard.acknowledge(false, &mut events).unwrap();
    guard.finish_reading(&mut events);
    guard.cancel_reading(&mut events);

    assert!(events.events.is_empty());
}

#[test]
fn each_dynamic_field_section_emits_an_acknowledgment() {
    let (mut guard, mut events) = field_section_guard();

    // Response headers and trailers are separate field sections on the same stream.
    guard.acknowledge(true, &mut events).unwrap();
    guard.acknowledge(true, &mut events).unwrap();
    guard.finish_reading(&mut events);
    guard.cancel_reading(&mut events);

    assert!(matches!(
        events.events[..],
        [
            QpackEvent::HeaderAck(StreamId(0)),
            QpackEvent::HeaderAck(StreamId(0))
        ]
    ));
}

#[test]
fn abandoning_stream_after_acknowledgment_emits_cancellation() {
    let (mut guard, mut events) = field_section_guard();

    guard.acknowledge(true, &mut events).unwrap();
    guard.cancel_reading(&mut events);

    assert!(matches!(
        events.events[..],
        [
            QpackEvent::HeaderAck(StreamId(0)),
            QpackEvent::StreamCancel(StreamId(0))
        ]
    ));
}

#[test]
fn explicit_cancellation_is_idempotent() {
    let (mut guard, mut events) = field_section_guard();

    assert!(guard.cancel_reading(&mut events));
    assert!(!guard.cancel_reading(&mut events));
    assert!(!guard.cancel_reading(&mut events));

    assert!(matches!(
        events.events[..],
        [QpackEvent::StreamCancel(StreamId(0))]
    ));
}

#[test]
fn blocked_stream_limit_counts_each_stream_once() {
    let mut blocked_streams = BlockedStreamRegistry::new(1);

    assert!(blocked_streams.register(StreamId(0), 1, 'a').is_ok());
    assert!(blocked_streams.register(StreamId(0), 1, 'b').is_ok());
    assert!(blocked_streams.register(StreamId(4), 2, 'c').is_err());

    blocked_streams.release(StreamId(0), 1);
    assert!(blocked_streams.register(StreamId(4), 2, 'd').is_ok());
}

#[test]
fn qpack_waiters_observe_connection_error_before_wake() {
    let mut shared = SharedState::default();
    let mut blocked_streams = BlockedStreamRegistry::new(4);
    blocked_streams.register(StreamId(0), 1, 'a').unwrap();
    let mut events = EventQueue::new();
    assert!(events.send(QpackEvent::RegisterBlocked {
        stream_id: StreamId(4),
        required_ref: 2,
        waker: 'b',
    }));
    assert!(events.send(QpackEvent::DecoderAccessWaker('c')));

    shared.set_conn_error(ErrorOrigin::Internal(InternalConnectionError::new(
        Code::QPACK_ENCODER_STREAM_ERROR,
        "invalid encoder instruction",
    )));
    let woken = wake_qpack_waiters_on_connection_error(&mut blocked_streams, &mut events);

    // Whoever is woken finds the error.
    assert!(shared.get_conn_error().is_some());
    assert_eq!(woken, vec!['a', 'b', 'c']);
    assert!(!events.send(QpackEvent::HeaderAck(StreamId(0))));
}

#[test]
fn blocked_stream_limit_defers_wake_until_error_is_published() {
    let mut shared = SharedState::default();
    let mut blocked_streams = BlockedStreamRegistry::new(0);

    // What would wake the task is handed back, and is not used before the error stands.
    let waker = blocked_streams
        .register(StreamId(0), 1, 'a')
        .expect_err("the blocked-stream limit should reject the field section");
    assert_eq!(waker, 'a');
    assert_eq!(blocked_streams.len(), 0);

    shared.set_conn_error(ErrorOrigin::Internal(InternalConnectionError::new(
        Code::QPACK_DECOMPRESSION_FAILED,
        "blocked-stream limit exceeded",
    )));
    assert!(shared.get_conn_error().is_some());
}

#[test]
fn invalid_local_qpack_configuration_is_an_internal_error() {
    let error = invalid_qpack_decoder_configuration(DecoderError::BufSize);

    assert_eq!(error.code, Code::H3_INTERNAL_ERROR);
}

#[test]
fn closed_qpack_decoder_event_channel_is_internal() {
    let decoder = QpackDecoder::new(&Decoder::new(0, 0).unwrap());
    let mut events: EventQueue<u8> = EventQueue::new();
    events.closed = true;

    let error = decoder
        .queue_section_acknowledgment(StreamId(0), &mut events)
        .unwrap_err();
    assert!(error.is_internal());
}

#[test]
fn local_qpack_decoder_settings_match_the_wire_frame() {
    let mut config = Config {
        send_grease: false,
        ..Config::default()
    };
    config.settings.qpack_max_table_capacity = Some(256);
    config.settings.qpack_blocked_streams = Some(4);
    config.settings_order = Some(vec![SettingId::MAX_HEADER_LIST_SIZE]);

    let wire_settings = local_settings(&config).unwrap();
    let effective = Settings::from_wire(&wire_settings);
    assert_eq!(effective.qpack_max_table_capacity, None);
    assert_eq!(effective.qpack_blocked_streams, None);

    config.settings_order = None;
    config.settings.qpack_max_table_capacity = None;
    config.settings.qpack_blocked_streams = None;
    config.extra_settings = vec![
        (SettingId::QPACK_MAX_TABLE_CAPACITY, 128),
        (SettingId::QPACK_MAX_BLOCKED_STREAMS, 2),
    ];
    let wire_settings = local_settings(&config).unwrap();
    let effective = Settings::from_wire(&wire_settings);
    assert_eq!(effective.qpack_max_table_capacity, Some(128));
    assert_eq!(effective.qpack_blocked_streams, Some(2));

    config.send_settings = false;
    let wire_settings = local_settings(&config).unwrap();
    let effective = Settings::from_wire(&wire_settings);
    assert_eq!(effective.qpack_max_table_capacity, None);
    assert_eq!(effective.qpack_blocked_streams, None);
}
