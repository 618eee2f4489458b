use http3::buf::Reader;
use http3::proto::headers::Header;
use http3::qpack::block::{
    HeaderPrefix, Indexed, Literal, LiteralWithNameRef, LiteralWithPostBaseNameRef,
};
use http3::qpack::decoder::decode_stateless;
use http3::qpack::dynamic::{DynamicTable, Error as DynamicTableError};
use http3::qpack::encoder::set_dynamic_table_size;
use http3::qpack::shared::{
    BlockedStreamRegistry, EventQueue, QpackDecoder, QpackEncoder, QpackEvent,
};
use http3::qpack::stream::{DynamicTableSizeUpdate, InsertCountIncrement, InsertWithoutNameRef};
use http3::qpack::{encode_stateless, Decoded, Decoder, DecoderError, Encoder, HeaderField};
use http3::quic::StreamId;

const TABLE_SIZE: usize = 4096;

fn line<N: AsRef<[u8]>, V: AsRef<[u8]>>(name: N, value: V) -> HeaderField {
    HeaderField::new(name.as_ref(), value.as_ref())
}

#[test]
fn codec_basic_get() {
    let mut encoder = Encoder::default();
    let mut decoder = Decoder::from_table(DynamicTable::new());

    let mut block_buf = vec![];
    let mut enc_buf = vec![];
    let mut dec_buf = vec![];

    let header = vec![
        line(":method", "GET"),
        line(":path", "/"),
        line("foo", "bar"),
    ];

    encoder
        .encode(42, &mut block_buf, &mut enc_buf, &header)
        .unwrap();

    let mut enc_cur = Reader::new(&enc_buf);
    decoder.on_encoder_recv(&mut enc_cur, &mut dec_buf).unwrap();

    let mut block_cur = Reader::new(&block_buf);
    let Decoded { fields, .. } = decoder.decode_header(&mut block_cur).unwrap();
    assert_eq!(fields, header);

    let mut dec_cur = Reader::new(&dec_buf);
    encoder.on_decoder_recv(&mut dec_cur).unwrap();
}

#[test]
fn blocked_header() {
    let mut enc_table = DynamicTable::new();
    enc_table.set_max_size(TABLE_SIZE).unwrap();
    enc_table.set_max_blocked(100).unwrap();
    let mut encoder = Encoder::from_table(enc_table);
    let mut dec_table = DynamicTable::new();
    dec_table.set_max_size(TABLE_SIZE).unwrap();
    dec_table.set_max_blocked(100).unwrap();
    let decoder = Decoder::from_table(dec_table);

    let mut block_buf = vec![];
    let mut enc_buf = vec![];

    encoder
        .encode(
            42,
            &mut block_buf,
            &mut enc_buf,
            &[line("foo", "bar")],
        )
        .unwrap();

    let mut block_cur = Reader::new(&block_buf);
    assert_eq!(
        decoder.decode_header(&mut block_cur),
        Err(DecoderError::MissingRefs(1))
    );
}

#[test]
fn blocked_field_section_keeps_reconstructed_prefix() {
    const ENTRY_SIZE: usize = 34;

    let mut field_section = Vec::new();
    HeaderPrefix::new(1, 1, 1, ENTRY_SIZE).encode(&mut field_section);
    Indexed::Dynamic(0).encode(&mut field_section);

    let mut decoder = Decoder::new(ENTRY_SIZE as u64, 1).unwrap();
    let mut prefix = None;
    let mut read = Reader::new(&field_section);
    assert_eq!(
        decoder.decode_header_limited(&mut read, u64::MAX, &mut prefix),
        Err(DecoderError::MissingRefs(1))
    );
    assert!(prefix.is_some());

    let mut encoder_stream = Vec::new();
    DynamicTableSizeUpdate(ENTRY_SIZE).encode(&mut encoder_stream);
    for value in ["1", "2", "3"] {
        InsertWithoutNameRef::new(b"a", value.as_bytes())
            .encode(&mut encoder_stream)
            .unwrap();
    }
    decoder
        .on_encoder_recv(&mut Reader::new(&encoder_stream), &mut Vec::new())
        .unwrap();

    // Required Insert Count is reconstructed when the prefix first arrives.
    // Reconstructing it against Insert Count 3 would turn RIC 1 into RIC 3 and
    // silently bind this field line to a different dynamic-table entry.
    // https://www.rfc-editor.org/rfc/rfc9204.html#section-4.5.1.1
    let result = decoder.decode_header_limited(&mut read, u64::MAX, &mut prefix);
    assert!(
        matches!(
            result,
            Err(DecoderError::DynamicTable(
                DynamicTableError::BadRelativeIndex(0)
            ))
        ),
        "unexpected retry result: {result:?}"
    );
}

#[test]
fn shared_decoder_queues_blocked_header_for_connection_driver() {
    let mut enc_table = DynamicTable::new();
    enc_table.set_max_size(TABLE_SIZE).unwrap();
    enc_table.set_max_blocked(100).unwrap();
    let mut encoder = Encoder::from_table(enc_table);

    let mut block_buf = vec![];
    let mut enc_buf = vec![];
    encoder
        .encode(
            42,
            &mut block_buf,
            &mut enc_buf,
            &[line("foo", "bar")],
        )
        .unwrap();

    let mut events: EventQueue<u8> = EventQueue::new();
    let decoder = Decoder::new(TABLE_SIZE as u64, 100).unwrap();
    let shared = QpackDecoder::new(&decoder);
    let mut block_cur = Reader::new(&block_buf);

    assert_eq!(
        shared.decode_field_section(&decoder, &mut block_cur, u64::MAX, &mut None),
        Err(DecoderError::MissingRefs(1))
    );
    assert!(events.events.is_empty());

    shared
        .queue_blocked_stream(StreamId(0), 1, 7, &mut events)
        .unwrap();
    assert!(matches!(
        events.events[..],
        [QpackEvent::RegisterBlocked {
            stream_id: StreamId(0),
            required_ref: 1,
            waker: 7,
        }]
    ));
}

#[test]
fn shared_decoder_rejects_blocking_when_the_advertised_limit_is_zero() {
    let mut events: EventQueue<u8> = EventQueue::new();
    let decoder = QpackDecoder::new(&Decoder::new(TABLE_SIZE as u64, 0).unwrap());

    assert!(matches!(
        decoder.queue_blocked_stream(StreamId(0), 1, 7, &mut events),
        Err(DecoderError::TooManyBlockedStreams)
    ));
    assert!(events.events.is_empty());
}

#[test]
fn decoder_update_releases_blocked_stream_budget_before_request_repoll() {
    let mut encoder_table = DynamicTable::new();
    encoder_table.set_max_blocked(1).unwrap();
    let mut first_encoder_stream = Vec::new();
    set_dynamic_table_size(&mut encoder_table, &mut first_encoder_stream, TABLE_SIZE).unwrap();
    let mut encoder = Encoder::from_table(encoder_table);

    let mut first_field_section = Vec::new();
    assert_eq!(
        encoder.encode(
            0,
            &mut first_field_section,
            &mut first_encoder_stream,
            &[line("first", "value")],
        ),
        Ok(1)
    );

    let mut decoder = Decoder::new(TABLE_SIZE as u64, 1).unwrap();
    let shared = QpackDecoder::new(&decoder);
    assert_eq!(
        shared.decode_field_section(
            &decoder,
            &mut Reader::new(&first_field_section),
            u64::MAX,
            &mut None,
        ),
        Err(DecoderError::MissingRefs(1))
    );
    let mut blocked_streams = BlockedStreamRegistry::new(1);
    assert!(matches!(blocked_streams.register(StreamId(0), 1, "first"), Ok(None)));

    let mut decoder_stream = Vec::new();
    let insert_count = decoder
        .on_encoder_recv(&mut Reader::new(&first_encoder_stream), &mut decoder_stream)
        .unwrap();
    assert_eq!(insert_count, 1);
    let woken = blocked_streams.update_insert_count(insert_count);
    assert_eq!(woken.len(), 1);
    assert_eq!(woken[0].waker, "first");
    encoder
        .on_decoder_recv(&mut Reader::new(&decoder_stream))
        .unwrap();

    let mut second_field_section = Vec::new();
    let mut second_encoder_stream = Vec::new();
    assert_eq!(
        encoder.encode(
            4,
            &mut second_field_section,
            &mut second_encoder_stream,
            &[line("second", "value")],
        ),
        Ok(2)
    );
    assert_eq!(
        shared.decode_field_section(
            &decoder,
            &mut Reader::new(&second_field_section),
            u64::MAX,
            &mut None,
        ),
        Err(DecoderError::MissingRefs(2))
    );

    // Insert Count one released the first stream before its request task polled
    // the field section again.
    // https://www.rfc-editor.org/rfc/rfc9204.html#section-2.2.1
    assert!(blocked_streams.register(StreamId(4), 2, "second").is_ok());
}

#[test]
fn blocked_registration_after_decoder_update_wakes_immediately() {
    let mut blocked_streams = BlockedStreamRegistry::new(1);
    blocked_streams.update_insert_count(1);

    // The update arrived before registration. The registry sees that the field
    // section is already decodable, wakes it, and uses no blocked-stream slot.
    // https://www.rfc-editor.org/rfc/rfc9204.html#section-2.2.1
    assert!(matches!(blocked_streams.register(StreamId(0), 1, "first"), Ok(Some("first"))));
    assert!(matches!(blocked_streams.register(StreamId(4), 2, "second"), Ok(None)));
}

#[test]
fn codec_table_size_0() {
    let mut enc_table = DynamicTable::new();
    let mut dec_table = DynamicTable::new();

    let mut block_buf = vec![];
    let mut enc_buf = vec![];
    let mut dec_buf = vec![];

    let header = vec![
        line(":method", "GET"),
        line(":path", "/"),
        line("foo", "bar"),
    ];

    dec_table.set_max_size(0).unwrap();
    enc_table.set_max_size(0).unwrap();

    let mut encoder = Encoder::from_table(enc_table);
    let mut decoder = Decoder::from_table(dec_table);

    encoder
        .encode(42, &mut block_buf, &mut enc_buf, &header)
        .unwrap();

    let mut enc_cur = Reader::new(&enc_buf);
    decoder.on_encoder_recv(&mut enc_cur, &mut dec_buf).unwrap();

    let mut block_cur = Reader::new(&block_buf);
    let Decoded { fields, .. } = decoder.decode_header(&mut block_cur).unwrap();
    assert_eq!(fields, header);

    let mut dec_cur = Reader::new(&dec_buf);
    encoder.on_decoder_recv(&mut dec_cur).unwrap();
}

#[test]
fn codec_table_full() {
    let mut enc_table = DynamicTable::new();
    let mut dec_table = DynamicTable::new();

    let mut block_buf = vec![];
    let mut enc_buf = vec![];
    let mut dec_buf = vec![];

    let header = vec![
        line("foo", "bar"),
        line("foo1", "bar1"),
    ];

    dec_table.set_max_size(42).unwrap();
    enc_table.set_max_size(42).unwrap();

    let mut encoder = Encoder::from_table(enc_table);
    let mut decoder = Decoder::from_table(dec_table);

    encoder
        .encode(42, &mut block_buf, &mut enc_buf, &header)
        .unwrap();

    let mut enc_cur = Reader::new(&enc_buf);
    let mut block_cur = Reader::new(&block_buf);

    decoder.on_encoder_recv(&mut enc_cur, &mut dec_buf).unwrap();
    let Decoded { fields, .. } = decoder.decode_header(&mut block_cur).unwrap();
    assert_eq!(fields, header);

    let mut dec_cur = Reader::new(&dec_buf);
    encoder.on_decoder_recv(&mut dec_cur).unwrap();
}

fn forward_stateless(fields: Vec<HeaderField>) -> Vec<u8> {
    let headers = Header::try_from(fields).unwrap();
    let mut encoded = Vec::new();
    encode_stateless(&mut encoded, &headers.iter_ref()).unwrap();
    let mut read = Reader::new(&encoded);
    HeaderPrefix::decode(&mut read).unwrap();
    read.chunk().to_vec()
}

#[test]
fn forwarded_never_indexed_static_name_reference_remains_literal() {
    let mut encoded = Vec::new();
    HeaderPrefix::new(0, 0, 0, 0).encode(&mut encoded);
    LiteralWithNameRef::new_static(17, b"GET")
        .with_never_indexed()
        .encode(&mut encoded)
        .unwrap();

    let decoded = decode_stateless(&mut Reader::new(&encoded), u64::MAX).unwrap();
    assert!(decoded.fields[0].is_sensitive());

    assert_eq!(
        LiteralWithNameRef::decode(&mut Reader::new(&forward_stateless(decoded.fields))),
        Ok(LiteralWithNameRef::new_static(15, b"GET").with_never_indexed())
    );
}

#[test]
fn forwarded_never_indexed_dynamic_name_reference_remains_literal() {
    let mut table = DynamicTable::new();
    table.set_max_size(TABLE_SIZE).unwrap();
    table.put(line("x-private", "old")).unwrap();
    let decoder = Decoder::from_table(table);
    let mut encoded = Vec::new();
    HeaderPrefix::new(1, 1, 1, TABLE_SIZE).encode(&mut encoded);
    LiteralWithNameRef::new_dynamic(0, b"secret")
        .with_never_indexed()
        .encode(&mut encoded)
        .unwrap();

    let decoded = decoder.decode_header(&mut Reader::new(&encoded)).unwrap();
    assert!(decoded.fields[0].is_sensitive());

    assert_eq!(
        Literal::decode(&mut Reader::new(&forward_stateless(decoded.fields))),
        Ok(Literal::new(b"x-private", b"secret").with_never_indexed())
    );
}

#[test]
fn forwarded_never_indexed_literal_name_remains_literal() {
    let mut encoded = Vec::new();
    HeaderPrefix::new(0, 0, 0, 0).encode(&mut encoded);
    Literal::new(b"x-private", b"secret")
        .with_never_indexed()
        .encode(&mut encoded)
        .unwrap();

    let decoded = decode_stateless(&mut Reader::new(&encoded), u64::MAX).unwrap();
    assert!(decoded.fields[0].is_sensitive());

    assert_eq!(
        Literal::decode(&mut Reader::new(&forward_stateless(decoded.fields))),
        Ok(Literal::new(b"x-private", b"secret").with_never_indexed())
    );
}

#[test]
fn forwarded_never_indexed_post_base_name_reference_remains_literal() {
    let mut table = DynamicTable::new();
    table.set_max_size(TABLE_SIZE).unwrap();
    table.put(line("x-private", "old")).unwrap();
    let decoder = Decoder::from_table(table);
    let mut encoded = Vec::new();
    HeaderPrefix::new(1, 0, 1, TABLE_SIZE).encode(&mut encoded);
    LiteralWithPostBaseNameRef::new(0, b"secret")
        .with_never_indexed()
        .encode(&mut encoded)
        .unwrap();

    let decoded = decoder.decode_header(&mut Reader::new(&encoded)).unwrap();
    assert!(decoded.fields[0].is_sensitive());

    assert_eq!(
        Literal::decode(&mut Reader::new(&forward_stateless(decoded.fields))),
        Ok(Literal::new(b"x-private", b"secret").with_never_indexed())
    );
}

#[test]
fn dynamic_encoder_waits_for_settings_instructions_to_drain() {
    let mut encoder = QpackEncoder::default();
    encoder.configure(256, 256).unwrap();

    let mut stateless = Vec::new();
    encoder
        .encode(
            StreamId(0),
            &mut stateless,
            &[line("custom", "value")],
        )
        .unwrap();
    assert_eq!(
        HeaderPrefix::decode(&mut Reader::new(&stateless))
            .unwrap()
            .get(0, 0),
        Ok((0, 0))
    );

    let pending = encoder.take_pending_instructions();
    let mut instructions = Reader::new(&pending);
    assert_eq!(
        DynamicTableSizeUpdate::decode(&mut instructions),
        Ok(Some(DynamicTableSizeUpdate(256)))
    );

    let mut prewarm = Vec::new();
    let encoder_instructions_queued = encoder
        .encode(
            StreamId(0),
            &mut prewarm,
            &[line("custom", "value")],
        )
        .unwrap();
    assert!(encoder_instructions_queued);
    assert_eq!(
        HeaderPrefix::decode(&mut Reader::new(&prewarm))
            .unwrap()
            .get(0, 256),
        Ok((0, 0))
    );

    let _instructions = encoder.take_pending_instructions();
    let mut increment = Vec::new();
    InsertCountIncrement(1).encode(&mut increment);
    encoder
        .on_decoder_recv(&mut Reader::new(&increment))
        .unwrap();

    let mut dynamic = Vec::new();
    let encoder_instructions_queued = encoder
        .encode(
            StreamId(4),
            &mut dynamic,
            &[line("custom", "value")],
        )
        .unwrap();
    assert!(!encoder_instructions_queued);
    assert_eq!(
        HeaderPrefix::decode(&mut Reader::new(&dynamic))
            .unwrap()
            .get(1, 256),
        Ok((1, 1))
    );
}
