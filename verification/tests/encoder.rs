use http3::buf::Reader;
use http3::buf_list::BufList;
use http3::qpack::block::{
    HeaderPrefix, Indexed, IndexedWithPostBase, Literal, LiteralWithNameRef,
    LiteralWithPostBaseNameRef,
};
use http3::qpack::dynamic::{DynamicTable, Error as DynamicTableError};
use http3::qpack::encoder::Action;
use http3::qpack::static_::StaticTable;
use http3::qpack::stream::{
    HeaderAck, InsertCountIncrement, InsertWithNameRef, InsertWithoutNameRef, StreamCancel,
};
use http3::qpack::{Encoder, EncoderError, HeaderField};
use http3::quic::{StreamId, MAX_VARINT};

const TABLE_SIZE: usize = 4096;

fn joined(list: &BufList) -> Vec<u8> {
    let mut bytes = vec![];
    list.copy_all(&mut bytes);
    bytes
}

fn build_table() -> DynamicTable {
    let mut table = DynamicTable::new();
    table.set_max_size(TABLE_SIZE).unwrap();
    table.set_max_blocked(100).unwrap();
    table
}

fn build_table_with_size(n_field: usize) -> DynamicTable {
    let mut table = build_table();
    for i in 0..n_field {
        table.put(line(format!("foo{}", i + 1), "bar")).unwrap();
    }
    table
}

fn line<N: AsRef<[u8]>, V: AsRef<[u8]>>(name: N, value: V) -> HeaderField {
    HeaderField::new(name.as_ref(), value.as_ref())
}

fn check_encode_field(
    init_fields: &[HeaderField],
    field: &[HeaderField],
    check: &dyn Fn(&mut Reader, &mut Reader),
) {
    let mut table = build_table();
    table.set_max_size(TABLE_SIZE).unwrap();
    check_encode_field_table(&mut table, init_fields, field, 1, check);
}

fn check_encode_field_table(
    table: &mut DynamicTable,
    init_fields: &[HeaderField],
    field: &[HeaderField],
    stream_id: u64,
    check: &dyn Fn(&mut Reader, &mut Reader),
) {
    for field in init_fields {
        table.put(field.clone()).unwrap();
    }

    let mut encoder = Vec::new();
    let mut block = Vec::new();
    let mut enc_table = table.encoder(stream_id);
    let mut required_insert_count = 0;

    for field in field {
        if let Some(reference) =
            Encoder::encode_field(&mut enc_table, &mut block, &mut encoder, field).unwrap()
        {
            required_insert_count = required_insert_count.max(reference);
        }
    }

    enc_table.commit(required_insert_count);

    let mut read_block = Reader::new(&block);
    let mut read_encoder = Reader::new(&encoder);
    check(&mut read_block, &mut read_encoder);
}

#[test]
fn encode_static() {
    let field = line(":method", "GET");
    check_encode_field(&[], &[field], &|b, e| {
        assert_eq!(Indexed::decode(b), Ok(Indexed::Static(17)));
        assert_eq!(e.remaining(), 0);
    });
}

#[test]
fn dynamic_encoder_keeps_sensitive_static_field_literal() {
    let mut encoder = Encoder::default();
    let field = line(":method", "GET").with_sensitive(true);
    let mut block = Vec::new();
    let mut encoder_stream = Vec::new();

    assert_eq!(
        encoder.encode(0, &mut block, &mut encoder_stream, &[field]),
        Ok(0)
    );
    assert!(encoder_stream.is_empty());

    let mut block = Reader::new(&block);
    HeaderPrefix::decode(&mut block).unwrap();
    assert_eq!(
        LiteralWithNameRef::decode(&mut block),
        Ok(LiteralWithNameRef::new_static(15, b"GET").with_never_indexed())
    );
}

#[test]
fn dynamic_encoder_uses_sensitive_dynamic_name_without_inserting() {
    let mut table = build_table();
    table.put(line("x-private", "old")).unwrap();
    let mut encoder = Encoder::from_table(table);
    let field = line("x-private", "secret").with_sensitive(true);
    let mut block = Vec::new();
    let mut encoder_stream = Vec::new();

    assert_eq!(
        encoder.encode(0, &mut block, &mut encoder_stream, &[field]),
        Ok(1)
    );
    assert!(encoder_stream.is_empty());

    let mut block = Reader::new(&block);
    HeaderPrefix::decode(&mut block).unwrap();
    assert_eq!(
        LiteralWithNameRef::decode(&mut block),
        Ok(LiteralWithNameRef::new_dynamic(0, b"secret").with_never_indexed())
    );
}

#[test]
fn dynamic_encoder_uses_sensitive_post_base_name_without_inserting() {
    let mut table = DynamicTable::new();
    table.set_max_size(TABLE_SIZE).unwrap();
    table.set_max_blocked(1).unwrap();
    let mut encoder = Encoder::from_table(table);
    let mut block = Vec::new();
    let mut encoder_stream = Vec::new();

    assert_eq!(
        encoder.encode(
            0,
            &mut block,
            &mut encoder_stream,
            &[
                line("x-private", "old"),
                line("x-private", "secret").with_sensitive(true),
            ],
        ),
        Ok(1)
    );

    let mut block = Reader::new(&block);
    HeaderPrefix::decode(&mut block).unwrap();
    IndexedWithPostBase::decode(&mut block).unwrap();
    assert_eq!(
        LiteralWithPostBaseNameRef::decode(&mut block),
        Ok(LiteralWithPostBaseNameRef::new(0, b"secret").with_never_indexed())
    );
}

#[test]
fn encode_static_nameref() {
    let field = line("location", "/bar");
    check_encode_field(&[], &[field], &|b, e| {
        assert_eq!(
            IndexedWithPostBase::decode(b),
            Ok(IndexedWithPostBase(0))
        );
        assert_eq!(
            InsertWithNameRef::decode(e),
            Ok(Some(InsertWithNameRef::new_static(12, b"/bar")))
        );
    });
}

#[test]
fn encode_static_nameref_indexed_in_dynamic() {
    let field = line("location", "/bar");
    check_encode_field(
        std::slice::from_ref(&field),
        std::slice::from_ref(&field),
        &|b, e| {
            assert_eq!(Indexed::decode(b), Ok(Indexed::Dynamic(0)));
            assert_eq!(e.remaining(), 0);
        },
    );
}

#[test]
fn encode_dynamic_insert() {
    let field = line("foo", "bar");
    check_encode_field(&[], &[field], &|b, e| {
        assert_eq!(
            IndexedWithPostBase::decode(b),
            Ok(IndexedWithPostBase(0))
        );
        assert_eq!(
            InsertWithoutNameRef::decode(e),
            Ok(Some(InsertWithoutNameRef::new(b"foo", b"bar")))
        );
    });
}

#[test]
fn encode_dynamic_insert_nameref() {
    let field = line("foo", "bar");
    check_encode_field(
        &[field.clone(), line("baz", "bar")],
        &[field.with_value(b"quxx")],
        &|b, e| {
            assert_eq!(
                IndexedWithPostBase::decode(b),
                Ok(IndexedWithPostBase(0))
            );
            assert_eq!(
                InsertWithNameRef::decode(e),
                Ok(Some(InsertWithNameRef::new_dynamic(1, b"quxx")))
            );
        },
    );
}

#[test]
fn encode_literal() {
    let mut table = build_table();
    table.set_max_size(0).unwrap();
    let field = line("foo", "bar");
    check_encode_field_table(&mut table, &[], &[field], 1, &|b, e| {
        assert_eq!(Literal::decode(b), Ok(Literal::new(b"foo", b"bar")));
        assert_eq!(e.remaining(), 0);
    });
}

#[test]
fn encode_literal_nameref() {
    let mut table = build_table();
    table.set_max_size(63).unwrap();
    let field = line("foo", "bar");

    check_encode_field_table(
        &mut table,
        &[],
        std::slice::from_ref(&field),
        1,
        &|b, _| {
            assert_eq!(
                IndexedWithPostBase::decode(b),
                Ok(IndexedWithPostBase(0))
            );
        },
    );
    check_encode_field_table(
        &mut table,
        std::slice::from_ref(&field),
        &[field.with_value(b"quxx")],
        2,
        &|b, e| {
            assert_eq!(
                LiteralWithNameRef::decode(b),
                Ok(LiteralWithNameRef::new_dynamic(0, b"quxx"))
            );
            assert_eq!(e.remaining(), 0);
        },
    );
}

#[test]
fn encode_literal_postbase_nameref() {
    let mut table = build_table();
    table.set_max_size(63).unwrap();
    let field = line("foo", "bar");
    check_encode_field_table(
        &mut table,
        &[],
        &[field.clone(), field.with_value(b"quxx")],
        1,
        &|b, e| {
            assert_eq!(
                IndexedWithPostBase::decode(b),
                Ok(IndexedWithPostBase(0))
            );
            assert_eq!(
                LiteralWithPostBaseNameRef::decode(b),
                Ok(LiteralWithPostBaseNameRef::new(0, b"quxx"))
            );
            assert_eq!(
                InsertWithoutNameRef::decode(e),
                Ok(Some(InsertWithoutNameRef::new(b"foo", b"bar")))
            );
        },
    );
}

#[test]
fn encode_with_header_block() {
    let mut table = build_table();

    for idx in 1..5 {
        table
            .put(line(
                format!("foo{}", idx),
                format!("bar{}", idx),
            ))
            .unwrap();
    }

    let mut encoder_buf = Vec::new();
    let mut block = Vec::new();
    let mut encoder = Encoder::from_table(table);

    let fields = vec![
        line(":method", "GET"),
        line("foo1", "bar1"),
        line("foo3", "new bar3"),
        line(":method", "staticnameref"),
        line("newfoo", "newbar"),
    ];

    assert_eq!(
        encoder.encode(1, &mut block, &mut encoder_buf, &fields),
        Ok(7)
    );

    let mut read_block = Reader::new(&block);
    let mut read_encoder = Reader::new(&encoder_buf);

    assert_eq!(
        InsertWithNameRef::decode(&mut read_encoder),
        Ok(Some(InsertWithNameRef::new_dynamic(1, b"new bar3")))
    );
    assert_eq!(
        InsertWithNameRef::decode(&mut read_encoder),
        Ok(Some(InsertWithNameRef::new_static(
            StaticTable::find_name(&b":method"[..]).unwrap(),
            b"staticnameref"
        )))
    );
    assert_eq!(
        InsertWithoutNameRef::decode(&mut read_encoder),
        Ok(Some(InsertWithoutNameRef::new(b"newfoo", b"newbar")))
    );

    assert_eq!(
        HeaderPrefix::decode(&mut read_block)
            .unwrap()
            .get(7, TABLE_SIZE),
        Ok((7, 4))
    );
    assert_eq!(Indexed::decode(&mut read_block), Ok(Indexed::Static(17)));
    assert_eq!(Indexed::decode(&mut read_block), Ok(Indexed::Dynamic(3)));
    assert_eq!(
        IndexedWithPostBase::decode(&mut read_block),
        Ok(IndexedWithPostBase(0))
    );
    assert_eq!(
        IndexedWithPostBase::decode(&mut read_block),
        Ok(IndexedWithPostBase(1))
    );
    assert_eq!(
        IndexedWithPostBase::decode(&mut read_block),
        Ok(IndexedWithPostBase(2))
    );
    assert_eq!(read_block.remaining(), 0);
}

#[test]
fn decoder_block_ack() {
    let mut table = build_table();

    let field = line("foo", "bar");
    check_encode_field_table(
        &mut table,
        &[],
        &[field.clone(), field.with_value(b"quxx")],
        2,
        &|_, _| {},
    );

    let mut buf = vec![];
    let mut encoder = Encoder::from_table(table);

    HeaderAck(2).encode(&mut buf);
    let mut cur = Reader::new(&buf);
    assert_eq!(
        Action::parse(&mut cur),
        Ok(Some(Action::Untrack(StreamId(2))))
    );

    let mut cur = Reader::new(&buf);
    assert_eq!(encoder.on_decoder_recv(&mut cur), Ok(()),);

    let mut cur = Reader::new(&buf);
    assert_eq!(
        encoder.on_decoder_recv(&mut cur),
        Err(EncoderError::Insertion(DynamicTableError::UnknownStreamId(
            2
        )))
    );
}

#[test]
fn section_acknowledgment_advances_known_received_count() {
    let mut table = build_table();
    table.set_max_blocked(1).unwrap();
    let mut encoder = Encoder::from_table(table);

    assert_eq!(
        encoder.encode(
            2,
            &mut Vec::new(),
            &mut Vec::new(),
            &[line("first", "value")],
        ),
        Ok(1)
    );
    assert_eq!(
        encoder.encode(
            4,
            &mut Vec::new(),
            &mut Vec::new(),
            &[line("blocked", "value")],
        ),
        Ok(0)
    );

    let mut acknowledgment = Vec::new();
    HeaderAck(2).encode(&mut acknowledgment);
    encoder
        .on_decoder_recv(&mut Reader::new(&acknowledgment))
        .unwrap();

    // The acknowledgment proves that insertion 1 arrived and releases the
    // only blocked-stream slot for a new dynamic field section.
    // https://www.rfc-editor.org/rfc/rfc9204.html#section-2.1.4
    assert_eq!(
        encoder.encode(
            6,
            &mut Vec::new(),
            &mut Vec::new(),
            &[line("second", "value")],
        ),
        Ok(2)
    );
}

#[test]
fn section_acknowledgment_skips_static_field_sections() {
    let mut encoder = Encoder::from_table(build_table());

    assert_eq!(
        encoder.encode(
            2,
            &mut Vec::new(),
            &mut Vec::new(),
            &[line(":method", "GET")],
        ),
        Ok(0)
    );
    assert_eq!(
        encoder.encode(
            2,
            &mut Vec::new(),
            &mut Vec::new(),
            &[line("dynamic", "value")],
        ),
        Ok(1)
    );

    let mut acknowledgment = Vec::new();
    HeaderAck(2).encode(&mut acknowledgment);
    assert_eq!(
        encoder.on_decoder_recv(&mut Reader::new(&acknowledgment)),
        Ok(())
    );
    assert_eq!(
        encoder.on_decoder_recv(&mut Reader::new(&acknowledgment)),
        Err(EncoderError::Insertion(DynamicTableError::UnknownStreamId(
            2
        )))
    );
}

#[test]
fn decoder_stream_cancellation_releases_all_field_sections() {
    let mut table = build_table();
    table.set_max_blocked(1).unwrap();
    let mut encoder = Encoder::from_table(table);

    for index in 1..=3 {
        assert_eq!(
            encoder.encode(
                2,
                &mut Vec::new(),
                &mut Vec::new(),
                &[line(format!("field{index}"), "value")],
            ),
            Ok(index)
        );
    }

    let mut instruction = Vec::new();
    StreamCancel(2).encode(&mut instruction);
    let mut cur = Reader::new(&instruction);
    assert_eq!(
        Action::parse(&mut cur),
        Ok(Some(Action::StreamCancel(StreamId(2))))
    );

    encoder
        .on_decoder_recv(&mut Reader::new(&instruction))
        .unwrap();
    assert_eq!(
        encoder.encode(
            4,
            &mut Vec::new(),
            &mut Vec::new(),
            &[line("replacement", "value")],
        ),
        Ok(4)
    );
}

#[test]
fn decoder_accept_truncated() {
    let mut buf = vec![];
    StreamCancel(2321).encode(&mut buf);

    let mut cur = Reader::new(&buf[..2]); // trucated prefix_int
    assert_eq!(Action::parse(&mut cur), Ok(None));

    let mut cur = Reader::new(&buf);
    assert_eq!(
        Action::parse(&mut cur),
        Ok(Some(Action::StreamCancel(StreamId(2321))))
    );
}

#[test]
fn decoder_instruction_can_span_receive_chunks() {
    let mut encoded = vec![];
    StreamCancel(2321).encode(&mut encoded);

    let mut received = BufList::new();
    received.push(encoded[..1].to_vec());
    let mut encoder = Encoder::default();

    {
        let bytes = joined(&received);
    let mut cursor = Reader::new(&bytes);
        assert_eq!(encoder.on_decoder_recv(&mut cursor), Ok(()));
        assert_eq!(cursor.remaining(), bytes.len());
    }

    received.push(encoded[1..].to_vec());
    let bytes = joined(&received);
    let mut cursor = Reader::new(&bytes);
    assert_eq!(encoder.on_decoder_recv(&mut cursor), Ok(()));
    assert_eq!(bytes.len() - cursor.remaining(), encoded.len());
}

#[test]
fn decoder_instruction_stream_id_uses_quic_varint_range() {
    let max_stream_id = MAX_VARINT;

    let mut acknowledgment = Vec::new();
    HeaderAck(max_stream_id).encode(&mut acknowledgment);
    assert_eq!(
        Action::parse(&mut Reader::new(&acknowledgment)),
        Ok(Some(Action::Untrack(StreamId(max_stream_id))))
    );

    let mut cancellation = Vec::new();
    StreamCancel(max_stream_id).encode(&mut cancellation);
    assert_eq!(
        Action::parse(&mut Reader::new(&cancellation)),
        Ok(Some(Action::StreamCancel(StreamId(max_stream_id))))
    );

    for encoded in [
        {
            let mut encoded = Vec::new();
            HeaderAck(max_stream_id + 1).encode(&mut encoded);
            encoded
        },
        {
            let mut encoded = Vec::new();
            StreamCancel(max_stream_id + 1).encode(&mut encoded);
            encoded
        },
    ] {
        let mut cursor = Reader::new(&encoded);
        assert_eq!(
            Action::parse(&mut cursor),
            Err(EncoderError::InvalidStreamId(max_stream_id + 1))
        );
        assert_eq!(cursor.remaining(), encoded.len());
    }

    let mut encoded = Vec::new();
    StreamCancel(max_stream_id + 1).encode(&mut encoded);
    let mut received = BufList::new();
    received.push(encoded);
    let bytes = joined(&received);
    let mut cursor = Reader::new(&bytes);
    assert_eq!(
        Encoder::default().on_decoder_recv(&mut cursor),
        Err(EncoderError::InvalidStreamId(max_stream_id + 1))
    );
    assert_eq!(cursor.remaining(), bytes.len());
}

#[test]
fn decoder_unknown_stream() {
    let mut table = build_table();

    check_encode_field_table(
        &mut table,
        &[],
        &[line("foo", "bar")],
        2,
        &|_, _| {},
    );
    let mut encoder = Encoder::from_table(table);

    let mut buf = vec![];
    HeaderAck(4).encode(&mut buf);

    let mut cur = Reader::new(&buf);
    assert_eq!(
        encoder.on_decoder_recv(&mut cur),
        Err(EncoderError::Insertion(DynamicTableError::UnknownStreamId(
            4
        )))
    );
}

#[test]
fn insert_count() {
    let mut buf = vec![];
    InsertCountIncrement(4).encode(&mut buf);

    let mut cur = Reader::new(&buf);
    assert_eq!(
        Action::parse(&mut cur),
        Ok(Some(Action::ReceivedRefIncrement(4)))
    );

    let mut encoder = Encoder::from_table(build_table_with_size(4));

    let mut cur = Reader::new(&buf);
    assert_eq!(encoder.on_decoder_recv(&mut cur), Ok(()));
}

#[test]
fn invalid_insert_count_increments_are_rejected() {
    // Zero and counts beyond the insertions sent by the encoder are
    // QPACK_DECODER_STREAM_ERROR conditions.
    // https://www.rfc-editor.org/rfc/rfc9204.html#section-4.4.3
    for increment in [0, 2] {
        let mut buf = vec![];
        InsertCountIncrement(increment).encode(&mut buf);
        let mut encoder = Encoder::from_table(build_table_with_size(1));

        assert_eq!(
            encoder.on_decoder_recv(&mut Reader::new(&buf)),
            Err(EncoderError::Insertion(
                DynamicTableError::InvalidInsertCountIncrement
            ))
        );
    }
}

#[test]
fn lines_without_a_dynamic_entry_require_no_insertion() {
    let mut table = build_table();
    table.set_max_size(TABLE_SIZE).unwrap();
    let mut section = table.encoder(1);
    let (mut block, mut stream) = (vec![], vec![]);
    let fields = [
        line(":method", "GET"),
        line(":method", "GET").with_sensitive(true),
        line("x-private", "value").with_sensitive(true),
    ];
    for field in &fields {
        assert_eq!(
            Encoder::encode_field(&mut section, &mut block, &mut stream, field),
            Ok(None)
        );
    }
    assert_eq!(
        Encoder::encode_sensitive_field(&mut section, &mut block, &fields[2]),
        Ok(None)
    );
    assert_eq!(
        Encoder::encode_field(&mut section, &mut block, &mut stream, &line("x-new", "value")),
        Ok(Some(1))
    );
    assert_eq!(
        Encoder::encode_sensitive_field(
            &mut section,
            &mut block,
            &line("x-new", "other").with_sensitive(true)
        ),
        Ok(Some(1))
    );
}
