use http3::buf::Reader;
use http3::buf_list::BufList;
use http3::proto::headers::Header;
use http3::qpack::block::{
    HeaderPrefix, Indexed, IndexedWithPostBase, Literal, LiteralWithNameRef,
    LiteralWithPostBaseNameRef,
};
use http3::qpack::decoder::decode_stateless;
use http3::qpack::dynamic::{DynamicTable, Error as DynamicTableError};
use http3::qpack::static_::StaticTable;
use http3::qpack::stream::{
    Duplicate, DynamicTableSizeUpdate, InsertCountIncrement, InsertWithNameRef,
    InsertWithoutNameRef,
};
use http3::qpack::{encode_stateless, Decoded, Decoder, DecoderError, HeaderField};
use http3::quic::MAX_VARINT;

const TABLE_SIZE: usize = 4096;

fn joined(list: &BufList) -> Vec<u8> {
    let mut bytes = vec![];
    list.copy_all(&mut bytes);
    bytes
}

fn build_table() -> DynamicTable {
    let mut table = DynamicTable::new();
    table.set_max_size(TABLE_SIZE).unwrap();
    table.set_max_blocked(100).unwrap();
    table
}

fn build_table_with_size(n_field: usize) -> DynamicTable {
    let mut table = build_table();
    for i in 0..n_field {
        table.put(line(format!("foo{}", i + 1), "bar")).unwrap();
    }
    table
}

fn line<N: AsRef<[u8]>, V: AsRef<[u8]>>(name: N, value: V) -> HeaderField {
    HeaderField::new(name.as_ref(), value.as_ref())
}

#[test]
fn test_header_too_long() {
    let mut trailers = http::HeaderMap::new();
    trailers.insert("trailer", "value".parse().unwrap());
    trailers.insert("trailer2", "value2".parse().unwrap());
    let mut buf = Vec::new();
    let _ = encode_stateless(&mut buf, &Header::trailer(trailers).iter_ref());
    let result = decode_stateless(&mut Reader::new(&buf), 2);
    assert_eq!(result, Err(DecoderError::HeaderTooLong(44)));
}

#[test]
fn dynamic_table_capacity_starts_at_zero() {
    let decoder = Decoder::new(128, 0).unwrap();

    assert!(decoder.dynamic_table_enabled());
    assert_eq!(decoder.table.max_mem_size(), 0);
}

#[test]
fn decoder_blocked_stream_limit_accepts_full_settings_range() {
    let max = MAX_VARINT;
    let decoder = Decoder::new(0, max).unwrap();

    assert_eq!(decoder.max_blocked_streams(), max);
}

#[test]
fn insert_before_capacity_update_is_rejected() {
    let mut encoder_stream = Vec::new();
    InsertWithoutNameRef::new(b"key", b"value")
        .encode(&mut encoder_stream)
        .unwrap();
    let mut decoder = Decoder::new(128, 0).unwrap();

    assert_eq!(
        decoder.on_encoder_recv(&mut Reader::new(&encoder_stream), &mut Vec::new()),
        Err(DecoderError::DynamicTable(
            DynamicTableError::MaxTableSizeReached
        ))
    );
}

#[test]
fn capacity_update_cannot_exceed_advertised_maximum() {
    let mut encoder_stream = Vec::new();
    DynamicTableSizeUpdate(129).encode(&mut encoder_stream);
    let mut decoder = Decoder::new(128, 0).unwrap();

    assert_eq!(
        decoder.on_encoder_recv(&mut Reader::new(&encoder_stream), &mut Vec::new()),
        Err(DecoderError::DynamicTable(
            DynamicTableError::MaximumTableSizeTooLarge
        ))
    );
}

#[test]
fn zero_capacity_update_is_tolerated_when_advertised_maximum_is_zero() {
    let mut encoder_stream = Vec::new();
    DynamicTableSizeUpdate(0).encode(&mut encoder_stream);
    let mut decoder = Decoder::new(0, 0).unwrap();
    let mut decoder_stream = Vec::new();

    // Section 3.2.3 says an encoder must send no instructions when the
    // advertised maximum is zero. A zero-capacity update is valid syntax and
    // leaves the table at zero, so the decoder accepts it for interoperability.
    // https://www.rfc-editor.org/rfc/rfc9204.html#section-3.2.3
    // https://www.rfc-editor.org/rfc/rfc9204.html#section-4.3.1
    assert_eq!(
        decoder.on_encoder_recv(&mut Reader::new(&encoder_stream), &mut decoder_stream),
        Ok(0)
    );
    assert_eq!(decoder.table.max_mem_size(), 0);
    assert!(decoder_stream.is_empty());
}

#[test]
fn encoder_instruction_can_span_receive_chunks() {
    let mut encoder_stream = Vec::new();
    DynamicTableSizeUpdate(128).encode(&mut encoder_stream);
    InsertWithoutNameRef::new(b"key", b"value")
        .encode(&mut encoder_stream)
        .unwrap();
    let encoded_len = encoder_stream.len();

    let mut fragments = BufList::new();
    for byte in encoder_stream {
        fragments.push(vec![byte]);
    }

    let bytes = joined(&fragments);
    let mut read = Reader::new(&bytes);
    let mut decoder = Decoder::new(128, 0).unwrap();
    let mut decoder_stream = Vec::new();

    assert_eq!(
        decoder.on_encoder_recv(&mut read, &mut decoder_stream),
        Ok(1)
    );
    assert_eq!(bytes.len() - read.remaining(), encoded_len);
    assert_eq!(
        InsertCountIncrement::decode(&mut Reader::new(&decoder_stream)),
        Ok(Some(InsertCountIncrement(1)))
    );
}

#[test]
fn incomplete_fragment_is_preserved_for_the_next_read() {
    let mut capacity_update = Vec::new();
    DynamicTableSizeUpdate(128).encode(&mut capacity_update);
    let capacity_update_len = capacity_update.len();

    let mut insertion = Vec::new();
    InsertWithoutNameRef::new(b"key", b"value")
        .encode(&mut insertion)
        .unwrap();
    let final_byte = insertion.pop().unwrap();

    let mut fragments = BufList::new();
    for byte in capacity_update.into_iter().chain(insertion) {
        fragments.push(vec![byte]);
    }

    let mut decoder = Decoder::new(128, 0).unwrap();
    let mut decoder_stream = Vec::new();
    let consumed = {
        let bytes = joined(&fragments);
        let mut read = Reader::new(&bytes);
        assert_eq!(
            decoder.on_encoder_recv(&mut read, &mut decoder_stream),
            Ok(0)
        );
        bytes.len() - read.remaining()
    };
    assert_eq!(consumed, capacity_update_len);

    // Commit only the complete capacity update, then retry the preserved
    // insertion after its final byte arrives.
    fragments.advance(consumed);
    fragments.push(vec![final_byte]);
    let remaining = fragments.remaining();
    let bytes = joined(&fragments);
    let mut read = Reader::new(&bytes);
    assert_eq!(
        decoder.on_encoder_recv(&mut read, &mut decoder_stream),
        Ok(1)
    );
    assert_eq!(bytes.len() - read.remaining(), remaining);
    assert_eq!(decoder.table.max_mem_size(), 128);
}

#[test]
fn decoder_reports_large_insert_count_increment() {
    const INSERTIONS: usize = 256;
    const ENTRY_SIZE: usize = 32;

    let mut encoder_stream = Vec::new();
    DynamicTableSizeUpdate(INSERTIONS * ENTRY_SIZE).encode(&mut encoder_stream);
    for _ in 0..INSERTIONS {
        InsertWithoutNameRef::new(b"", b"")
            .encode(&mut encoder_stream)
            .unwrap();
    }

    let mut decoder = Decoder::new((INSERTIONS * ENTRY_SIZE) as u64, 0).unwrap();
    let mut decoder_stream = Vec::new();

    assert_eq!(
        decoder.on_encoder_recv(&mut Reader::new(&encoder_stream), &mut decoder_stream),
        Ok(INSERTIONS)
    );
    let mut decoder_stream = Reader::new(&decoder_stream);
    assert_eq!(
        InsertCountIncrement::decode(&mut decoder_stream),
        Ok(Some(InsertCountIncrement(INSERTIONS)))
    );
    assert!(!decoder_stream.has_remaining());
}

#[test]
fn required_insert_count_uses_advertised_capacity() {
    let mut field_section = Vec::new();
    HeaderPrefix::new(8, 8, 10, TABLE_SIZE).encode(&mut field_section);
    let decoder = Decoder::new(TABLE_SIZE as u64, 0).unwrap();

    assert_eq!(
        decoder.decode_header(&mut Reader::new(&field_section)),
        Err(DecoderError::MissingRefs(8))
    );
}

#[test]
fn dynamic_reference_cannot_exceed_required_insert_count() {
    let mut field_section = Vec::new();
    HeaderPrefix::new(2, 4, 4, TABLE_SIZE).encode(&mut field_section);
    Indexed::Dynamic(0).encode(&mut field_section);
    let decoder = Decoder::from_table(build_table_with_size(4));

    assert_eq!(
        decoder.decode_header(&mut Reader::new(&field_section)),
        Err(DecoderError::DynamicTable(
            DynamicTableError::BadRelativeIndex(0)
        ))
    );
}

/**
 * https://www.rfc-editor.org/rfc/rfc9204.html#name-insert-with-name-reference
 * 4.3.2.  Insert With Name Reference
 */
#[test]
fn test_insert_field_with_name_ref_into_dynamic_table() {
    let mut buf = vec![];
    InsertWithNameRef::new_static(1, b"serial value")
        .encode(&mut buf)
        .unwrap();
    let mut decoder = Decoder::from_table(build_table_with_size(0));
    let mut enc = Reader::new(&buf);
    let mut dec = vec![];
    assert!(decoder.on_encoder_recv(&mut enc, &mut dec).is_ok());

    assert_eq!(
        decoder.table.decoder(1, 1).get_relative(0),
        Ok(&StaticTable::get(1).unwrap().with_value(b"serial value"))
    );

    let mut dec_cursor = Reader::new(&dec);
    assert_eq!(
        InsertCountIncrement::decode(&mut dec_cursor),
        Ok(Some(InsertCountIncrement(1)))
    );
}

/**
 * https://www.rfc-editor.org/rfc/rfc9204.html#name-insert-with-name-reference
 * 4.3.2.  Insert With Name Reference
 */
#[test]
fn test_insert_field_with_wrong_name_index_from_static_table() {
    let mut buf = vec![];
    InsertWithNameRef::new_static(3000, b"")
        .encode(&mut buf)
        .unwrap();
    let mut enc = Reader::new(&buf);
    let mut decoder = Decoder::from_table(build_table_with_size(0));
    let res = decoder.on_encoder_recv(&mut enc, &mut vec![]);
    assert_eq!(res, Err(DecoderError::InvalidStaticIndex(3000)));
}

/**
 * https://www.rfc-editor.org/rfc/rfc9204.html#name-insert-with-name-referencehtml
 * 4.3.2.  Insert With Name Reference
 */
#[test]
fn test_insert_field_with_wrong_name_index_from_dynamic_table() {
    let mut buf = vec![];
    InsertWithNameRef::new_dynamic(3000, b"")
        .encode(&mut buf)
        .unwrap();
    let mut enc = Reader::new(&buf);
    let mut dec = vec![];
    let mut decoder = Decoder::from_table(build_table_with_size(0));
    let res = decoder.on_encoder_recv(&mut enc, &mut dec);
    assert_eq!(
        res,
        Err(DecoderError::DynamicTable(
            DynamicTableError::BadRelativeIndex(3000)
        ))
    );

    assert!(dec.is_empty());
}

/**
 * https://www.rfc-editor.org/rfc/rfc9204.html#name-insert-with-literal-name
 * 4.3.3.  Insert with Literal Name
 */
#[test]
fn test_insert_field_without_name_ref() {
    let mut buf = vec![];
    InsertWithoutNameRef::new(b"key", b"value")
        .encode(&mut buf)
        .unwrap();

    let mut decoder = Decoder::from_table(build_table_with_size(0));
    let mut enc = Reader::new(&buf);
    let mut dec = vec![];
    assert!(decoder.on_encoder_recv(&mut enc, &mut dec).is_ok());

    assert_eq!(
        decoder.table.decoder(1, 1).get_relative(0),
        Ok(&line("key", "value"))
    );

    let mut dec_cursor = Reader::new(&dec);
    assert_eq!(
        InsertCountIncrement::decode(&mut dec_cursor),
        Ok(Some(InsertCountIncrement(1)))
    );
}

fn insert_fields(table: &mut DynamicTable, fields: Vec<HeaderField>) {
    for field in fields {
        table.put(field).unwrap();
    }
}

/**
 * https://www.rfc-editor.org/rfc/rfc9204.html#name-duplicate
 * 4.3.4.  Duplicate
 */
#[test]
fn test_duplicate_field() {
    // let mut table = build_table_with_size(0);
    let mut table = build_table_with_size(0);
    insert_fields(
        &mut table,
        vec![line("", ""), line("", "")],
    );
    let mut decoder = Decoder::from_table(table);

    let mut buf = vec![];
    Duplicate(1).encode(&mut buf);

    let mut enc = Reader::new(&buf);
    let mut dec = vec![];
    let res = decoder.on_encoder_recv(&mut enc, &mut dec);
    assert_eq!(res, Ok(3));

    let mut dec_cursor = Reader::new(&dec);
    assert_eq!(
        InsertCountIncrement::decode(&mut dec_cursor),
        Ok(Some(InsertCountIncrement(1)))
    );
}

/**
 * https://www.rfc-editor.org/rfc/rfc9204.html#name-set-dynamic-table-capacity
 * 4.3.1.  Set Dynamic Table Capacity
 */
#[test]
fn test_dynamic_table_size_update() {
    let mut buf = vec![];
    DynamicTableSizeUpdate(25).encode(&mut buf);

    let mut enc = Reader::new(&buf);
    let mut dec = vec![];
    let mut decoder = Decoder::from_table(build_table_with_size(0));
    let res = decoder.on_encoder_recv(&mut enc, &mut dec);
    assert_eq!(res, Ok(0));

    let actual_max_size = decoder.table.max_mem_size();
    assert_eq!(actual_max_size, 25);
    assert!(dec.is_empty());
}

#[test]
fn enc_recv_buf_too_short() {
    let decoder = Decoder::from_table(build_table_with_size(0));
    let mut buf: Vec<u8> = vec![];
    {
        let mut enc = Reader::new(&buf);
        assert_eq!(decoder.parse_instruction(&mut enc), Ok(None));
    }

    buf.push(0b1000_0000);
    let mut enc = Reader::new(&buf);
    assert_eq!(decoder.parse_instruction(&mut enc), Ok(None));
}

#[test]
fn enc_recv_accepts_truncated_messages() {
    let mut buf = vec![];
    InsertWithoutNameRef::new(b"keyfoobarbaz", b"value")
        .encode(&mut buf)
        .unwrap();

    let mut decoder = Decoder::from_table(build_table_with_size(0));
    // cut in middle of the first int
    let mut enc = Reader::new(&buf[..2]);
    let mut dec = vec![];
    assert!(decoder.on_encoder_recv(&mut enc, &mut dec).is_ok());
    assert_eq!(enc.remaining(), 2);

    // cut the last byte of the 2nd string
    let mut enc = Reader::new(&buf[..buf.len() - 1]);
    let mut dec = vec![];
    assert!(decoder.on_encoder_recv(&mut enc, &mut dec).is_ok());
    assert_eq!(enc.remaining(), buf.len() - 1);

    InsertWithoutNameRef::new(b"keyfoobarbaz2", b"value")
        .encode(&mut buf)
        .unwrap();

    // the first valid field is inserted and buf is left at the first byte of incomplete string
    let mut enc = Reader::new(&buf[..buf.len() - 1]);
    let mut dec = vec![];
    assert!(decoder.on_encoder_recv(&mut enc, &mut dec).is_ok());
    assert_eq!(buf.len() - 1 - enc.remaining(), 15);

    let mut dec_cursor = Reader::new(&dec);
    assert_eq!(
        InsertCountIncrement::decode(&mut dec_cursor),
        Ok(Some(InsertCountIncrement(1)))
    );
}

#[test]
fn largest_ref_too_big() {
    let decoder = Decoder::from_table(build_table_with_size(0));
    let mut buf = vec![];
    HeaderPrefix::new(8, 8, 10, TABLE_SIZE).encode(&mut buf);

    let mut read = Reader::new(&buf);
    assert_eq!(
        decoder.decode_header(&mut read),
        Err(DecoderError::MissingRefs(8))
    );
}

#[test]
fn static_field_section_has_no_dynamic_reference() {
    let mut buf = vec![];
    HeaderPrefix::new(0, 0, 0, TABLE_SIZE).encode(&mut buf);
    Indexed::Static(18).encode(&mut buf);

    let decoder = Decoder::from_table(build_table_with_size(0));
    let decoded = decoder.decode_header(&mut Reader::new(&buf)).unwrap();

    assert!(!decoded.dyn_ref);
}

fn field(n: usize) -> HeaderField {
    line(format!("foo{}", n), "bar")
}

// Largest Reference
//   Base Index = 2
//       |
//     foo2   foo1
//    +-----+-----+
//    |  2  |  1  |  Absolute Index
//    +-----+-----+
//    |  0  |  1  |  Relative Index
//    --+---+-----+

#[test]
fn decode_indexed_header_field() {
    let mut buf = vec![];
    HeaderPrefix::new(2, 2, 2, TABLE_SIZE).encode(&mut buf);
    Indexed::Dynamic(0).encode(&mut buf);
    Indexed::Dynamic(1).encode(&mut buf);
    Indexed::Static(18).encode(&mut buf);

    let mut read = Reader::new(&buf);
    let decoder = Decoder::from_table(build_table_with_size(2));
    let Decoded {
        fields, dyn_ref, ..
    } = decoder.decode_header(&mut read).unwrap();
    assert!(dyn_ref);
    assert_eq!(
        fields,
        [field(2), field(1), StaticTable::get(18).unwrap()]
    )
}

//      Largest Reference
//        Base Index = 2
//             |
// foo4 foo3  foo2  foo1
// +---+-----+-----+-----+
// | 4 |  3  |  2  |  1  |  Absolute Index
// +---+-----+-----+-----+
//           |  0  |  1  |  Relative Index
// +-----+-----+---+-----+
// | 1 |  0  |              Post-Base Index
// +---+-----+

#[test]
fn decode_post_base_indexed() {
    let mut buf = vec![];
    HeaderPrefix::new(4, 2, 4, TABLE_SIZE).encode(&mut buf);
    Indexed::Dynamic(0).encode(&mut buf);
    IndexedWithPostBase(0).encode(&mut buf);
    IndexedWithPostBase(1).encode(&mut buf);

    let mut read = Reader::new(&buf);
    let decoder = Decoder::from_table(build_table_with_size(4));
    let Decoded {
        fields, dyn_ref, ..
    } = decoder.decode_header(&mut read).unwrap();
    assert!(dyn_ref);
    assert_eq!(fields, [field(2), field(3), field(4)])
}

#[test]
fn decode_name_ref_header_field() {
    let mut buf = vec![];
    HeaderPrefix::new(2, 2, 4, TABLE_SIZE).encode(&mut buf);
    LiteralWithNameRef::new_dynamic(1, b"new bar1")
        .encode(&mut buf)
        .unwrap();
    LiteralWithNameRef::new_static(18, b"PUT")
        .encode(&mut buf)
        .unwrap();

    let mut read = Reader::new(&buf);
    let decoder = Decoder::from_table(build_table_with_size(4));
    let Decoded {
        fields, dyn_ref, ..
    } = decoder.decode_header(&mut read).unwrap();
    assert!(dyn_ref);
    assert_eq!(
        fields,
        [
            field(1).with_value(b"new bar1"),
            StaticTable::get(18).unwrap().with_value(b"PUT")
        ]
    )
}

#[test]
fn decode_post_base_name_ref_header_field() {
    let mut buf = vec![];
    // Base 2 and post-base index 0 refer to absolute entry 3. The Required
    // Insert Count must cover that entry.
    // https://www.rfc-editor.org/rfc/rfc9204.html#section-4.5.1.1
    // https://www.rfc-editor.org/rfc/rfc9204.html#section-4.5.5
    HeaderPrefix::new(3, 2, 4, TABLE_SIZE).encode(&mut buf);
    LiteralWithPostBaseNameRef::new(0, b"new bar3")
        .encode(&mut buf)
        .unwrap();

    let mut read = Reader::new(&buf);
    let decoder = Decoder::from_table(build_table_with_size(4));
    let Decoded { fields, .. } = decoder.decode_header(&mut read).unwrap();
    assert_eq!(fields, [field(3).with_value(b"new bar3")]);
}

#[test]
fn reject_post_base_name_ref_past_required_insert_count() {
    let mut buf = vec![];
    // Required Insert Count 2 does not cover absolute entry 3, which is
    // selected by post-base index 0 from Base 2.
    // https://www.rfc-editor.org/rfc/rfc9204.html#section-4.5.1.1
    // https://www.rfc-editor.org/rfc/rfc9204.html#section-4.5.5
    HeaderPrefix::new(2, 2, 4, TABLE_SIZE).encode(&mut buf);
    LiteralWithPostBaseNameRef::new(0, b"new bar3")
        .encode(&mut buf)
        .unwrap();

    let mut read = Reader::new(&buf);
    let decoder = Decoder::from_table(build_table_with_size(4));
    assert_eq!(
        decoder.decode_header(&mut read),
        Err(DecoderError::DynamicTable(
            DynamicTableError::BadPostbaseIndex(0)
        ))
    );
}

#[test]
fn decode_without_name_ref_header_field() {
    let mut buf = vec![];
    HeaderPrefix::new(0, 0, 0, TABLE_SIZE).encode(&mut buf);
    Literal::new(b"foo", b"bar").encode(&mut buf).unwrap();

    let mut read = Reader::new(&buf);
    let decoder = Decoder::from_table(build_table_with_size(0));
    let Decoded { fields, .. } = decoder.decode_header(&mut read).unwrap();
    assert_eq!(
        fields,
        [line(b"foo".to_vec(), b"bar".to_vec())]
    );
}

// Largest Reference = 4
//  |            Base Index = 0
//  |                |
// foo4 foo3  foo2  foo1
// +---+-----+-----+-----+
// | 4 |  3  |  2  |  1  |  Absolute Index
// +---+-----+-----+-----+
//                          Relative Index
// +---+-----+-----+-----+
// | 2 |   2 |  1  |  0  |  Post-Base Index
// +---+-----+-----+-----+

#[test]
fn decode_single_pass_encoded() {
    let mut buf = vec![];
    HeaderPrefix::new(4, 0, 4, TABLE_SIZE).encode(&mut buf);
    IndexedWithPostBase(0).encode(&mut buf);
    IndexedWithPostBase(1).encode(&mut buf);
    IndexedWithPostBase(2).encode(&mut buf);
    IndexedWithPostBase(3).encode(&mut buf);

    let mut read = Reader::new(&buf);
    let decoder = Decoder::from_table(build_table_with_size(4));
    let Decoded { fields, .. } = decoder.decode_header(&mut read).unwrap();
    assert_eq!(fields, [field(1), field(2), field(3), field(4)]);
}

#[test]
fn largest_ref_greater_than_max_entries() {
    let max_entries = TABLE_SIZE / 32;
    // some fields evicted
    let table = build_table_with_size(max_entries + 10);
    let mut buf = vec![];

    // Pre-base relative reference
    HeaderPrefix::new(
        max_entries + 5,
        max_entries + 5,
        max_entries + 10,
        TABLE_SIZE,
    )
    .encode(&mut buf);
    Indexed::Dynamic(10).encode(&mut buf);

    let mut read = Reader::new(&buf);
    let decoder = Decoder::from_table(build_table_with_size(max_entries + 10));
    let Decoded { fields, .. } = decoder.decode_header(&mut read).expect("decode");
    assert_eq!(fields, [field(max_entries - 5)]);

    let mut buf = vec![];

    // Post-base reference
    HeaderPrefix::new(
        max_entries + 10,
        max_entries + 5,
        max_entries + 10,
        TABLE_SIZE,
    )
    .encode(&mut buf);
    IndexedWithPostBase(0).encode(&mut buf);
    IndexedWithPostBase(4).encode(&mut buf);

    let mut read = Reader::new(&buf);
    let decoder = Decoder::from_table(table);
    let Decoded { fields, .. } = decoder.decode_header(&mut read).unwrap();
    assert_eq!(fields, [field(max_entries + 6), field(max_entries + 10)]);
}
