use http3::buf::Reader;
use http3::qpack::block::{
    HeaderPrefix, Indexed, IndexedWithPostBase, Literal, LiteralWithNameRef,
    LiteralWithPostBaseNameRef,
};
use http3::qpack::decoder::{decode_stateless, decode_stateless_limited};
use http3::qpack::dynamic::{DynamicTable, Error as TableError};
use http3::qpack::encoder::set_dynamic_table_size;
use http3::qpack::prefix_int;
use http3::qpack::prefix_string::{self, HpackStringDecode, HpackStringEncode};
use http3::qpack::shared::{access_step, Access, AccessStep, QpackEncoder};
use http3::qpack::stream::{
    Duplicate, DynamicTableSizeUpdate, HeaderAck, InsertCountIncrement, InsertWithNameRef,
    InsertWithoutNameRef, StreamCancel,
};
use http3::qpack::vas::VirtualAddressSpace;
use http3::qpack::{
    ack_header, encode_stateless, stream_canceled, Decoder, DecoderError, Encoder, EncoderError,
    HeaderField,
};
use http3::quic::StreamId;

fn line<N: AsRef<[u8]>, V: AsRef<[u8]>>(name: N, value: V) -> HeaderField {
    HeaderField::new(name.as_ref(), value.as_ref())
}

/// An encoder and a decoder with tables of this capacity, and the first instructions.
fn pair(capacity: usize, blocked: u64) -> (Encoder, Decoder) {
    let mut table = DynamicTable::new();
    table.set_max_blocked(blocked).unwrap();
    let mut instructions = vec![];
    set_dynamic_table_size(&mut table, &mut instructions, capacity).unwrap();
    let mut decoder = Decoder::new(capacity as u64, blocked).unwrap();
    decoder
        .on_encoder_recv(&mut Reader::new(&instructions), &mut vec![])
        .unwrap();
    (Encoder::from_table(table), decoder)
}

#[test]
fn prefixed_integers_round_trip() {
    for size in 1..=8u8 {
        for value in [0, 1, 30, 31, 126, 127, 128, 1337, u64::from(u32::MAX), u64::MAX - 300] {
            let mut buf = vec![];
            prefix_int::encode(size, 0, value, &mut buf);
            buf.push(0xaa);
            let mut read = Reader::new(&buf);
            assert_eq!(prefix_int::decode(size, &mut read), Ok((0, value)));
            assert_eq!(read.chunk(), [0xaa]);
        }
    }
}

#[test]
fn prefixed_integers_of_the_hpack_examples() {
    // 10 and 1337 with a five bit prefix, 42 at an octet boundary.
    // https://www.rfc-editor.org/rfc/rfc7541.html#appendix-C.1
    let mut buf = vec![];
    prefix_int::encode(5, 0, 10, &mut buf);
    prefix_int::encode(5, 0, 1337, &mut buf);
    prefix_int::encode(8, 0, 42, &mut buf);
    assert_eq!(buf, [0b0000_1010, 0b0001_1111, 0b1001_1010, 0b0000_1010, 0b0010_1010]);
    let mut read = Reader::new(&[0b1011_1111, 0b1001_1010, 0b0000_1010]);
    assert_eq!(prefix_int::decode(5, &mut read), Ok((0b101, 1337)));
}

#[test]
fn prefixed_integers_end_and_overflow() {
    assert_eq!(
        prefix_int::decode(5, &mut Reader::new(&[])),
        Err(prefix_int::Error::UnexpectedEnd)
    );
    assert_eq!(
        prefix_int::decode(5, &mut Reader::new(&[0b0001_1111, 0x80])),
        Err(prefix_int::Error::UnexpectedEnd)
    );
    assert_eq!(
        prefix_int::decode(8, &mut Reader::new(&[0xff; 12])),
        Err(prefix_int::Error::Overflow)
    );
}

#[test]
fn strings_round_trip_and_keep_what_follows() {
    for value in [&b""[..], b"a", b"custom-key", &[0, 255, 10, 13]] {
        let mut buf = vec![];
        prefix_string::encode(6, 0b01, value, &mut buf).unwrap();
        buf.extend_from_slice(b"rest");
        let mut read = Reader::new(&buf);
        assert_eq!(prefix_string::decode(6, &mut read).unwrap(), value);
        assert_eq!(read.chunk(), b"rest");
        assert_eq!(
            value.hpack_encode().unwrap().hpack_decode().collect(),
            Ok(value.to_vec())
        );
    }
}

#[test]
fn string_errors_are_told_apart() {
    // A Huffman coded string with an end-of-string symbol.
    let bytes = [0x84, 0xff, 0xff, 0xff, 0xff];
    assert!(matches!(
        prefix_string::decode(8, &mut Reader::new(&bytes)),
        Err(prefix_string::Error::HuffmanDecoding(_))
    ));
    assert!(matches!(
        prefix_string::decode(8, &mut Reader::new(&[0xff; 12])),
        Err(prefix_string::Error::Integer(prefix_int::Error::Overflow))
    ));
}

#[test]
fn indexes_of_one_insertion_agree() {
    let mut vas = VirtualAddressSpace::default();
    for _ in 0..7 {
        vas.add();
    }
    vas.drop();
    vas.drop();
    // Insertion 4 is the second that is retained.
    assert_eq!(vas.relative(3), Ok(1));
    assert_eq!(vas.relative_base(6, 2), Ok(1));
    assert_eq!(vas.post_base(2, 1), Ok(1));
    assert_eq!(vas.index(1), Ok(4));
    // Nothing is retained: no base is too large.
    assert!(VirtualAddressSpace::default().post_base(usize::MAX, 1).is_err());
}

#[test]
fn field_lines_round_trip() {
    let mut buf = vec![];
    Indexed::Static(98).encode(&mut buf);
    Indexed::Dynamic(4000).encode(&mut buf);
    IndexedWithPostBase(20).encode(&mut buf);
    let by_name = LiteralWithNameRef::new_dynamic(70, b"v").with_never_indexed();
    by_name.encode(&mut buf).unwrap();
    let post_base = LiteralWithPostBaseNameRef::new(9, b"w").with_never_indexed();
    post_base.encode(&mut buf).unwrap();
    let literal = Literal::new(b"n", b"").with_never_indexed();
    literal.encode(&mut buf).unwrap();

    let mut read = Reader::new(&buf);
    assert_eq!(Indexed::decode(&mut read), Ok(Indexed::Static(98)));
    assert_eq!(Indexed::decode(&mut read), Ok(Indexed::Dynamic(4000)));
    assert_eq!(IndexedWithPostBase::decode(&mut read), Ok(IndexedWithPostBase(20)));
    assert_eq!(LiteralWithNameRef::decode(&mut read), Ok(by_name));
    assert_eq!(LiteralWithPostBaseNameRef::decode(&mut read), Ok(post_base));
    assert_eq!(Literal::decode(&mut read), Ok(literal));
    assert!(!read.has_remaining());
}

#[test]
fn instructions_round_trip() {
    let mut buf = vec![];
    Duplicate(300).encode(&mut buf);
    DynamicTableSizeUpdate(4096).encode(&mut buf);
    let by_name = InsertWithNameRef::new_static(12, b"/here");
    by_name.encode(&mut buf).unwrap();
    let insert = InsertWithoutNameRef::new(b"name", b"value");
    insert.encode(&mut buf).unwrap();
    let mut read = Reader::new(&buf);
    assert_eq!(Duplicate::decode(&mut read), Ok(Some(Duplicate(300))));
    assert_eq!(
        DynamicTableSizeUpdate::decode(&mut read),
        Ok(Some(DynamicTableSizeUpdate(4096)))
    );
    assert_eq!(InsertWithNameRef::decode(&mut read), Ok(Some(by_name)));
    assert_eq!(InsertWithoutNameRef::decode(&mut read), Ok(Some(insert)));
    assert_eq!(Duplicate::decode(&mut read), Ok(None));

    let mut buf = vec![];
    InsertCountIncrement(63).encode(&mut buf);
    ack_header(129, &mut buf);
    stream_canceled(64, &mut buf);
    let mut read = Reader::new(&buf);
    assert_eq!(
        InsertCountIncrement::decode(&mut read),
        Ok(Some(InsertCountIncrement(63)))
    );
    assert_eq!(HeaderAck::decode(&mut read), Ok(Some(HeaderAck(129))));
    assert_eq!(StreamCancel::decode(&mut read), Ok(Some(StreamCancel(64))));
    assert!(!read.has_remaining());
}

#[test]
fn sections_round_trip_without_the_dynamic_table() {
    let fields = [
        line(":method", "GET"),
        line(":path", "/some/where"),
        line("x-new", "value").with_sensitive(true),
        line("x-empty", ""),
    ];
    let mut block = vec![];
    let size = encode_stateless(&mut block, &fields).unwrap();
    assert_eq!(size, 42 + 48 + 42 + 39);

    let decoded = decode_stateless(&mut Reader::new(&block), size).unwrap();
    assert_eq!(decoded.fields, fields);
    assert_eq!(decoded.mem_size, size);
    assert!(!decoded.dyn_ref);
    assert!(decoded.fields[2].is_sensitive());
    assert_eq!(
        decode_stateless(&mut Reader::new(&block), size - 1),
        Err(DecoderError::HeaderTooLong(size))
    );
    assert!(matches!(
        decode_stateless_limited(&mut Reader::new(&block), size, 2),
        Err(DecoderError::InvalidString(
            prefix_string::Error::EncodedStringTooLong { limit: 2, .. }
        ))
    ));
}

#[test]
fn sections_round_trip_through_the_tables() {
    let (mut encoder, mut decoder) = pair(256, 4);
    for round in 0..20u64 {
        let fields = [
            line(":status", "200"),
            line("x-round", format!("{}", round % 3)),
            line("x-kept", "kept"),
            line("location", format!("/{round}")),
        ];
        let mut block = vec![];
        let mut instructions = vec![];
        let required = encoder
            .encode(4 * round, &mut block, &mut instructions, &fields)
            .unwrap();
        let mut answer = vec![];
        decoder
            .on_encoder_recv(&mut Reader::new(&instructions), &mut answer)
            .unwrap();
        let decoded = decoder.decode_header(&mut Reader::new(&block)).unwrap();
        assert_eq!(decoded.fields, fields);
        assert_eq!(decoded.dyn_ref, required > 0);
        if decoded.dyn_ref {
            ack_header(4 * round, &mut answer);
        }
        encoder
            .on_decoder_recv(&mut Reader::new(&answer))
            .unwrap();
        assert!(encoder.has_acknowledged_all_insertions());
        assert_eq!(encoder.table.fields, decoder.table.fields);
    }
}

#[test]
fn encoder_streams_can_arrive_in_pieces() {
    let mut stream = vec![];
    DynamicTableSizeUpdate(200).encode(&mut stream);
    InsertWithoutNameRef::new(b"name", b"value")
        .encode(&mut stream)
        .unwrap();
    InsertWithNameRef::new_static(1, b"/path")
        .encode(&mut stream)
        .unwrap();
    Duplicate(1).encode(&mut stream);

    let mut whole = Decoder::new(200, 0).unwrap();
    assert_eq!(
        whole.on_encoder_recv(&mut Reader::new(&stream), &mut vec![]),
        Ok(3)
    );
    for split in 0..stream.len() {
        let mut decoder = Decoder::new(200, 0).unwrap();
        let mut first = Reader::new(&stream[..split]);
        decoder.on_encoder_recv(&mut first, &mut vec![]).unwrap();
        let left = split - first.remaining();
        assert_eq!(
            decoder.on_encoder_recv(&mut Reader::new(&stream[left..]), &mut vec![]),
            Ok(3)
        );
        assert_eq!(decoder.table.fields, whole.table.fields);
    }
}

#[test]
fn decoder_streams_can_arrive_in_pieces() {
    let mut stream = vec![];
    InsertCountIncrement(2).encode(&mut stream);
    StreamCancel(10_000).encode(&mut stream);
    HeaderAck(400).encode(&mut stream);
    for split in 0..stream.len() {
        let (mut encoder, _) = pair(200, 1);
        let fields = [line("a", "b"), line("c", "d")];
        encoder.encode(400, &mut vec![], &mut vec![], &fields).unwrap();
        let mut first = Reader::new(&stream[..split]);
        encoder.on_decoder_recv(&mut first).unwrap();
        let left = split - first.remaining();
        let mut second = Reader::new(&stream[left..]);
        assert_eq!(encoder.on_decoder_recv(&mut second), Ok(()));
        assert!(!second.has_remaining());
        assert!(encoder.table.track_map.is_empty());
        assert!(encoder.has_acknowledged_all_insertions());
    }
}

#[test]
fn references_are_counted_until_they_are_settled() {
    let (mut encoder, _) = pair(4096, 8);
    for id in [0, 4, 0, 8] {
        encoder
            .encode(id, &mut vec![], &mut vec![], &[line("a", "b"), line("c", "d")])
            .unwrap();
    }
    // The first section inserted both and refers to each once; each of the others refers to
    // each once more.
    assert_eq!(encoder.table.track_map.get(&1), Some(&4));
    let mut answer = vec![];
    HeaderAck(0).encode(&mut answer);
    StreamCancel(4).encode(&mut answer);
    HeaderAck(8).encode(&mut answer);
    HeaderAck(0).encode(&mut answer);
    assert_eq!(encoder.on_decoder_recv(&mut Reader::new(&answer)), Ok(()));
    assert!(encoder.table.track_map.is_empty());
    assert!(encoder.table.track_blocks.is_empty());
    // There is nothing left to acknowledge.
    let mut answer = vec![];
    HeaderAck(8).encode(&mut answer);
    assert_eq!(
        encoder.on_decoder_recv(&mut Reader::new(&answer)),
        Err(EncoderError::Insertion(TableError::UnknownStreamId(8)))
    );
}

#[test]
fn blocked_streams_keep_to_the_limit() {
    let (mut encoder, _) = pair(4096, 2);
    for id in 0..5u64 {
        let required = encoder
            .encode(
                4 * id,
                &mut vec![],
                &mut vec![],
                &[line(format!("name{id}"), "value")],
            )
            .unwrap();
        assert_eq!(required > 0, id < 2);
        assert!(encoder.table.blocked_streams.len() <= 2);
        assert_eq!(encoder.field_section_is_blocked(required), id < 2);
    }
}

#[test]
fn referenced_entries_stay_in_the_table() {
    // Room for two entries.
    let (mut encoder, _) = pair(70, 4);
    encoder.encode(0, &mut vec![], &mut vec![], &[line("a", "1")]).unwrap();
    encoder.encode(4, &mut vec![], &mut vec![], &[line("b", "2")]).unwrap();
    let required = encoder
        .encode(8, &mut vec![], &mut vec![], &[line("c", "3")])
        .unwrap();
    assert_eq!(required, 0);
    assert_eq!(encoder.table.fields, [line("a", "1"), line("b", "2")]);
    let mut answer = vec![];
    HeaderAck(0).encode(&mut answer);
    encoder.on_decoder_recv(&mut Reader::new(&answer)).unwrap();
    encoder.encode(8, &mut vec![], &mut vec![], &[line("c", "3")]).unwrap();
    assert_eq!(encoder.table.fields, [line("b", "2"), line("c", "3")]);
}

#[test]
fn unreferenced_tables_shrink_to_any_capacity() {
    for capacity in 0..140 {
        let mut table = DynamicTable::new();
        table.set_max_size(140).unwrap();
        for name in ["a", "b", "c", "d"] {
            table.put(line(name, "1")).unwrap();
        }
        table.set_max_size(capacity).unwrap();
        assert_eq!(table.fields.len(), capacity / 34);
        assert!(table.curr_size <= capacity);
    }
}

#[test]
fn sections_that_are_sent_never_wait() {
    let mut encoder = QpackEncoder::default();
    encoder.configure(256, 256).unwrap();
    encoder.take_pending_instructions();
    let mut decoder = Decoder::new(256, 0).unwrap();
    let mut update = vec![];
    DynamicTableSizeUpdate(256).encode(&mut update);
    decoder
        .on_encoder_recv(&mut Reader::new(&update), &mut vec![])
        .unwrap();
    for round in 0..10 {
        let mut block = vec![];
        let queued = encoder
            .encode(StreamId(4 * round), &mut block, &[line("name", "value")])
            .unwrap();
        assert_eq!(queued, round == 0);
        // Not even the instructions have arrived: the section is decodable all the same.
        let decoded = decoder.decode_header(&mut Reader::new(&block)).unwrap();
        assert_eq!(decoded.fields, [line("name", "value")]);
        let mut answer = vec![];
        decoder
            .on_encoder_recv(
                &mut Reader::new(&encoder.take_pending_instructions()),
                &mut answer,
            )
            .unwrap();
        if decoded.dyn_ref {
            ack_header(4 * round, &mut answer);
        }
        encoder.on_decoder_recv(&mut Reader::new(&answer)).unwrap();
    }
}

#[test]
fn decoder_errors_are_told_apart() {
    let decoder = Decoder::new(256, 0).unwrap();
    let section = |bytes: &[u8]| decoder.decode_header(&mut Reader::new(bytes)).unwrap_err();
    // No prefix, a required insert count out of range, and a base below zero.
    assert!(matches!(section(&[]), DecoderError::InvalidInteger(_)));
    assert_eq!(section(&[200, 0]), DecoderError::InvalidRequiredInsertCount(200));
    assert!(matches!(section(&[0, 0x80]), DecoderError::BadBaseIndex { .. }));
    // A static index that there is none of, and a string that is cut short.
    assert_eq!(section(&[0, 0, 0xff, 36]), DecoderError::InvalidStaticIndex(99));
    assert!(matches!(section(&[0, 0, 0xff]), DecoderError::InvalidInteger(_)));
    assert!(matches!(section(&[0, 0, 0x21]), DecoderError::InvalidString(_)));
    assert!(DecoderError::Internal("here").is_internal());
    assert!(!section(&[]).is_internal());
}

#[test]
fn table_errors_are_told_apart() {
    let mut table = DynamicTable::new();
    table.set_max_size(64).unwrap();
    assert_eq!(table.get_relative(0), Err(TableError::BadRelativeIndex(0)));
    assert_eq!(
        table.decoder(0, 0).get_postbase(3),
        Err(TableError::BadPostbaseIndex(3))
    );
    assert_eq!(
        table.put(line("name", "a value that takes more than there is room")),
        Err(TableError::MaxTableSizeReached)
    );
    assert_eq!(
        table.update_largest_received(1),
        Err(TableError::InvalidInsertCountIncrement)
    );
    let prefix = HeaderPrefix::new(0, 0, 0, 64);
    assert_eq!(prefix.get(0, 64), Ok((0, 0)));
}

#[test]
fn access_to_the_decoder_is_tried_twice() {
    assert_eq!(access_step(Access::Granted, false), AccessStep::Proceed);
    assert_eq!(
        access_step(Access::WouldBlock, false),
        AccessStep::RegisterAndRetry
    );
    assert_eq!(access_step(Access::WouldBlock, true), AccessStep::Wait);
    assert!(matches!(
        access_step(Access::Poisoned, true),
        AccessStep::Fail(DecoderError::Internal(_))
    ));
}

#[test]
fn sections_that_are_given_up_leave_no_reference() {
    let mut table = DynamicTable::new();
    table.set_max_size(4096).unwrap();
    table.set_max_blocked(4).unwrap();
    table.put(line("a", "1")).unwrap();
    table.track_ref(1);
    let mut encoder = table.encoder(4);
    encoder.find(&line("a", "1"));
    encoder.find_name(b"a");
    encoder.insert(&line("a", "2")).unwrap();
    encoder.insert(&line("b", "3")).unwrap();
    assert_eq!(encoder.table.track_map.get(&1), Some(&4));
    encoder.close();
    assert_eq!(table.track_map.get(&1), Some(&1));
    assert_eq!(table.track_map.len(), 1);
    assert!(table.track_blocks.is_empty());
    assert_eq!(table.fields, [line("a", "1"), line("a", "2"), line("b", "3")]);
    assert_eq!(table.total_inserted(), 3);
}

#[test]
fn no_run_blocks_more_streams_than_permitted() {
    let mut table = DynamicTable::new();
    table.set_max_size(4096).unwrap();
    table.set_max_blocked(2).unwrap();
    for round in 0..40u64 {
        let id = 4 * (round % 5);
        let mut encoder = table.encoder(id);
        let inserted = encoder.insert(&line(format!("n{round}"), "v")).unwrap();
        let largest = encoder.block_refs.keys().next_back().copied().unwrap_or(0);
        if round % 7 == 3 {
            encoder.close();
        } else {
            encoder.commit(largest);
            encoder.close();
        }
        assert!(table.blocked_streams.len() <= 2, "{round}: {inserted:?}");
        match round % 6 {
            1 => {
                let _ = table.acknowledge_section(id);
            }
            3 => table.cancel_stream(id).unwrap(),
            5 => {
                let _ = table.update_largest_received(1);
            }
            _ => {}
        }
        assert!(table.blocked_streams.len() <= 2);
    }
}

#[test]
fn full_tables_without_capacity_take_nothing() {
    // An entry that is referred to stays, although there is no capacity left.
    let mut table = DynamicTable::new();
    table.set_max_size(64).unwrap();
    table.put(line("a", "1")).unwrap();
    table.track_ref(1);
    table.set_max_size(0).unwrap();
    assert_eq!(table.fields.len(), 1);
    assert_eq!(table.insert(line("b", "2")), Ok(None));
    assert_eq!(table.put(line("b", "2")), Ok(()));
    assert_eq!(table.put_decoder(line("b", "2")), Err(TableError::MaxTableSizeReached));
    assert_eq!(table.fields, [line("a", "1")]);
}
