use http3::buf::Reader;
use http3::qpack::block::{
    HeaderPrefix, Indexed, IndexedWithPostBase, Literal, LiteralWithNameRef,
    LiteralWithPostBaseNameRef,
};
use http3::qpack::parse_error::ParseError;
use http3::qpack::prefix_int;

const TABLE_SIZE: usize = 4096;

#[test]
fn indexed_static() {
    let field = Indexed::Static(42);
    let mut buf = vec![];
    field.encode(&mut buf);
    let mut read = Reader::new(&buf);
    assert_eq!(Indexed::decode(&mut read), Ok(field));
}

#[test]
fn indexed_dynamic() {
    let field = Indexed::Dynamic(42);
    let mut buf = vec![];
    field.encode(&mut buf);
    let mut read = Reader::new(&buf);
    assert_eq!(Indexed::decode(&mut read), Ok(field));
}

#[test]
fn indexed_with_postbase() {
    let field = IndexedWithPostBase(42);
    let mut buf = vec![];
    field.encode(&mut buf);
    let mut read = Reader::new(&buf);
    assert_eq!(IndexedWithPostBase::decode(&mut read), Ok(field));
}

#[test]
fn literal_with_name_ref() {
    let field = LiteralWithNameRef::new_static(42, b"foo");
    let mut buf = vec![];
    field.encode(&mut buf).unwrap();
    let mut read = Reader::new(&buf);
    assert_eq!(LiteralWithNameRef::decode(&mut read), Ok(field));
}

#[test]
fn literal_with_post_base_name_ref() {
    let field = LiteralWithPostBaseNameRef::new(42, b"foo");
    let mut buf = vec![];
    field.encode(&mut buf).unwrap();
    let mut read = Reader::new(&buf);
    assert_eq!(LiteralWithPostBaseNameRef::decode(&mut read), Ok(field));
}

#[test]
fn literal() {
    let field = Literal::new(b"foo", b"bar");
    let mut buf = vec![];
    field.encode(&mut buf).unwrap();
    let mut read = Reader::new(&buf);
    assert_eq!(Literal::decode(&mut read), Ok(field));
}

#[test]
fn header_prefix() {
    let prefix = HeaderPrefix::new(10, 5, 12, TABLE_SIZE);
    let mut buf = vec![];
    prefix.encode(&mut buf);
    let mut read = Reader::new(&buf);
    let decoded = HeaderPrefix::decode(&mut read);
    assert_eq!(decoded, Ok(prefix));
    assert_eq!(decoded.unwrap().get(13, 3332).unwrap(), (10, 5));
}

#[test]
fn header_prefix_table_size_0() {
    assert_eq!(HeaderPrefix::new(10, 5, 12, 0).get(1, 0).unwrap(), (0, 0));
}

#[test]
fn nonzero_insert_count_requires_at_least_one_table_entry() {
    let prefix = HeaderPrefix {
        encoded_insert_count: 1,
        sign_negative: false,
        delta_base: 0,
    };

    assert_eq!(
        prefix.get(0, 31),
        Err(ParseError::InvalidRequiredInsertCount(1))
    );
}

#[test]
fn encoded_insert_count_cannot_exceed_full_range() {
    let prefix = HeaderPrefix {
        encoded_insert_count: 3,
        sign_negative: false,
        delta_base: 0,
    };

    assert_eq!(
        prefix.get(0, 32),
        Err(ParseError::InvalidRequiredInsertCount(3))
    );
}

#[test]
fn required_insert_count_reconstruction_rejects_overflow() {
    let prefix = HeaderPrefix {
        encoded_insert_count: 2,
        sign_negative: false,
        delta_base: 0,
    };

    assert_eq!(
        prefix.get(usize::MAX - 1, 32),
        Err(ParseError::InvalidRequiredInsertCount(2))
    );
}

#[test]
fn base_index_too_small() {
    let mut buf = vec![];
    let encoded_largest_ref: u64 = ((2 % (2 * TABLE_SIZE / 32)) + 1).try_into().unwrap();
    prefix_int::encode(8, 0, encoded_largest_ref, &mut buf);
    prefix_int::encode(7, 1, 2, &mut buf); // base index negative = 0

    let mut read = Reader::new(&buf);
    assert_eq!(
        HeaderPrefix::decode(&mut read).unwrap().get(2, TABLE_SIZE),
        Err(ParseError::InvalidBase {
            required_insert_count: 2,
            sign_negative: true,
            delta_base: 2,
        })
    );
}

#[test]
fn negative_delta_base_with_zero_required_insert_count_is_rejected() {
    let prefix = HeaderPrefix {
        encoded_insert_count: 0,
        sign_negative: true,
        delta_base: 0,
    };

    assert_eq!(
        prefix.get(0, TABLE_SIZE),
        Err(ParseError::InvalidBase {
            required_insert_count: 0,
            sign_negative: true,
            delta_base: 0,
        })
    );
}

#[test]
fn positive_delta_base_with_zero_required_insert_count_is_allowed() {
    let prefix = HeaderPrefix {
        encoded_insert_count: 0,
        sign_negative: false,
        delta_base: 1,
    };

    // A field section without dynamic references can use any Base. RIC 0
    // therefore does not require Delta Base to be zero when the sign is positive.
    // https://www.rfc-editor.org/rfc/rfc9204.html#section-4.5.1.2
    assert_eq!(prefix.get(0, TABLE_SIZE), Ok((0, 1)));
}

#[test]
fn positive_delta_base_overflow_is_rejected() {
    let mut field_section = vec![];
    prefix_int::encode(8, 0, 1, &mut field_section);
    prefix_int::encode(7, 0, 2, &mut field_section);

    let prefix = HeaderPrefix::decode(&mut Reader::new(&field_section)).unwrap();
    // With MaxEntries set to one, EIC 1 reconstructs Required Insert Count
    // `usize::MAX - 1`. Adding the wire Delta Base must fail.
    assert_eq!(
        prefix.get(usize::MAX - 1, 32),
        Err(ParseError::InvalidBase {
            required_insert_count: usize::MAX - 1,
            sign_negative: false,
            delta_base: 2,
        })
    );
}

#[test]
fn negative_delta_base_arithmetic_overflow_is_rejected() {
    // This value is wire-representable on 32-bit targets, so the test covers
    // the arithmetic boundary on every supported architecture.
    let prefix = HeaderPrefix {
        encoded_insert_count: 2,
        sign_negative: true,
        delta_base: usize::MAX,
    };
    assert_eq!(
        prefix.get(0, 32),
        Err(ParseError::InvalidBase {
            required_insert_count: 1,
            sign_negative: true,
            delta_base: usize::MAX,
        })
    );
}

#[test]
fn first_bytes_outside_their_layout_are_refused() {
    // 0 0 0 0 N
    for first in [0x20u8, 0x10, 0x40, 0x80, 0xf0] {
        assert_eq!(
            LiteralWithPostBaseNameRef::decode(&mut Reader::new(&[first, 0])),
            Err(ParseError::InvalidPrefix(first / 8))
        );
    }
    assert!(LiteralWithPostBaseNameRef::decode(&mut Reader::new(&[0x08, 0])).is_ok());
    // 0 1 N T
    for first in [0xc0u8, 0x80, 0x20, 0x00] {
        assert_eq!(
            LiteralWithNameRef::decode(&mut Reader::new(&[first, 0])),
            Err(ParseError::InvalidPrefix(first / 16))
        );
    }
    assert!(LiteralWithNameRef::decode(&mut Reader::new(&[0x70, 0])).is_ok());
    // 0 0 1 N H
    assert_eq!(
        Literal::decode(&mut Reader::new(&[0x40, 0])),
        Err(ParseError::InvalidPrefix(0x40))
    );
}
