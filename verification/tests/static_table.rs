use http3::qpack::static_::{Error, StaticLookup, StaticTable, STATIC_ENTRIES};
use http3::qpack::HeaderField;

fn line<N: AsRef<[u8]>, V: AsRef<[u8]>>(name: N, value: V) -> HeaderField {
    HeaderField::new(name.as_ref(), value.as_ref())
}

/**
 * https://www.rfc-editor.org/rfc/rfc9204.html#section-3.1
 *  3.1.  Static Table
 *  [...]
 *  Note the QPACK static table is indexed from 0, whereas the HPACK
 *  static table is indexed from 1.
 */
#[test]
fn test_static_table_index_is_0_based() {
    assert_eq!(StaticTable::get(0), Ok(line(":authority", "")));
}

#[test]
fn test_static_table_is_full() {
    assert_eq!(STATIC_ENTRIES, 99);
}

#[test]
fn test_static_table_can_get_field() {
    assert_eq!(
        StaticTable::get(98),
        Ok(line("x-frame-options", "sameorigin"))
    );
}

#[test]
fn invalid_index() {
    assert_eq!(StaticTable::get(99), Err(Error::Unknown(99)));
}

#[test]
fn find_by_name() {
    assert_eq!(StaticTable::find_name(b"last-modified"), Some(10usize));
    assert_eq!(StaticTable::find_name(b"does-not-exist"), None);
}

#[test]
fn find() {
    for index in 0..99 {
        let field = &StaticTable::get(index).unwrap();
        assert_eq!(StaticTable::find(field), Some(index));

        let name_index = StaticTable::find_name(&field.name).unwrap();
        assert_eq!(
            StaticTable::lookup(&field.name, b"not-a-static-value"),
            StaticLookup::Name(name_index)
        );
    }

    assert_eq!(StaticTable::find(&line("foo", "bar")), None);
    assert_eq!(StaticTable::lookup(b"foo", b"bar"), StaticLookup::NotFound);
}

#[test]
fn static_lines_are_found_where_they_stand() {
    for index in 0..STATIC_ENTRIES {
        let field = StaticTable::get(index).unwrap();
        assert_eq!(
            StaticTable::lookup(&field.name, &field.value),
            StaticLookup::Indexed(index)
        );
        for other in 0..index {
            assert_ne!(StaticTable::get(other).unwrap(), field);
        }
    }
}
