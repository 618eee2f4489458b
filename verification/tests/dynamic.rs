use std::collections::BTreeMap;

use http3::qpack::dynamic::encoder::{DynamicInsertionResult, DynamicLookupResult};
use http3::qpack::dynamic::{DynamicTable, Error};
use http3::qpack::static_::StaticTable;
use http3::qpack::vas::VirtualAddressSpace;
use http3::qpack::HeaderField;
use http3::quic::MAX_VARINT;

const TABLE_SIZE: usize = 4096;

fn build_table() -> DynamicTable {
    let mut table = DynamicTable::new();
    table.set_max_size(TABLE_SIZE).unwrap();
    table.set_max_blocked(100).unwrap();
    table
}

fn line<N: AsRef<[u8]>, V: AsRef<[u8]>>(name: N, value: V) -> HeaderField {
    HeaderField::new(name.as_ref(), value.as_ref())
}

const STREAM_ID: u64 = 0x4;

// Test on table size
/**
 * https://tools.ietf.org/html/rfc7541#section-4.1
 * "The size of the dynamic table is the sum of the size of its entries."
 */
#[test]
fn test_table_size_is_sum_of_its_entries() {
    let mut table = build_table();

    let fields: [(&'static str, &'static str); 2] = [
        ("Name", "Value"),
        ("Another-Name", ""), // no value
    ];
    let table_size = 4 + 5 + 12 + 0 + /* ESTIMATED_OVERHEAD_BYTES */ 32 * 2;

    for pair in fields.iter() {
        let field = line(pair.0, pair.1);
        table.insert(field).unwrap();
    }

    assert_eq!(table.curr_size, table_size);
}

#[test]
fn table_capacity_accepts_one_gibibyte() {
    let mut table = build_table();
    let capacity = 1usize << 30;

    // The decoder's advertised setting is the limit on dynamic table capacity.
    // https://www.rfc-editor.org/rfc/rfc9204.html#section-3.2.3
    assert_eq!(table.set_max_size(capacity), Ok(()));
    assert_eq!(table.max_mem_size(), capacity);
}

/**
 * https://www.rfc-editor.org/rfc/rfc9204.html#name-dynamic-table-capacity-and-
 * "This mechanism can be used to completely clear entries from the
 *  dynamic table by setting a maximum size of 0, which can subsequently
 *  be restored."
 */
#[test]
fn test_maximum_table_size_can_reach_zero() {
    let mut table = build_table();
    let res_change = table.set_max_size(0);
    assert!(res_change.is_ok());
    assert_eq!(table.max_mem_size(), 0);
}

// Test duplicated fields

/**
 * https://www.rfc-editor.org/rfc/rfc9204.html#name-dynamic-table
 * "The dynamic table can contain duplicate entries (i.e., entries with
 *  the same name and same value).  Therefore, duplicate entries MUST NOT
 *  be treated as an error by a decoder."
 */
#[test]
fn test_table_supports_duplicated_entries() {
    let mut table = build_table();
    table.insert(line("Name", "Value")).unwrap();
    table.insert(line("Name", "Value")).unwrap();
    assert_eq!(table.fields.len(), 2);
}

// Test adding fields

/** functional test */
#[test]
fn test_add_field_fitting_free_space() {
    let mut table = build_table();

    table.insert(line("Name", "Value")).unwrap();
    assert_eq!(table.fields.len(), 1);
}

#[test]
fn insertion_limit_is_checked_before_table_mutation() {
    let mut table = DynamicTable::new();
    table.set_max_size(64).unwrap();
    table.vas = VirtualAddressSpace::with_insert_count(usize::MAX);

    assert_eq!(
        table.put_decoder(line("name", "value")),
        Err(Error::AddressSpaceOverflow)
    );
    assert_eq!(table.total_inserted(), usize::MAX);
    assert!(table.fields.is_empty());
    assert_eq!(table.curr_size, 0);
}

/** functional test */
#[test]
fn test_add_field_reduce_free_space() {
    let mut table = build_table();

    let field = line("Name", "Value");
    table.insert(field.clone()).unwrap();
    assert_eq!(table.curr_size, field.mem_size());
}

/**
 * https://www.rfc-editor.org/rfc/rfc9204.html#name-dynamic-table-capacity-and-
 * "Before a new entry is added to the dynamic table, entries are evicted
 *  from the end of the dynamic table until the size of the dynamic table
 *  is less than or equal to (maximum size - new entry size) or until the
 *  table is empty."
 */
#[test]
fn test_add_field_drop_older_fields_to_have_enough_space() {
    let mut table = build_table();

    table.insert(line("Name-A", "Value-A")).unwrap();
    table.insert(line("Name-B", "Value-B")).unwrap();
    let perfect_size = table.curr_size;
    assert!(table.set_max_size(perfect_size).is_ok());

    let field = line("Name-Large", "Value-Large");
    table.insert(field).unwrap();

    assert_eq!(table.fields.len(), 1);
    assert_eq!(
        table.fields.front(),
        Some(&line("Name-Large", "Value-Large"))
    );
}

/**
 * https://www.rfc-editor.org/rfc/rfc9204.html#name-dynamic-table-capacity-and-
 * "It is an error if the encoder attempts to add an entry that is
 * larger than the dynamic table capacity; the decoder MUST treat
 * this as a connection error of type QPACK_ENCODER_STREAM_ERROR."
 */
#[test]
fn test_try_add_field_larger_than_maximum_size() {
    let mut table = build_table();

    table.insert(line("Name-A", "Value-A")).unwrap();
    let perfect_size = table.curr_size;
    assert!(table.set_max_size(perfect_size).is_ok());

    let field = line("Name-Large", "Value-Large");
    assert_eq!(table.insert(field), Err(Error::MaxTableSizeReached));
}

fn insert_fields(table: &mut DynamicTable, fields: Vec<HeaderField>) {
    for field in fields {
        table.insert(field).unwrap();
    }
}

/**
 * https://www.rfc-editor.org/rfc/rfc9204.html#name-dynamic-table-capacity-and-
 * "This mechanism can be used to completely clear entries from the
 *  dynamic table by setting a maximum size of 0, which can subsequently
 *  be restored."
 */
#[test]
fn test_set_maximum_table_size_to_zero_clear_entries() {
    let mut table = build_table();
    insert_fields(
        &mut table,
        vec![
            line("Name", "Value"),
            line("Name", "Value"),
        ],
    );
    assert_eq!(table.fields.len(), 2);

    table.set_max_size(0).unwrap();
    assert_eq!(table.fields.len(), 0);
}

/** functional test */
#[test]
fn test_eviction_is_fifo() {
    let mut table = build_table();

    insert_fields(
        &mut table,
        vec![
            line("Name-A", "Value-A"),
            line("Name-B", "Value-B"),
        ],
    );
    let perfect_size = table.curr_size;
    assert!(table.set_max_size(perfect_size).is_ok());

    insert_fields(&mut table, vec![line("Name-C", "Value-C")]);

    assert_eq!(
        table.fields.front(),
        Some(&line("Name-B", "Value-B"))
    );
    assert_eq!(
        table.fields.get(1),
        Some(&line("Name-C", "Value-C"))
    );
    assert_eq!(table.fields.get(2), None);
}

#[test]
fn encoder_build() {
    let mut table = build_table();
    let field_a = line("Name-A", "Value-A");
    let field_b = line("Name-B", "Value-B");
    insert_fields(&mut table, vec![field_a.clone(), field_b.clone()]);

    let encoder = table.encoder(STREAM_ID);
    assert_eq!(encoder.base, 2);
    assert_eq!(encoder.table.name_map.len(), 2);
    assert_eq!(encoder.table.field_map.len(), 2);
    assert_eq!(encoder.table.name_map.get(&field_a.name), Some(1));
    assert_eq!(encoder.table.name_map.get(&field_b.name), Some(2));
    assert_eq!(encoder.table.field_map.get(&field_a), Some(1));
    assert_eq!(encoder.table.field_map.get(&field_b), Some(2));
}

#[test]
fn encoder_find_relative() {
    let mut table = build_table();
    let field_a = line("Name-A", "Value-A");
    let field_b = line("Name-B", "Value-B");
    insert_fields(&mut table, vec![field_a.clone(), field_b.clone()]);

    let mut encoder = table.encoder(STREAM_ID);
    assert_eq!(
        encoder.find(&field_a),
        DynamicLookupResult::Relative {
            index: 1,
            absolute: 1
        }
    );
    assert_eq!(
        encoder.find(&field_b),
        DynamicLookupResult::Relative {
            index: 0,
            absolute: 2
        }
    );
    assert_eq!(
        encoder.find(&line("Name-C", "Value-C")),
        DynamicLookupResult::NotFound
    );
    assert_eq!(
        encoder.find_name(&field_a.name),
        DynamicLookupResult::Relative {
            index: 1,
            absolute: 1
        }
    );
    assert_eq!(
        encoder.find_name(&field_b.name),
        DynamicLookupResult::Relative {
            index: 0,
            absolute: 2
        }
    );
    assert_eq!(
        encoder.find_name(&b"Name-C"[..]),
        DynamicLookupResult::NotFound
    );
}

#[test]
fn encoder_insert() {
    let mut table = build_table();
    let field_a = line("Name-A", "Value-A");
    let field_b = line("Name-B", "Value-B");
    insert_fields(&mut table, vec![field_a.clone(), field_b.clone()]);

    let mut encoder = table.encoder(STREAM_ID);
    assert_eq!(
        encoder.insert(&field_a),
        Ok(DynamicInsertionResult::Duplicated {
            postbase: 0,
            relative: 1,
            absolute: 3
        })
    );
    assert_eq!(
        encoder.insert(&field_b.with_value(b"New Value-B")),
        Ok(DynamicInsertionResult::InsertedWithNameRef {
            postbase: 1,
            relative: 1,
            absolute: 4,
        })
    );
    assert_eq!(
        encoder.insert(&field_b.with_value(b"Newer Value-B")),
        Ok(DynamicInsertionResult::InsertedWithNameRef {
            postbase: 2,
            relative: 0,
            absolute: 5,
        })
    );

    let field_c = line("Name-C", "Value-C");
    assert_eq!(
        encoder.insert(&field_c),
        Ok(DynamicInsertionResult::Inserted {
            postbase: 3,
            absolute: 6,
        })
    );

    assert_eq!(encoder.table.fields.len(), 6);

    assert_eq!(
        encoder.table.fields,
        [
            field_a.clone(),
            field_b.clone(),
            field_a.clone(),
            field_b.with_value(b"New Value-B"),
            field_b.with_value(b"Newer Value-B"),
            field_c
        ]
    );
    assert_eq!(encoder.table.name_map.get(&field_a.name), Some(3));
    assert_eq!(encoder.table.name_map.get(&field_b.name), Some(5));
    assert_eq!(encoder.table.field_map.get(&field_a), Some(3));
    assert_eq!(encoder.table.field_map.get(&field_b), Some(2));
    assert_eq!(
        encoder
            .table
            .field_map
            .get(&field_b.with_value(b"New Value-B")),
        Some(4)
    );
    assert_eq!(
        encoder
            .table
            .field_map
            .get(&field_b.with_value(b"Newer Value-B")),
        Some(5)
    );
}

#[test]
fn encode_insert_in_empty() {
    let mut table = build_table();
    let field_a = line("Name-A", "Value-A");

    let mut encoder = table.encoder(STREAM_ID);
    assert_eq!(
        encoder.insert(&field_a),
        Ok(DynamicInsertionResult::Inserted {
            postbase: 0,
            absolute: 1,
        })
    );

    assert_eq!(encoder.table.fields.len(), 1);
    assert_eq!(encoder.table.fields, [field_a.clone()]);
    assert_eq!(encoder.table.name_map.get(&field_a.name), Some(1));
    assert_eq!(encoder.table.field_map.get(&field_a), Some(1));
}

#[test]
fn insert_static() {
    let mut table = build_table();
    let field = line(":method", "Value-A");
    table.insert(field.clone()).unwrap();

    assert_eq!(StaticTable::find_name(&field.name), Some(15));
    let mut encoder = table.encoder(STREAM_ID);
    assert_eq!(
        encoder.insert(&field),
        Ok(DynamicInsertionResult::Duplicated {
            relative: 0,
            postbase: 0,
            absolute: 2
        })
    );
    assert_eq!(
        encoder.insert(&field.with_value(b"Value-B")),
        Ok(DynamicInsertionResult::InsertedWithStaticNameRef {
            postbase: 1,
            index: 15,
            absolute: 3
        })
    );
    assert_eq!(
        encoder.insert(&line(":path", "/baz")),
        Ok(DynamicInsertionResult::InsertedWithStaticNameRef {
            postbase: 2,
            index: 1,
            absolute: 4,
        })
    );
    assert_eq!(encoder.table.fields.len(), 4);
}

#[test]
fn cannot_insert_field_greater_than_total_size() {
    let mut table = build_table();
    table.set_max_size(33).unwrap();
    let mut encoder = table.encoder(4);
    assert_eq!(
        encoder.insert(&line("foo", "bar")),
        Ok(DynamicInsertionResult::NotInserted(
            DynamicLookupResult::NotFound
        ))
    );
}

#[test]
fn encoder_maps_are_cleaned_on_eviction() {
    let mut table = build_table();
    table.set_max_size(64).unwrap();

    {
        let mut encoder = table.encoder(4);
        assert_eq!(
            encoder.insert(&line("foo", "bar")),
            Ok(DynamicInsertionResult::Inserted {
                postbase: 0,
                absolute: 1
            })
        );
        encoder.commit(1);
    }
    table.acknowledge_section(4).unwrap();

    {
        let mut encoder = table.encoder(4);
        assert_eq!(
            encoder.insert(&line("foo2", "bar")),
            Ok(DynamicInsertionResult::Inserted {
                postbase: 0,
                absolute: 2
            })
        );
        assert_eq!(
            encoder.find(&line("foo", "bar")),
            DynamicLookupResult::NotFound
        );
        assert_eq!(encoder.find_name(b"foo"), DynamicLookupResult::NotFound);
        encoder.commit(2);
    }
}

#[test]
fn encoder_can_evict_unreferenced() {
    let mut table = build_table();
    table.set_max_size(63).unwrap();
    table.insert(line("foo", "bar")).unwrap();

    assert_eq!(table.fields.len(), 1);
    assert_eq!(
        table.encoder(4).insert(&line("baz", "quxx")),
        Ok(DynamicInsertionResult::Inserted {
            postbase: 0,
            absolute: 2,
        })
    );
    assert_eq!(table.fields.len(), 1);
}

#[test]
fn encoder_insertion_tracks_ref() {
    let mut table = build_table();
    let mut encoder = table.encoder(4);
    assert_eq!(
        encoder.insert(&line("baz", "quxx")),
        Ok(DynamicInsertionResult::Inserted {
            postbase: 0,
            absolute: 1,
        })
    );
    assert_eq!(encoder.table.track_map.get(&1).copied(), Some(1));
    assert_eq!(encoder.block_refs.get(&1).copied(), Some(1));
}

#[test]
fn encoder_insertion_refs_committed() {
    let mut table = build_table();
    let stream_id = 42;
    {
        let mut encoder = table.encoder(stream_id);
        for idx in 1..4 {
            encoder
                .insert(&line(format!("foo{}", idx), "quxx"))
                .unwrap();
        }
        assert_eq!(encoder.block_refs.len(), 3);
        encoder.commit(3);
    }

    for idx in 1..4 {
        assert!(table.is_tracked(idx));
        assert_eq!(table.track_map.get(&1), Some(&1));
    }
    let track_blocks = table.track_blocks;
    let block = track_blocks
        .get(&stream_id)
        .unwrap()
        .field_sections
        .front()
        .unwrap();
    assert_eq!(block.required_insert_count, 3);
    assert_eq!(block.refs.get(&1), Some(&1));
    assert_eq!(block.refs.get(&2), Some(&1));
    assert_eq!(block.refs.get(&3), Some(&1));
}

#[test]
fn encoder_insertion_refs_not_committed() {
    let mut table = build_table();
    table.track_blocks = BTreeMap::new();
    let stream_id = 42;
    {
        let mut encoder = table.encoder(stream_id);
        for idx in 1..4 {
            encoder
                .insert(&line(format!("foo{}", idx), "quxx"))
                .unwrap();
        }
        assert_eq!(encoder.block_refs.len(), 3);
        encoder.close();
    } // closed without ::commit()

    assert_eq!(table.track_map.len(), 0);
    assert_eq!(table.track_blocks.len(), 0);
}

#[test]
fn encoder_insertion_with_ref_tracks_both() {
    let mut table = build_table();
    table.insert(line("foo", "bar")).unwrap();
    table.track_blocks = BTreeMap::new();

    let stream_id = 42;
    let mut encoder = table.encoder(stream_id);
    assert_eq!(
        encoder.insert(&line("foo", "quxx")),
        Ok(DynamicInsertionResult::InsertedWithNameRef {
            postbase: 0,
            relative: 0,
            absolute: 2,
        })
    );

    assert_eq!(encoder.table.track_map.get(&1), Some(&1));
    assert_eq!(encoder.table.track_map.get(&2), Some(&1));
    assert_eq!(encoder.block_refs.get(&1), Some(&1));
    assert_eq!(encoder.block_refs.get(&2), Some(&1));
}

#[test]
fn encoder_ref_count_are_incremented() {
    let mut table = build_table();
    table.insert(line("foo", "bar")).unwrap();
    table.track_blocks = BTreeMap::new();
    table.track_ref(1);

    let stream_id = 42;
    {
        let mut encoder = table.encoder(stream_id);
        encoder.track_ref(1);
        encoder.track_ref(2);
        encoder.track_ref(2);

        assert_eq!(encoder.table.track_map.get(&1), Some(&2));
        assert_eq!(encoder.table.track_map.get(&2), Some(&2));
        assert_eq!(encoder.block_refs.get(&1), Some(&1));
        assert_eq!(encoder.block_refs.get(&2), Some(&2));
        encoder.close();
    }

    // Closing an uncommitted field section releases its references.
    assert_eq!(table.track_map.get(&1), Some(&1));
    assert_eq!(table.track_map.get(&2), None);
}

#[test]
fn encoder_does_not_evict_referenced() {
    let mut table = build_table();
    table.set_max_size(95).unwrap();
    table.insert(line("foo", "bar")).unwrap();

    let stream_id = 42;
    let mut encoder = table.encoder(stream_id);
    assert_eq!(
        encoder.insert(&line("foo", "quxx")),
        Ok(DynamicInsertionResult::InsertedWithNameRef {
            postbase: 0,
            relative: 0,
            absolute: 2,
        })
    );
    assert!(encoder.table.is_tracked(1));
    assert_eq!(
        encoder.insert(&line("foo", "baz")),
        Ok(DynamicInsertionResult::NotInserted(
            DynamicLookupResult::PostBase {
                index: 0,
                absolute: 2,
            }
        ))
    );
    assert_eq!(encoder.table.fields.len(), 2);
}

fn tracked_table(stream_id: u64) -> DynamicTable {
    let mut table = build_table();
    table.track_blocks = BTreeMap::new();
    {
        let mut encoder = table.encoder(stream_id);
        for idx in 1..4 {
            encoder
                .insert(&line(format!("foo{}", idx), "quxx"))
                .unwrap();
        }
        assert_eq!(encoder.block_refs.len(), 3);
        encoder.commit(3);
    }
    table
}

#[test]
fn acknowledge_section() {
    let mut table = tracked_table(42);
    assert_eq!(table.track_map.len(), 3);
    assert_eq!(table.track_blocks.len(), 1);
    table.acknowledge_section(42).unwrap();
    assert_eq!(table.track_map.len(), 0);
    assert_eq!(table.track_blocks.len(), 0);
    assert_eq!(table.largest_known_received, 3);
    assert!(table.blocked_streams.is_empty());
}

#[test]
fn acknowledge_section_rejects_missing_reference_count() {
    let mut table = tracked_table(42);
    table.track_map.remove(&2);
    assert_eq!(
        table.acknowledge_section(42),
        Err(Error::InvalidTrackingCount)
    );
}

#[test]
fn acknowledge_section_rejects_wrong_reference_count() {
    let mut table = tracked_table(42);
    table.track_blocks.entry(42).and_modify(|x| {
        x.field_sections
            .get_mut(0)
            .unwrap()
            .refs
            .entry(2)
            .and_modify(|c| *c += 1);
    });
    assert_eq!(
        table.acknowledge_section(42),
        Err(Error::InvalidTrackingCount)
    );
}

#[test]
fn acknowledge_section_rejects_unknown_stream() {
    let mut table = tracked_table(41);
    assert_eq!(
        table.acknowledge_section(42),
        Err(Error::UnknownStreamId(42))
    );
}

#[test]
fn acknowledgments_follow_field_section_order() {
    const STREAM_ID: u64 = 42;
    let mut table = tracked_table(STREAM_ID);
    {
        // encode trailers
        let mut encoder = table.encoder(STREAM_ID);
        for idx in 4..=9 {
            encoder
                .insert(&line(format!("foo{}", idx), "quxx"))
                .unwrap();
        }
        assert_eq!(encoder.block_refs.len(), 6);
        encoder.commit(9);
    }
    assert_eq!(table.blocked_streams.len(), 1);
    assert_eq!(table.acknowledge_section(STREAM_ID), Ok(()));
    assert_eq!(table.largest_known_received, 3);
    assert!(!table.is_tracked(3));
    assert!(table.is_tracked(5));
    assert!(table.blocked_streams.contains(&(9, STREAM_ID)));
    assert_eq!(table.acknowledge_section(STREAM_ID), Ok(()));
    assert_eq!(table.largest_known_received, 9);
    assert!(!table.is_tracked(9));
    assert_eq!(
        table.acknowledge_section(STREAM_ID),
        Err(Error::UnknownStreamId(STREAM_ID))
    );
}

#[test]
fn put_updates_maps() {
    let mut table = tracked_table(42);
    assert_eq!(table.name_map.len(), 3);
    assert_eq!(table.field_map.len(), 3);

    table.put(line("foo", "bar")).unwrap();
    assert_eq!(table.name_map.len(), 4);
    assert_eq!(table.field_map.len(), 4);

    let field = line("foo1", "quxx");
    table.put(field.clone()).unwrap();
    assert_eq!(table.name_map.len(), 4);
    assert_eq!(table.field_map.len(), 4);
    assert_eq!(table.name_map.get(&b"foo1"[..]), Some(5usize));
    assert_eq!(table.field_map.get(&field), Some(5usize));
}

#[test]
fn decoder_insert_avoids_encoder_lookup_maps() {
    let mut table = DynamicTable::new();
    table
        .set_max_size(line("a", "1").mem_size())
        .unwrap();

    table.put_decoder(line("a", "1")).unwrap();
    let latest = line("b", "2");
    table.put_decoder(latest.clone()).unwrap();

    // Decoder references use table positions. Evicting an older entry does
    // not require the encoder's field or name lookup maps.
    // https://www.rfc-editor.org/rfc/rfc9204.html#section-3.2.2
    assert_eq!(table.fields.len(), 1);
    assert_eq!(table.get_relative(0), Ok(&latest));
    assert!(table.field_map.is_empty());
    assert!(table.name_map.is_empty());
}

#[test]
fn zero_required_insert_count_is_not_queued_for_acknowledgment() {
    let mut table = build_table();

    table.encoder(42).commit(0);

    assert!(table.track_blocks.is_empty());
    assert_eq!(
        table.acknowledge_section(42),
        Err(Error::UnknownStreamId(42))
    );
}

#[test]
fn multiple_field_sections_block_one_stream_and_acknowledge_in_order() {
    let mut table = build_table();
    table.set_max_blocked(1).unwrap();

    {
        let mut encoder = table.encoder(42);
        assert!(matches!(
            encoder.insert(&line("first", "value")),
            Ok(DynamicInsertionResult::Inserted { absolute: 1, .. })
        ));
        encoder.commit(1);
    }
    {
        // The stream already consumes the only blocked-stream slot, so a
        // later field section on it may still reference a new insertion.
        let mut encoder = table.encoder(42);
        assert!(matches!(
            encoder.insert(&line("second", "value")),
            Ok(DynamicInsertionResult::Inserted { absolute: 2, .. })
        ));
        encoder.commit(2);
    }

    assert_eq!(table.blocked_streams.len(), 1);
    assert!(table.blocked_streams.contains(&(2, 42)));
    assert_eq!(table.track_blocks[&42].field_sections.len(), 2);

    table.acknowledge_section(42).unwrap();
    assert_eq!(table.largest_known_received, 1);
    assert_eq!(table.track_blocks[&42].field_sections.len(), 1);
    assert!(table.blocked_streams.contains(&(2, 42)));
    assert!(!table.is_tracked(1));
    assert!(table.is_tracked(2));

    table.acknowledge_section(42).unwrap();
    assert_eq!(table.largest_known_received, 2);
    assert!(table.track_blocks.is_empty());
    assert!(table.blocked_streams.is_empty());
    assert!(table.track_map.is_empty());
}

#[test]
fn stream_cancellation_releases_every_field_section_and_blocked_slot() {
    let mut table = build_table();
    table.set_max_blocked(1).unwrap();

    for absolute in 1..=3 {
        let mut encoder = table.encoder(42);
        assert!(matches!(
            encoder.insert(&line(format!("field{absolute}"), "value")),
            Ok(DynamicInsertionResult::Inserted {
                absolute: inserted,
                ..
            }) if inserted == absolute
        ));
        encoder.commit(absolute);
    }

    assert_eq!(table.track_blocks[&42].field_sections.len(), 3);
    assert_eq!(table.blocked_streams.len(), 1);
    table.cancel_stream(42).unwrap();
    assert!(table.track_blocks.is_empty());
    assert!(table.track_map.is_empty());
    assert!(table.blocked_streams.is_empty());

    // Cancellation does not acknowledge insertions, but it frees the
    // blocked-stream slot for another stream.
    assert_eq!(table.largest_known_received, 0);
    assert!(matches!(
        table
            .encoder(44)
            .insert(&line("replacement", "value")),
        Ok(DynamicInsertionResult::Inserted { absolute: 4, .. })
    ));
    assert_eq!(table.cancel_stream(42), Ok(()));
}

#[test]
fn acknowledged_entries_can_be_referenced_without_a_blocked_slot() {
    let mut table = build_table();
    let field = line("known", "value");
    table.put(field.clone()).unwrap();
    table.update_largest_received(1).unwrap();
    table.set_max_blocked(0).unwrap();

    assert_eq!(
        table.encoder(42).find(&field),
        DynamicLookupResult::Relative {
            index: 0,
            absolute: 1,
        }
    );
}

#[test]
fn blocked_stream_registered() {
    let mut table = tracked_table(42);
    table.set_max_blocked(100).unwrap();

    assert_eq!(table.blocked_streams.len(), 1);
    assert!(table.blocked_streams.contains(&(3, 42)));
}

#[test]
fn blocked_stream_not_registered() {
    let mut table = tracked_table(42);
    table.set_max_blocked(100).unwrap();

    let mut encoder = table.encoder(44);
    encoder.insert(&line("foo", "bar")).unwrap();
    // encoder closed without commit
    encoder.close();

    assert_eq!(table.blocked_streams.len(), 1);
    assert!(table.blocked_streams.contains(&(3, 42)));
}

#[test]
fn blocked_stream_register_accumulate() {
    let mut table = tracked_table(42);
    table.set_max_blocked(100).unwrap();

    {
        let mut encoder = table.encoder(44);

        assert_eq!(
            encoder.find(&line("foo3", "quxx")),
            DynamicLookupResult::Relative {
                index: 0,
                absolute: 3,
            }
        );
        // This field section references foo3 (absolute index 3).
        encoder.commit(3);
    }

    assert_eq!(table.blocked_streams.len(), 2);
    assert!(table.blocked_streams.contains(&(3, 42)));
    assert!(table.blocked_streams.contains(&(3, 44)));
}

#[test]
fn blocked_stream_register_put_smaller() {
    let mut table = tracked_table(42);
    table.set_max_blocked(100).unwrap();

    {
        let mut encoder = table.encoder(44);
        assert_eq!(
            encoder.find(&line("foo2", "quxx")),
            DynamicLookupResult::Relative {
                index: 1,
                absolute: 2,
            }
        );
        encoder.commit(2);
    }

    assert_eq!(table.blocked_streams.len(), 2);
    assert!(table.blocked_streams.contains(&(2, 44)));
}

#[test]
fn blocked_stream_register_put_larger() {
    let mut table = tracked_table(42);
    table.set_max_blocked(100).unwrap();
    table.put(line("foo4", "quxx")).unwrap();
    table.put(line("foo5", "quxx")).unwrap();

    {
        let mut encoder = table.encoder(44);
        assert_eq!(
            encoder.find(&line("foo5", "quxx")),
            DynamicLookupResult::Relative {
                index: 0,
                absolute: 5,
            }
        );
        encoder.commit(5);
    }

    assert_eq!(table.blocked_streams.len(), 2);
    assert!(table.blocked_streams.contains(&(5, 44)));
}

#[test]
fn unblock_stream_smaller() {
    let mut table = tracked_table(42);
    table.set_max_blocked(100).unwrap();

    {
        let mut encoder = table.encoder(44);
        assert_eq!(
            encoder.find(&line("foo2", "quxx")),
            DynamicLookupResult::Relative {
                index: 1,
                absolute: 2,
            }
        );
        encoder.commit(2);
    }

    assert_eq!(table.blocked_streams.len(), 2);
    assert!(table.blocked_streams.contains(&(2, 44)));

    table.update_largest_received(2).unwrap();

    assert_eq!(table.blocked_streams.len(), 1);
    assert!(!table.blocked_streams.contains(&(2, 44)));
    assert!(table.blocked_streams.contains(&(3, 42)));
}

#[test]
fn unblock_stream_larger() {
    let mut table = tracked_table(42);
    table.set_max_blocked(100).unwrap();
    table.put(line("foo4", "quxx")).unwrap();
    table.put(line("foo5", "quxx")).unwrap();

    {
        let mut encoder = table.encoder(44);
        assert!(matches!(
            encoder.find(&line("foo2", "quxx")),
            DynamicLookupResult::Relative { absolute: 2, .. }
        ));
        encoder.commit(2);
    }
    {
        let mut encoder = table.encoder(46);
        assert!(matches!(
            encoder.find(&line("foo5", "quxx")),
            DynamicLookupResult::Relative { absolute: 5, .. }
        ));
        encoder.commit(5);
    }

    assert_eq!(table.blocked_streams.len(), 3);
    assert!(table.blocked_streams.contains(&(2, 44)));
    assert!(table.blocked_streams.contains(&(3, 42)));
    assert!(table.blocked_streams.contains(&(5, 46)));

    table.update_largest_received(5).unwrap();

    assert!(table.blocked_streams.is_empty());
}

#[test]
fn unblock_stream_decrement() {
    let mut table = tracked_table(42);
    table.set_max_blocked(100).unwrap();

    {
        let mut encoder = table.encoder(44);
        assert!(matches!(
            encoder.find(&line("foo3", "quxx")),
            DynamicLookupResult::Relative { absolute: 3, .. }
        ));
        encoder.commit(3);
    }

    assert_eq!(table.blocked_streams.len(), 2);
    assert!(table.blocked_streams.contains(&(3, 42)));
    assert!(table.blocked_streams.contains(&(3, 44)));

    // Only three insertions were sent. A larger value would violate the
    // Insert Count Increment limit in RFC 9204 Section 4.4.3.
    // https://www.rfc-editor.org/rfc/rfc9204.html#section-4.4.3
    table.update_largest_received(3).unwrap();

    assert!(table.blocked_streams.is_empty());
}

#[test]
fn no_insert_when_max_blocked_0() {
    let mut table = build_table();
    table.set_max_blocked(0).unwrap();

    assert_eq!(
        table.encoder(44).insert(&line("foo", "bar")),
        Ok(DynamicInsertionResult::NotInserted(
            DynamicLookupResult::NotFound
        ))
    );
}

#[test]
fn dynamic_blocked_stream_limit_accepts_full_settings_range() {
    let mut table = DynamicTable::new();
    let max = MAX_VARINT;

    assert_eq!(table.set_max_blocked(max), Ok(()));
    assert_eq!(table.blocked_max, max);
}

#[test]
fn no_insert_after_max_blocked_reached() {
    let mut table = tracked_table(42);
    table.set_max_blocked(2).unwrap();

    {
        let mut encoder = table.encoder(44);
        assert_eq!(
            encoder.insert(&line("foo", "bar")),
            Ok(DynamicInsertionResult::Inserted {
                postbase: 0,
                absolute: 4
            })
        );
        encoder.commit(4);
    }

    assert_eq!(table.blocked_streams.len(), 2);

    let mut encoder = table.encoder(46);
    assert_eq!(
        encoder.insert(&line("foo99", "bar")),
        Ok(DynamicInsertionResult::NotInserted(
            DynamicLookupResult::NotFound
        ))
    );
}

#[test]
fn insert_again_after_encoder_ack() {
    let mut table = tracked_table(42);
    table.set_max_blocked(1).unwrap();

    assert_eq!(table.blocked_streams.len(), 1);

    {
        let mut encoder = table.encoder(44);
        assert_eq!(
            encoder.insert(&line("foo99", "bar")),
            Ok(DynamicInsertionResult::NotInserted(
                DynamicLookupResult::NotFound
            ))
        );
        encoder.commit(0);
    }

    table.update_largest_received(3).unwrap();
    assert!(table.blocked_streams.is_empty());

    let mut encoder = table.encoder(46);
    assert_eq!(
        encoder.insert(&line("foo", "bar")),
        Ok(DynamicInsertionResult::Inserted {
            postbase: 0,
            absolute: 4
        })
    );
}

#[test]
fn overflowing_insert_count_increment_does_not_mutate_table() {
    let mut table = tracked_table(42);
    table.update_largest_received(1).unwrap();

    assert_eq!(
        table.update_largest_received(usize::MAX),
        Err(Error::InvalidInsertCountIncrement)
    );
    assert_eq!(table.largest_known_received, 1);
    assert_eq!(table.blocked_streams.len(), 1);
}

#[test]
fn sections_can_be_started_on_a_table_over_its_capacity() {
    let mut table = build_table();
    table.put(line("x-name", "value")).unwrap();
    table.max_size = 10;
    let mut encoder = table.encoder(STREAM_ID);
    assert_eq!(
        encoder.find(&line("x-name", "value")),
        DynamicLookupResult::Relative {
            index: 0,
            absolute: 1,
        }
    );
    assert_eq!(encoder.total_inserted(), 1);
    encoder.commit(1);
    encoder.close();
    assert!(table.is_tracked(1));
}
