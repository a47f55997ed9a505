//! Writer state machine, reader ingest, queries and the structify pass.
use frclib_datalog::error::DataLogError;
use frclib_datalog::reader::{DataLogReader, DataLogReaderConfig};
use frclib_datalog::value::{LogValue, ValueType};
use frclib_datalog::proto::records::{ControlRecord, Record};
use frclib_datalog::writer::{DataLogWriter, EntryId};
use frclib_datalog::TimestampedValue;

fn default_config() -> DataLogReaderConfig {
    DataLogReaderConfig { require_magic: true, required_version: Some((1, 0)) }
}

#[test]
fn test_write() {
    let mut writer = DataLogWriter::new(1, "test").expect("Failed to create writer");
    let entry = writer
        .get_entry("test", &ValueType::Int, None)
        .expect("Failed to get entry");
    writer
        .write_timestamped(entry, LogValue::Int(10), 100)
        .expect("Failed to write entry");
    writer
        .write_timestamped(entry, LogValue::Int(20), 120)
        .expect("Failed to write entry");
    writer
        .write_timestamped(entry, LogValue::Int(30), 150)
        .expect("Failed to write entry");
    assert!(writer.out.len() > 12);
}

#[test]
fn test_tiny_round_trip() {
    let mut writer = DataLogWriter::new(1, "test").expect("Failed to create writer");
    let entry = writer
        .get_entry("x", &ValueType::Int, None)
        .expect("Failed to get entry");
    // one value written before the entry's start time: the reader sorts
    writer.write_timestamped(entry, LogValue::Int(10), 5).unwrap();
    writer.write_timestamped(entry, LogValue::Int(20), 1_000_000).unwrap();
    writer.write_timestamped(entry, LogValue::Int(30), 2_000_000).unwrap();

    let reader = DataLogReader::try_new(writer.out.as_slice(), default_config())
        .expect("Failed to create reader");
    assert_eq!(reader.get_header_metadata(), "test");
    assert_eq!(reader.get_format_version(), (1, 0));
    let values = reader.read_entry("x");
    assert_eq!(values.len(), 3);
    assert_eq!(values[0], TimestampedValue { timestamp: 5, value: LogValue::Int(10) });
    assert_eq!(values[1], TimestampedValue { timestamp: 1_000_000, value: LogValue::Int(20) });
    assert_eq!(values[2], TimestampedValue { timestamp: 2_000_000, value: LogValue::Int(30) });
    for w in values.windows(2) {
        assert!(w[0].timestamp <= w[1].timestamp);
    }
    let keys = reader.get_all_entry_keys();
    assert_eq!(keys, vec!["x".to_string()]);
}

#[test]
fn test_time_range_queries() {
    let mut writer = DataLogWriter::new(1, "").unwrap();
    let entry = writer.get_entry("k", &ValueType::Int, None).unwrap();
    for (v, ts) in [(1i64, 10u64), (2, 20), (3, 30), (4, 40)] {
        writer.write_timestamped(entry, LogValue::Int(v), ts).unwrap();
    }
    let reader = DataLogReader::try_new(writer.out.as_slice(), default_config()).unwrap();
    let after = reader.read_entry_after("k", 20);
    assert_eq!(after.len(), 2);
    assert!(after.iter().all(|tv| tv.timestamp > 20));
    let before = reader.read_entry_before("k", 20);
    assert_eq!(before.len(), 1);
    assert!(before.iter().all(|tv| tv.timestamp < 20));
    let between = reader.read_entry_between("k", 20, 30);
    assert_eq!(between.len(), 2);
    assert!(between.iter().all(|tv| 20 <= tv.timestamp && tv.timestamp <= 30));
}

#[test]
fn test_entry_filter_collect() {
    // timestamps far above the entry's start time, so the metadata and
    // type strings in force at each value's timestamp are the Start ones
    let base: u64 = 1 << 60;
    let mut writer = DataLogWriter::new(1, "").unwrap();
    let entry = writer.get_entry("k", &ValueType::Int, Some("{}".to_string())).unwrap();
    for (v, d) in [(1i64, 10u64), (2, 20), (3, 30)] {
        writer.write_timestamped(entry, LogValue::Int(v), base + d).unwrap();
    }
    let reader = DataLogReader::try_new(writer.out.as_slice(), default_config()).unwrap();
    let mut filter = reader.create_entry_filter("k").expect("entry exists");
    filter.after(base + 20);
    filter.before(base + 30);
    filter.required_type("int64".to_string());
    let collected = filter.collect();
    assert_eq!(collected.len(), 2);
    assert!(collected.iter().all(|tv| base + 20 <= tv.timestamp && tv.timestamp <= base + 30));
    let mut filter2 = reader.create_entry_filter("k").expect("entry exists");
    filter2.required_type("double".to_string());
    assert_eq!(filter2.collect().len(), 0);
    let mut filter3 = reader.create_entry_filter("k").expect("entry exists");
    filter3.required_metadata("{}".to_string());
    assert_eq!(filter3.collect().len(), 3);
    assert!(reader.create_entry_filter("missing").is_none());
}

#[test]
fn test_lifetime() {
    let mut writer = DataLogWriter::new(1, "").unwrap();
    let entry = writer.get_entry("y", &ValueType::Int, None).unwrap();
    writer.write_timestamped(entry, LogValue::Int(7), 50).unwrap();
    writer.close_entry(entry.untyped()).unwrap();
    let err = writer.write_timestamped(entry, LogValue::Int(8), 60);
    assert_eq!(err, Err(DataLogError::OutsideEntryLifetime));

    let reader = DataLogReader::try_new(writer.out.as_slice(), default_config()).unwrap();
    let values = reader.read_entry("y");
    assert_eq!(values.len(), 1);
    assert_eq!(values[0].value, LogValue::Int(7));
}

#[test]
fn test_close_twice_fails() {
    let mut writer = DataLogWriter::new(1, "").unwrap();
    let entry = writer.get_entry("y", &ValueType::Int, None).unwrap();
    writer.close_entry(entry.untyped()).unwrap();
    assert_eq!(
        writer.close_entry(entry.untyped()),
        Err(DataLogError::OutsideEntryLifetime)
    );
}

#[test]
fn test_cross_log_handle_rejected() {
    let mut writer_a = DataLogWriter::new(1, "").unwrap();
    let mut writer_b = DataLogWriter::new(2, "").unwrap();
    let _ = writer_a.get_entry("k", &ValueType::Int, None).unwrap();
    let foreign = writer_b.get_entry("k", &ValueType::Int, None).unwrap();
    let out_len = writer_a.out.len();
    let r = writer_a.write_timestamped(foreign, LogValue::Int(1), 10);
    assert_eq!(r, Err(DataLogError::InvalidDataLog));
    assert_eq!(writer_a.out.len(), out_len);
    assert_eq!(
        writer_a.close_entry(EntryId::new(2, 0)),
        Err(DataLogError::InvalidDataLog)
    );
}

#[test]
fn test_void_write_is_no_op() {
    let mut writer = DataLogWriter::new(1, "").unwrap();
    let entry = writer.get_entry_dynamic("k", &ValueType::Int, None).unwrap();
    let out_len = writer.out.len();
    let r = writer.write_dynamic(entry, TimestampedValue { timestamp: 10, value: LogValue::Void });
    assert_eq!(r, Ok(()));
    assert_eq!(writer.out.len(), out_len);
}

#[test]
fn test_void_entry_rejected() {
    let mut writer = DataLogWriter::new(1, "").unwrap();
    let r = writer.get_entry_dynamic("k", &ValueType::Void, None);
    assert!(matches!(r, Err(DataLogError::RecordType(_))));
}

#[test]
fn test_entry_type_mismatch() {
    let mut writer = DataLogWriter::new(1, "").unwrap();
    let entry = writer.get_entry_dynamic("k", &ValueType::Int, None).unwrap();
    assert_eq!(
        writer.get_entry_dynamic("k", &ValueType::Double, None),
        Err(DataLogError::EntryTypeMismatch)
    );
    // a checked write with the wrong value type fails too
    let r = writer.write_dynamic(
        entry,
        TimestampedValue { timestamp: 10, value: LogValue::Double(1.5f64.to_bits()) },
    );
    assert_eq!(r, Err(DataLogError::EntryTypeMismatch));
    // the same handle with the right type is returned unchanged
    let again = writer.get_entry_dynamic("k", &ValueType::Int, None).unwrap();
    assert_eq!(again.entry_id, entry.entry_id);
}

#[test]
fn test_graceful_truncation() {
    let mut writer = DataLogWriter::new(1, "").unwrap();
    let entry = writer.get_entry("k", &ValueType::Int, None).unwrap();
    writer.write_timestamped(entry, LogValue::Int(1), 10).unwrap();
    writer.write_timestamped(entry, LogValue::Int(2), 20).unwrap();
    let mut bytes = writer.out.clone();
    bytes.extend_from_slice(&[0xFFu8; 7]);
    let reader = DataLogReader::try_new(bytes.as_slice(), default_config())
        .expect("truncated trailing bytes are dropped");
    assert_eq!(reader.read_entry("k").len(), 2);
}

#[test]
fn test_string_array_bounds_drop_only_bad_record() {
    let mut writer = DataLogWriter::new(1, "").unwrap();
    let entry = writer
        .get_entry("s", &ValueType::StringArray, None)
        .unwrap();
    writer
        .write_timestamped(
            entry,
            LogValue::StringArray(vec!["ab".to_string(), "c".to_string()]),
            10,
        )
        .unwrap();
    // hand-craft a record whose last length field claims more bytes than remain:
    // header bitfield 0 (1-byte id, 1-byte length, 1-byte timestamp)
    let bad_payload: [u8; 6] = [100, 0, 0, 0, b'h', b'i'];
    let mut bytes = writer.out.clone();
    bytes.push(0b000_00_00u8);
    bytes.push(0u8 + entry.entry_id as u8);
    bytes.push(bad_payload.len() as u8);
    bytes.push(20u8);
    bytes.extend_from_slice(&bad_payload);
    let reader = DataLogReader::try_new(bytes.as_slice(), default_config()).unwrap();
    let values = reader.read_entry("s");
    assert_eq!(values.len(), 1);
    assert_eq!(
        values[0].value,
        LogValue::StringArray(vec!["ab".to_string(), "c".to_string()])
    );
}

#[test]
fn test_magic_check() {
    let mut writer = DataLogWriter::new(1, "").unwrap();
    let entry = writer.get_entry("k", &ValueType::Int, None).unwrap();
    writer.write_timestamped(entry, LogValue::Int(1), 10).unwrap();
    let mut bytes = writer.out.clone();
    bytes[0] = b'X';
    let strict = DataLogReader::try_new(bytes.as_slice(), default_config());
    assert!(matches!(strict, Err(DataLogError::MagicMismatch)));
    let lax = DataLogReader::try_new(
        bytes.as_slice(),
        DataLogReaderConfig { require_magic: false, required_version: Some((1, 0)) },
    );
    assert!(lax.is_ok());
    assert_eq!(lax.unwrap().read_entry("k").len(), 1);
}

#[test]
fn test_version_check() {
    let mut writer = DataLogWriter::new(1, "").unwrap();
    let _ = writer.get_entry("k", &ValueType::Int, None).unwrap();
    let mut bytes = writer.out.clone();
    // bytes 6..8 carry [minor, major]; claim major version 2
    bytes[7] = 2;
    let strict = DataLogReader::try_new(bytes.as_slice(), default_config());
    assert!(matches!(strict, Err(DataLogError::VersionMismatch)));
    let lax = DataLogReader::try_new(
        bytes.as_slice(),
        DataLogReaderConfig { require_magic: true, required_version: None },
    );
    assert_eq!(lax.unwrap().get_format_version(), (2, 0));
}

#[test]
fn test_second_start_is_ignored() {
    let mut writer = DataLogWriter::new(1, "").unwrap();
    let entry = writer.get_entry("first", &ValueType::Int, None).unwrap();
    writer.write_timestamped(entry, LogValue::Int(1), 10).unwrap();
    let mut bytes = writer.out.clone();
    // a second Start for the same entry id, with another name and type
    Record::Control(
        ControlRecord::Start("second".to_string(), "double".to_string(), String::new()),
        99,
        entry.entry_id,
    )
    .write_to(&mut bytes)
    .unwrap();
    let reader = DataLogReader::try_new(bytes.as_slice(), default_config()).unwrap();
    // the type timeline is unchanged: one entry, from the first Start
    let types = reader.read_entry_type_str("first");
    assert_eq!(types.len(), 1);
    assert_eq!(types[0].value, "int64".to_string());
    // the second name was never bound
    assert_eq!(reader.read_entry("second").len(), 0);
    assert_eq!(reader.read_entry("first").len(), 1);
}

#[test]
fn test_metadata_record_and_timeline() {
    let mut writer = DataLogWriter::new(1, "").unwrap();
    let entry = writer.get_entry("k", &ValueType::Int, Some("a".to_string())).unwrap();
    let mut bytes = writer.out.clone();
    Record::Control(ControlRecord::Metadata("b".to_string()), 99, entry.entry_id)
        .write_to(&mut bytes)
        .unwrap();
    let reader = DataLogReader::try_new(bytes.as_slice(), default_config()).unwrap();
    let metadata = reader.read_entry_metadata("k");
    assert_eq!(metadata.len(), 2);
    assert!(metadata.iter().any(|tv| tv.value == "a"));
    assert!(metadata.iter().any(|tv| tv.value == "b" && tv.timestamp == 99));
}

#[test]
fn test_structify_wraps_registered_raw_values() {
    frclib_core::structure::FrcStructDescDB::add(frclib_core::structure::FrcStructDesc {
        schema_supplier: || String::new(),
        type_str: "MyPose",
        size: 3,
    });
    let mut writer = DataLogWriter::new(1, "").unwrap();
    let entry = writer
        .get_entry_dynamic("p", &ValueType::Struct("MyPose".to_string(), 3), None)
        .unwrap();
    writer
        .write_dynamic(
            entry,
            TimestampedValue {
                timestamp: 1 << 60,
                value: LogValue::Struct(frclib_datalog::value::StructBytes {
                    type_str: "MyPose".to_string(),
                    size: 3,
                    count: 1,
                    data: vec![1, 2, 3],
                }),
            },
        )
        .unwrap();
    let mut reader = DataLogReader::try_new(writer.out.as_slice(), default_config()).unwrap();
    // struct payloads come back raw before the post-pass
    let raw = reader.read_entry("p");
    assert_eq!(raw.len(), 1);
    assert_eq!(raw[0].value, LogValue::Raw(vec![1, 2, 3]));
    reader.structify_all_data();
    let wrapped = reader.read_entry("p");
    assert_eq!(wrapped.len(), 1);
    match &wrapped[0].value {
        LogValue::Struct(sb) => {
            assert_eq!(sb.type_str, "MyPose".to_string());
            assert_eq!(sb.size, 3);
            assert_eq!(sb.count, 1);
            assert_eq!(sb.data, vec![1, 2, 3]);
        }
        other => panic!("expected a struct value, got {:?}", other),
    }
}

#[test]
fn test_write_at_current_time() {
    let mut writer = DataLogWriter::new(1, "").unwrap();
    let entry = writer.get_entry("k", &ValueType::Int, None).unwrap();
    writer.write(entry, LogValue::Int(5)).expect("write at current time");
    let reader = DataLogReader::try_new(writer.out.as_slice(), default_config()).unwrap();
    assert_eq!(reader.read_entry("k").len(), 1);
}

#[test]
fn test_unknown_entry_rejected() {
    let mut writer = DataLogWriter::new(1, "").unwrap();
    let r = writer.write_dynamic(
        EntryId::new(1, 99),
        TimestampedValue { timestamp: 10, value: LogValue::Int(1) },
    );
    assert_eq!(r, Err(DataLogError::NoSuchEntry));
    assert_eq!(writer.close_entry(EntryId::new(1, 99)), Err(DataLogError::NoSuchEntry));
}
