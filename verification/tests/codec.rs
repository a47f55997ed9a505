//! Record codec round trips, framing lengths, and the type fingerprint.
use std::collections::HashMap;

use frclib_datalog::proto::entries::get_str_type_serial;
use frclib_datalog::proto::records::{ControlRecord, DataRecord, Record};
use frclib_datalog::proto::util::UInt;

fn test_record_type(payload: DataRecord) {
    let timestamp: u64 = 123_456_789;
    let entry_id: u32 = 1 << 24;
    let timestamp_size = UInt::new(8, timestamp).get_byte_count();
    let entry_id_size = UInt::new(4, entry_id as u64).get_byte_count();
    let payload_package_size = payload
        .binary_payload_size()
        .expect("payload size greater than u32::MAX");
    let payload_len_size = UInt::new(4, payload_package_size as u64).get_byte_count();
    let type_str = payload.get_data_type();
    let record = Record::Data(payload.clone(), timestamp, entry_id);
    let mut bytes: Vec<u8> = Vec::new();
    record.clone().write_to(&mut bytes).expect("failed to write record");
    assert_eq!(
        bytes.len(),
        1 + entry_id_size as usize
            + payload_len_size as usize
            + timestamp_size as usize
            + payload_package_size as usize
    );

    let mut type_map: HashMap<u32, u32> = HashMap::new();
    type_map.insert(entry_id, get_str_type_serial(type_str.as_str()));
    let rerecord = Record::from_binary(&bytes, &type_map).expect("failed to read record");
    assert_eq!(rerecord.is_data(), record.is_data());
    assert_eq!(rerecord.get_id(), record.get_id());
    assert_eq!(rerecord.get_timestamp(), record.get_timestamp());
    assert_eq!(
        rerecord.as_data().expect("rerecord was not a data record"),
        record.as_data().expect("record was not a data record")
    );
}

#[test]
fn test_record_types() {
    test_record_type(DataRecord::Boolean(true));
    test_record_type(DataRecord::Integer(10));
    test_record_type(DataRecord::Float(10.0f32.to_bits()));
    test_record_type(DataRecord::Double(10.0f64.to_bits()));
    test_record_type(DataRecord::Str("owo".to_string()));
    test_record_type(DataRecord::BooleanArray(vec![true, false, true]));
    test_record_type(DataRecord::IntegerArray(vec![1, 2, 3]));
    test_record_type(DataRecord::FloatArray(vec![
        1.0f32.to_bits(),
        2.0f32.to_bits(),
        3.0f32.to_bits(),
    ]));
    test_record_type(DataRecord::DoubleArray(vec![
        1.0f64.to_bits(),
        2.0f64.to_bits(),
        3.0f64.to_bits(),
    ]));
    test_record_type(DataRecord::StringArray(vec![
        "owo".to_string(),
        "uwu".to_string(),
    ]));
    test_record_type(DataRecord::Raw(vec![1, 2, 3, 4]));
}

#[test]
fn test_type_serial() {
    assert!(4512 == get_str_type_serial("test"));
    assert_eq!(get_str_type_serial("raw"), 1998);
    assert_eq!(get_str_type_serial("int64"), 5750);
    assert_eq!(get_str_type_serial("string[]"), 23320);
}

#[test]
fn test_varuint_round_trip() {
    for v in [0u64, 1, 255, 256, 65_535, 65_536, 0xFF_FFFF_FFFF, u64::MAX] {
        let shrunk = UInt::new(8, v).shrink();
        let bytes = shrunk.as_binary();
        assert_eq!(bytes.len(), shrunk.get_byte_count() as usize);
        let back = UInt::from_binary(bytes.as_slice()).expect("at most eight bytes");
        assert_eq!(back.get_value(), v);
        assert_eq!(back.get_byte_count(), shrunk.get_byte_count());
    }
    assert!(UInt::from_binary(&[0u8; 9]).is_none());
}

#[test]
fn test_control_record_round_trip() {
    let mut type_map: HashMap<u32, u32> = HashMap::new();
    for (record, id) in [
        (
            ControlRecord::Start("x".to_string(), "int64".to_string(), "{}".to_string()),
            7u32,
        ),
        (ControlRecord::Finish, 9),
        (ControlRecord::Metadata("meta".to_string()), 11),
    ] {
        let mut bytes: Vec<u8> = Vec::new();
        Record::Control(record.clone(), 42, id)
            .write_to(&mut bytes)
            .expect("failed to write control record");
        let back = Record::from_binary(&bytes, &type_map).expect("failed to read control record");
        assert!(back.is_control());
        assert_eq!(back.get_id(), id);
        assert_eq!(back.get_timestamp(), 42);
        assert_eq!(back.as_control().unwrap(), &record);
        let _ = &mut type_map;
    }
}

#[test]
fn test_two_records_concatenated_decode_in_order() {
    let mut bytes: Vec<u8> = Vec::new();
    Record::Data(DataRecord::Integer(5), 1, 3)
        .write_to(&mut bytes)
        .unwrap();
    Record::Data(DataRecord::Integer(6), 2, 3)
        .write_to(&mut bytes)
        .unwrap();
    let mut type_map: HashMap<u32, u32> = HashMap::new();
    type_map.insert(3, get_str_type_serial("int64"));
    let records =
        frclib_datalog::proto::records::parse_records(&bytes, &mut type_map).unwrap();
    assert_eq!(records.len(), 2);
    assert_eq!(records[0].get_timestamp(), 1);
    assert_eq!(records[1].get_timestamp(), 2);
    assert_eq!(
        records[0].as_data().unwrap(),
        &DataRecord::Integer(5)
    );
    assert_eq!(
        records[1].as_data().unwrap(),
        &DataRecord::Integer(6)
    );
}

#[test]
fn test_truncated_stream_keeps_valid_prefix() {
    let mut bytes: Vec<u8> = Vec::new();
    Record::Data(DataRecord::Integer(5), 1, 3).write_to(&mut bytes).unwrap();
    let full_len = bytes.len();
    Record::Data(DataRecord::Integer(6), 2, 3).write_to(&mut bytes).unwrap();
    // cut inside the second record
    bytes.truncate(full_len + 3);
    let mut type_map: HashMap<u32, u32> = HashMap::new();
    type_map.insert(3, get_str_type_serial("int64"));
    let records =
        frclib_datalog::proto::records::parse_records(&bytes, &mut type_map).unwrap();
    assert_eq!(records.len(), 1);
    assert_eq!(records[0].as_data().unwrap(), &DataRecord::Integer(5));
}

#[test]
fn test_unknown_type_decodes_as_raw() {
    let mut bytes: Vec<u8> = Vec::new();
    Record::Data(DataRecord::Integer(5), 1, 3).write_to(&mut bytes).unwrap();
    // no type binding for entry 3: the payload comes back as raw bytes
    let type_map: HashMap<u32, u32> = HashMap::new();
    let record = Record::from_binary(&bytes, &type_map).unwrap();
    assert_eq!(
        record.as_data().unwrap(),
        &DataRecord::Raw(5i64.to_le_bytes().to_vec())
    );
}

#[test]
fn test_string_decode_rejects_invalid_utf8() {
    let serial = get_str_type_serial("string");
    assert!(DataRecord::from_binary(&[0xFF, 0xFE], serial).is_err());
    let ok = DataRecord::from_binary("h\u{e9}llo".as_bytes(), serial).unwrap();
    assert_eq!(ok, DataRecord::Str("h\u{e9}llo".to_string()));
}

#[test]
fn test_unsupported_control_discriminator_rejected() {
    // discriminator 3 is not a control record type
    let payload = [3u8, 1, 0, 0, 0];
    assert!(ControlRecord::from_binary(&payload).is_err());
}

#[test]
fn test_string_array_length_field_overruns_payload() {
    let serial = get_str_type_serial("string[]");
    // one element claiming 100 bytes with only 2 present
    let payload = [100u8, 0, 0, 0, b'h', b'i'];
    assert!(DataRecord::from_binary(&payload, serial).is_err());
}

#[test]
fn test_data_record_exact_bytes() {
    let mut bytes: Vec<u8> = Vec::new();
    Record::Data(DataRecord::Integer(1), 2, 3).write_to(&mut bytes).unwrap();
    // bitfield 0: one byte each for id, payload length and timestamp
    assert_eq!(bytes, vec![0x00, 0x03, 0x08, 0x02, 1, 0, 0, 0, 0, 0, 0, 0]);
}

#[test]
fn test_metadata_payload_layout_is_id_first() {
    let mut bytes: Vec<u8> = Vec::new();
    Record::Control(ControlRecord::Metadata("ab".to_string()), 1, 7)
        .write_to(&mut bytes)
        .unwrap();
    // frame: bitfield, entry id 0, payload length 11, timestamp 1;
    // payload: discriminator 2, logical entry id, metadata length, bytes
    assert_eq!(
        bytes,
        vec![0x00, 0x00, 0x0B, 0x01, 0x02, 7, 0, 0, 0, 2, 0, 0, 0, b'a', b'b']
    );
}
