use dbase::{read, ByteSource, Date, Error, FieldType, FieldValue, Reader, Record};

fn header_bytes(num_records: u32, offset: u16, record_size: u16) -> Vec<u8> {
    let mut bytes = vec![0u8; 32];
    bytes[0] = 0x03;
    bytes[1] = 124;
    bytes[2] = 2;
    bytes[3] = 29;
    bytes[4..8].copy_from_slice(&num_records.to_le_bytes());
    bytes[8..10].copy_from_slice(&offset.to_le_bytes());
    bytes[10..12].copy_from_slice(&record_size.to_le_bytes());
    bytes
}

fn descriptor_bytes(name: &[u8], tag: u8, length: u8, decimals: u8) -> Vec<u8> {
    let mut bytes = vec![0u8; 32];
    bytes[..name.len()].copy_from_slice(name);
    bytes[11] = tag;
    bytes[16] = length;
    bytes[17] = decimals;
    bytes
}

fn table(num_records: u32, fields: &[(&[u8], u8, u8)], records: &[&[u8]]) -> Vec<u8> {
    let offset = 32 + 32 * fields.len() as u16 + 1;
    let mut width: u16 = 1;
    for field in fields {
        width += field.2 as u16;
    }
    let mut bytes = header_bytes(num_records, offset, width);
    for field in fields {
        bytes.extend(descriptor_bytes(field.0, field.1, field.2, 0));
    }
    bytes.push(0x0D);
    for record in records {
        bytes.extend_from_slice(record);
    }
    bytes
}

fn people() -> Vec<u8> {
    table(
        3,
        &[(b"NAME", b'C', 10), (b"AGE", b'N', 3), (b"BORN", b'D', 8), (b"OK", b'L', 1)],
        &[b" Alice      3719870412T", b"*Bob         819990101f", b" Carol\0\0\0\0\0           ?"],
    )
}

fn text(value: Option<&FieldValue>) -> String {
    match value {
        Some(FieldValue::Character(s)) => s.clone(),
        Some(FieldValue::Numeric(Some(s))) => s.clone(),
        Some(FieldValue::Float(Some(s))) => s.clone(),
        Some(FieldValue::Memo(s)) => s.clone(),
        _ => panic!("not a text value"),
    }
}

fn read_err(data: Vec<u8>) -> Error {
    match read(data) {
        Ok(_) => panic!("the table was read"),
        Err(e) => e,
    }
}

fn open_err(data: Vec<u8>) -> Error {
    match Reader::new(ByteSource::new(data)) {
        Ok(_) => panic!("the table was opened"),
        Err(e) => e,
    }
}

fn next_record(reader: &mut Reader) -> Record {
    match reader.next() {
        Some(Ok(record)) => record,
        Some(Err(e)) => panic!("the record failed: {:?}", e),
        None => panic!("no record left"),
    }
}

#[test]
fn one_character_field_one_record() {
    let data = table(1, &[(b"NAME", b'C', 10)], &[b" Alice     "]);
    let records = read(data).unwrap_or_else(|e| panic!("{:?}", e));
    assert_eq!(records.len(), 1);
    assert_eq!(records[0].len(), 1);
    assert_eq!(records[0].get("NAME"), Some(&FieldValue::Character("Alice".to_string())));
    assert!(!records[0].contains_key("DeletionFlag"));
    assert_eq!(records[0].get("DeletionFlag"), None);
}

#[test]
fn reads_as_many_records_as_declared() {
    let records = read(people()).unwrap_or_else(|e| panic!("{:?}", e));
    assert_eq!(records.len(), 3);
    assert_eq!(text(records[0].get("NAME")), "Alice");
    assert_eq!(text(records[1].get("NAME")), "Bob");
    assert_eq!(text(records[2].get("NAME")), "Carol");
}

#[test]
fn declared_count_bounds_the_records_read() {
    let mut data = table(2, &[(b"N", b'C', 1)], &[b" a", b" b", b" c"]);
    let two = read(data.clone()).unwrap_or_else(|e| panic!("{:?}", e));
    assert_eq!(two.len(), 2);
    data[4] = 3;
    let three = read(data.clone()).unwrap_or_else(|e| panic!("{:?}", e));
    assert_eq!(three.len(), 3);
    data[4] = 4;
    assert_eq!(read_err(data), Error::IoError);
}

#[test]
fn values_are_typed() {
    let records = read(people()).unwrap_or_else(|e| panic!("{:?}", e));
    assert_eq!(records[0].get("AGE"), Some(&FieldValue::Numeric(Some("37".to_string()))));
    assert_eq!(
        records[0].get("BORN"),
        Some(&FieldValue::Date(Some(Date { year: 1987, month: 4, day: 12 })))
    );
    assert_eq!(records[0].get("OK"), Some(&FieldValue::Logical(Some(true))));
    assert_eq!(records[1].get("AGE"), Some(&FieldValue::Numeric(Some("8".to_string()))));
    assert_eq!(records[1].get("OK"), Some(&FieldValue::Logical(Some(false))));
    assert_eq!(records[2].get("AGE"), Some(&FieldValue::Numeric(None)));
    assert_eq!(records[2].get("BORN"), Some(&FieldValue::Date(None)));
    assert_eq!(records[2].get("OK"), Some(&FieldValue::Logical(None)));
    assert_eq!(records[2].len(), 4);
}

#[test]
fn descriptor_table_has_one_entry_more_than_on_disk() {
    let reader = Reader::new(ByteSource::new(people())).unwrap_or_else(|e| panic!("{:?}", e));
    assert_eq!(reader.header().num_fields(), 4);
    assert_eq!(reader.fields().len(), 5);
    assert_eq!(reader.fields()[0].name, "DeletionFlag");
    assert_eq!(reader.fields()[0].field_type, FieldType::Character);
    assert_eq!(reader.fields()[0].record_length, 1);
    assert_eq!(reader.fields()[1].name, "NAME");
    assert_eq!(reader.fields()[1].record_length, 10);
    assert_eq!(reader.fields()[2].field_type, FieldType::Numeric);
    assert_eq!(reader.fields()[3].field_type, FieldType::Date);
    assert_eq!(reader.fields()[4].field_type, FieldType::Logical);
}

#[test]
fn deletion_flag_is_never_a_key() {
    let records = read(people()).unwrap_or_else(|e| panic!("{:?}", e));
    for record in &records {
        assert!(!record.contains_key("DeletionFlag"));
        assert_eq!(record.len(), 4);
    }
}

#[test]
fn header_fields_are_little_endian() {
    let mut data = table(0, &[(b"A", b'C', 1)], &[]);
    data[4..8].copy_from_slice(&[0x04, 0x03, 0x02, 0x01]);
    data[10..12].copy_from_slice(&[0x34, 0x12]);
    let reader = Reader::new(ByteSource::new(data)).unwrap_or_else(|e| panic!("{:?}", e));
    assert_eq!(reader.header().num_records, 0x0102_0304);
    assert_eq!(reader.header().offset_to_first_record, 65);
    assert_eq!(reader.header().size_of_record, 0x1234);
    assert_eq!(reader.header().file_type, 0x03);
    assert_eq!(reader.records_read(), 0);
}

#[test]
fn iteration_is_lazy_and_in_order() {
    let mut reader = Reader::new(ByteSource::new(people())).unwrap_or_else(|e| panic!("{:?}", e));
    assert_eq!(reader.records_read(), 0);
    assert_eq!(text(next_record(&mut reader).get("NAME")), "Alice");
    assert_eq!(reader.records_read(), 1);
    assert_eq!(text(next_record(&mut reader).get("NAME")), "Bob");
    assert_eq!(reader.records_read(), 2);
    let rest = reader.read().unwrap_or_else(|e| panic!("{:?}", e));
    assert_eq!(rest.len(), 1);
    assert_eq!(text(rest[0].get("NAME")), "Carol");
}

#[test]
fn end_of_sequence_is_idempotent() {
    let mut reader = Reader::new(ByteSource::new(people())).unwrap_or_else(|e| panic!("{:?}", e));
    for _ in 0..3 {
        assert!(matches!(reader.next(), Some(Ok(_))));
    }
    for _ in 0..5 {
        assert!(reader.next().is_none());
        assert_eq!(reader.records_read(), 3);
    }
    let rest = reader.read().unwrap_or_else(|e| panic!("{:?}", e));
    assert!(rest.is_empty());
}

#[test]
fn zero_records_yield_nothing() {
    let data = table(0, &[(b"NAME", b'C', 10)], &[]);
    let mut reader = Reader::new(ByteSource::new(data.clone())).unwrap_or_else(|e| panic!("{:?}", e));
    assert!(reader.next().is_none());
    assert!(reader.next().is_none());
    let records = read(data).unwrap_or_else(|e| panic!("{:?}", e));
    assert!(records.is_empty());
}

#[test]
fn zero_records_ignore_trailing_bytes() {
    let data = table(0, &[(b"NAME", b'C', 10)], &[b" ignored   "]);
    let records = read(data).unwrap_or_else(|e| panic!("{:?}", e));
    assert!(records.is_empty());
}

#[test]
fn table_without_columns() {
    let data = table(2, &[], &[b" ", b"*"]);
    let reader = Reader::new(ByteSource::new(data)).unwrap_or_else(|e| panic!("{:?}", e));
    assert_eq!(reader.fields().len(), 1);
    let records = reader.read().unwrap_or_else(|e| panic!("{:?}", e));
    assert_eq!(records.len(), 2);
    assert!(records[0].is_empty());
    assert!(records[1].is_empty());
}

#[test]
fn corrupt_terminator_fails_every_time() {
    let mut data = people();
    let at = 32 + 4 * 32;
    assert_eq!(data[at], 0x0D);
    for byte in [0x00u8, 0x0A, 0x0C, 0x0E, 0x1A, 0x20, 0xFF] {
        data[at] = byte;
        assert_eq!(open_err(data.clone()), Error::UnexpectedTerminator);
        assert_eq!(open_err(data.clone()), Error::UnexpectedTerminator);
        assert_eq!(read_err(data.clone()), Error::UnexpectedTerminator);
    }
    data[at] = 0x0D;
    assert!(read(data).is_ok());
}

#[test]
fn missing_terminator_is_an_io_error() {
    let mut data = table(0, &[(b"NAME", b'C', 10)], &[]);
    data.pop();
    assert_eq!(open_err(data), Error::IoError);
}

#[test]
fn two_copies_decode_alike() {
    let first = read(people()).unwrap_or_else(|e| panic!("{:?}", e));
    let second = read(people()).unwrap_or_else(|e| panic!("{:?}", e));
    assert_eq!(first.len(), second.len());
    for i in 0..first.len() {
        assert_eq!(first[i].len(), second[i].len());
        for name in ["NAME", "AGE", "BORN", "OK"] {
            assert!(first[i].get(name).is_some());
            assert_eq!(first[i].get(name), second[i].get(name));
        }
    }
}

#[test]
fn short_header_is_an_io_error() {
    assert_eq!(read_err(Vec::new()), Error::IoError);
    assert_eq!(read_err(vec![0u8; 31]), Error::IoError);
}

#[test]
fn offset_without_room_for_terminator_is_malformed() {
    for offset in [0u16, 31, 32, 64, 66, 96, 296] {
        let mut data = header_bytes(0, offset, 1);
        data.extend(vec![0x0Du8; 400]);
        assert_eq!(read_err(data), Error::MalformedHeader);
    }
    let mut data = header_bytes(0, 33, 1);
    data.push(0x0D);
    assert!(read(data).is_ok());
}

#[test]
fn truncated_descriptor_is_an_io_error() {
    let mut data = table(0, &[(b"NAME", b'C', 10), (b"AGE", b'N', 3)], &[]);
    data.truncate(32 + 32 + 31);
    assert_eq!(open_err(data), Error::IoError);
}

#[test]
fn unknown_type_tag_is_a_malformed_descriptor() {
    let data = table(0, &[(b"NAME", b'C', 10), (b"WHAT", b'Z', 3)], &[]);
    assert_eq!(open_err(data), Error::MalformedFieldDescriptor);
}

#[test]
fn empty_name_is_a_malformed_descriptor() {
    let data = table(0, &[(b"", b'C', 10)], &[]);
    assert_eq!(open_err(data), Error::MalformedFieldDescriptor);
    let data = table(0, &[(b"\0NAME", b'C', 10)], &[]);
    assert_eq!(open_err(data), Error::MalformedFieldDescriptor);
}

#[test]
fn first_failing_descriptor_decides() {
    let mut data = table(0, &[(b"NAME", b'Z', 10), (b"AGE", b'N', 3)], &[]);
    data.truncate(32 + 32 + 5);
    assert_eq!(open_err(data), Error::MalformedFieldDescriptor);
}

#[test]
fn names_end_at_the_first_nul() {
    let data = table(0, &[(b"AB\0CD", b'C', 1), (b"ELEVENCHARS", b'C', 1), (b"caf\xE9", b'C', 1)], &[]);
    let reader = Reader::new(ByteSource::new(data)).unwrap_or_else(|e| panic!("{:?}", e));
    assert_eq!(reader.fields()[1].name, "AB");
    assert_eq!(reader.fields()[2].name, "ELEVENCHARS");
    assert_eq!(reader.fields()[3].name, "caf\u{e9}");
}

#[test]
fn truncated_record_is_an_io_error() {
    let data = table(2, &[(b"NAME", b'C', 10)], &[b" Alice     ", b" Bob"]);
    let mut reader = Reader::new(ByteSource::new(data.clone())).unwrap_or_else(|e| panic!("{:?}", e));
    assert_eq!(text(next_record(&mut reader).get("NAME")), "Alice");
    assert!(matches!(reader.next(), Some(Err(Error::IoError))));
    assert_eq!(reader.records_read(), 1);
    assert_eq!(read_err(data), Error::IoError);
}

#[test]
fn invalid_field_data_is_yielded_in_place_of_the_record() {
    let data = table(2, &[(b"OK", b'L', 1)], &[b" T", b" x"]);
    let mut reader = Reader::new(ByteSource::new(data.clone())).unwrap_or_else(|e| panic!("{:?}", e));
    assert!(matches!(reader.next(), Some(Ok(_))));
    assert!(matches!(reader.next(), Some(Err(Error::InvalidFieldData))));
    assert_eq!(read_err(data), Error::InvalidFieldData);
}

#[test]
fn first_failing_field_decides() {
    let data = table(1, &[(b"OK", b'L', 1), (b"NAME", b'C', 10)], &[b" x"]);
    assert_eq!(read_err(data), Error::InvalidFieldData);
    let data = table(1, &[(b"NAME", b'C', 10), (b"OK", b'L', 1)], &[b" x"]);
    assert_eq!(read_err(data), Error::IoError);
}

#[test]
fn later_field_of_the_same_name_wins() {
    let data = table(1, &[(b"V", b'C', 3), (b"V", b'N', 3)], &[b" abc 42"]);
    let records = read(data).unwrap_or_else(|e| panic!("{:?}", e));
    assert_eq!(records[0].len(), 1);
    assert_eq!(records[0].get("V"), Some(&FieldValue::Numeric(Some("42".to_string()))));
}

#[test]
fn reader_starts_at_the_source_position() {
    let mut data = vec![0xAAu8; 7];
    data.extend(table(1, &[(b"NAME", b'C', 10)], &[b" Alice     "]));
    let mut source = ByteSource::new(data);
    assert!(source.read_exact(7).is_ok());
    let reader = Reader::new(source).unwrap_or_else(|e| panic!("{:?}", e));
    let records = reader.read().unwrap_or_else(|e| panic!("{:?}", e));
    assert_eq!(records.len(), 1);
    assert_eq!(text(records[0].get("NAME")), "Alice");
}

#[test]
fn record_width_counts_the_deletion_flag() {
    let reader = Reader::new(ByteSource::new(people())).unwrap_or_else(|e| panic!("{:?}", e));
    assert_eq!(reader.record_width(), 1 + 10 + 3 + 8 + 1);
    let bare = Reader::new(ByteSource::new(table(0, &[], &[]))).unwrap_or_else(|e| panic!("{:?}", e));
    assert_eq!(bare.record_width(), 1);
}

#[test]
fn missing_bytes_can_be_supplied() {
    let data = people();
    let start = 32 + 4 * 32 + 1;
    let mut reader =
        Reader::new(ByteSource::new(data[..start].to_vec())).unwrap_or_else(|e| panic!("{:?}", e));
    assert_eq!(reader.missing(), 23);
    assert!(matches!(reader.next(), Some(Err(Error::IoError))));
    assert_eq!(reader.records_read(), 0);
    reader.supply(&data[start..start + 20]);
    assert_eq!(reader.missing(), 3);
    reader.supply(&data[start + 20..start + 30]);
    assert_eq!(reader.missing(), 0);
    assert_eq!(text(next_record(&mut reader).get("NAME")), "Alice");
    assert_eq!(reader.missing(), 23 - 7);
    reader.supply(&data[start + 30..]);
    assert_eq!(reader.missing(), 0);
    assert_eq!(text(next_record(&mut reader).get("NAME")), "Bob");
    assert_eq!(text(next_record(&mut reader).get("NAME")), "Carol");
    assert_eq!(reader.missing(), 0);
    assert!(reader.next().is_none());
    reader.supply(b"more");
    assert_eq!(reader.missing(), 0);
    assert!(reader.next().is_none());
}

#[test]
fn supplied_bytes_do_not_change_what_was_buffered() {
    let mut fed = Reader::new(ByteSource::new(people())).unwrap_or_else(|e| panic!("{:?}", e));
    let mut plain = Reader::new(ByteSource::new(people())).unwrap_or_else(|e| panic!("{:?}", e));
    fed.supply(b"trailing bytes");
    for _ in 0..3 {
        let a = next_record(&mut fed);
        let b = next_record(&mut plain);
        for name in ["NAME", "AGE", "BORN", "OK"] {
            assert_eq!(a.get(name), b.get(name));
        }
    }
    assert!(fed.next().is_none());
    assert!(plain.next().is_none());
}
