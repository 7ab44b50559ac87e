use binlog_value::binlog::resolve_column_type;
use binlog_value::column_type::ColumnType;
use binlog_value::error::DecodeError;
use binlog_value::parse_buf::ParseBuf;
use binlog_value::value::{BinlogValue, JsonDiff, JsonDiffOperation, JsonbValue, RawBytes, Value};

fn decode<'a>(
    t: ColumnType,
    meta: &[u8],
    unsigned: bool,
    partial: bool,
    data: &'a [u8],
) -> (Result<BinlogValue<'a>, DecodeError>, usize) {
    let mut buf = ParseBuf::new(data);
    let r = BinlogValue::deserialize(t, meta, unsigned, partial, &mut buf);
    (r, buf.pos)
}

fn bytes(s: &[u8]) -> BinlogValue<'static> {
    BinlogValue::Value(Value::Bytes(s.to_vec()))
}

#[test]
fn year_decodes_to_text() {
    let (r, n) = decode(ColumnType::MYSQL_TYPE_YEAR, &[], false, false, &[0x7D]);
    assert_eq!(r, Ok(bytes(b"2025")));
    assert_eq!(n, 1);
}

#[test]
fn newdate_follows_packed_fields() {
    let v: u32 = 0x27AB5;
    let data = [(v & 0xFF) as u8, ((v >> 8) & 0xFF) as u8, (v >> 16) as u8];
    let (r, n) = decode(ColumnType::MYSQL_TYPE_NEWDATE, &[], false, false, &data);
    let day = (v & 31) as u8;
    let month = ((v >> 5) & 15) as u8;
    let year = (v >> 9) as u16;
    assert_eq!(r, Ok(BinlogValue::Value(Value::Date(year, month, day, 0, 0, 0, 0))));
    assert_eq!(n, 3);
}

#[test]
fn legacy_time_splits_digits() {
    let v: u32 = 101112;
    let data = [(v & 0xFF) as u8, ((v >> 8) & 0xFF) as u8, (v >> 16) as u8];
    let (r, n) = decode(ColumnType::MYSQL_TYPE_TIME, &[], false, false, &data);
    assert_eq!(r, Ok(BinlogValue::Value(Value::Time(false, 0, 10, 11, 12, 0))));
    assert_eq!(n, 3);
}

#[test]
fn legacy_datetime_splits_digits() {
    let data = 20230615143000u64.to_le_bytes();
    let (r, n) = decode(ColumnType::MYSQL_TYPE_DATETIME, &[], false, false, &data);
    assert_eq!(r, Ok(BinlogValue::Value(Value::Date(2023, 6, 15, 14, 30, 0, 0))));
    assert_eq!(n, 8);
}

#[test]
fn enum_index_by_storage_width() {
    let (r, n) = decode(ColumnType::MYSQL_TYPE_ENUM, &[0, 2], false, false, &[0x02, 0x00]);
    assert_eq!(r, Ok(BinlogValue::Value(Value::Int(2))));
    assert_eq!(n, 2);
    let (r, n) = decode(ColumnType::MYSQL_TYPE_ENUM, &[0, 1], false, false, &[0x07, 0x00]);
    assert_eq!(r, Ok(BinlogValue::Value(Value::Int(7))));
    assert_eq!(n, 1);
}

#[test]
fn enum_unknown_width_fails() {
    let (r, n) = decode(ColumnType::MYSQL_TYPE_ENUM, &[0xF7, 3], false, false, &[0x02, 0x00, 0x00]);
    assert_eq!(r, Err(DecodeError::UnknownEnum));
    assert_eq!(n, 0);
    assert_eq!(DecodeError::UnknownEnum.message(), "Unknown ENUM");
}

#[test]
fn varchar_long_declared_uses_two_byte_prefix() {
    // declared 300: the prefix is two bytes, and the buffer is consumed exactly
    let meta = [(300u16 & 0xFF) as u8, (300u16 >> 8) as u8];
    let data = [2, 0, b'h', b'i'];
    let (r, n) = decode(ColumnType::MYSQL_TYPE_VARCHAR, &meta, false, false, &data);
    assert_eq!(r, Ok(bytes(b"hi")));
    assert_eq!(n, 4);
}

#[test]
fn varchar_short_declared_uses_one_byte_prefix() {
    let meta = [100, 0];
    let data = [2, b'h', b'i'];
    let (r, n) = decode(ColumnType::MYSQL_TYPE_VARCHAR, &meta, false, false, &data);
    assert_eq!(r, Ok(bytes(b"hi")));
    assert_eq!(n, 3);
    // read with a two-byte prefix, the same bytes would not fit
    let long_meta = [0x2C, 0x01];
    let (r, _) = decode(ColumnType::MYSQL_TYPE_VAR_STRING, &long_meta, false, false, &data);
    assert_eq!(r, Err(DecodeError::UnexpectedEof));
}

fn diff_records() -> (Vec<u8>, usize) {
    let mut recs: Vec<u8> = Vec::new();
    // REPLACE "$.a" with a two-byte value
    recs.extend_from_slice(&[0, 3, b'$', b'.', b'a', 2, 0x04, 0x01]);
    // REMOVE "$.b"
    recs.extend_from_slice(&[2, 3, b'$', b'.', b'b']);
    let last_start = recs.len();
    // INSERT "$.c" with a three-byte value
    recs.extend_from_slice(&[1, 3, b'$', b'.', b'c', 3, 0x05, 0x07, 0x00]);
    (recs, last_start)
}

fn with_json_length(doc: &[u8]) -> Vec<u8> {
    let mut data = (doc.len() as u32).to_le_bytes().to_vec();
    data.extend_from_slice(doc);
    data
}

#[test]
fn partial_json_yields_each_record() {
    let (recs, _) = diff_records();
    let data = with_json_length(&recs);
    let (r, n) = decode(ColumnType::MYSQL_TYPE_JSON, &[], false, true, &data);
    assert_eq!(n, data.len());
    match r {
        Ok(BinlogValue::JsonDiff(ds)) => {
            assert_eq!(ds.len(), 3);
            assert_eq!(ds[0].operation, JsonDiffOperation::REPLACE);
            assert_eq!(ds[0].path.as_slice(), b"$.a");
            assert_eq!(ds[0].value.as_ref().unwrap().data.as_slice(), &[0x04, 0x01]);
            assert_eq!(ds[1].operation, JsonDiffOperation::REMOVE);
            assert_eq!(ds[1].path.as_slice(), b"$.b");
            assert!(ds[1].value.is_none());
            assert_eq!(ds[2].operation, JsonDiffOperation::INSERT);
            assert_eq!(ds[2].value.as_ref().unwrap().data.as_slice(), &[0x05, 0x07, 0x00]);
        }
        other => panic!("unexpected {:?}", other),
    }
}

#[test]
fn partial_json_stops_after_its_records() {
    let (recs, _) = diff_records();
    let mut data = with_json_length(&recs);
    let end = data.len();
    data.extend_from_slice(&[0xAA, 0xBB]);
    let (r, n) = decode(ColumnType::MYSQL_TYPE_JSON, &[], false, true, &data);
    assert_eq!(n, end);
    match r {
        Ok(BinlogValue::JsonDiff(ds)) => assert_eq!(ds.len(), 3),
        other => panic!("unexpected {:?}", other),
    }
    let (r, n) = decode(ColumnType::MYSQL_TYPE_JSON, &[], false, true, &[0, 0, 0, 0, 0xAA]);
    assert_eq!(r, Ok(BinlogValue::JsonDiff(vec![])));
    assert_eq!(n, 4);
}

#[test]
fn partial_json_truncated_last_record_fails() {
    let (recs, last_start) = diff_records();
    for cut in last_start + 1..recs.len() {
        let data = with_json_length(&recs[..cut]);
        let (r, _) = decode(ColumnType::MYSQL_TYPE_JSON, &[], false, true, &data);
        assert_eq!(r, Err(DecodeError::UnexpectedEof));
    }
}

#[test]
fn partial_json_bad_operation_fails() {
    let data = with_json_length(&[7, 1, b'$']);
    let (r, _) = decode(ColumnType::MYSQL_TYPE_JSON, &[], false, true, &data);
    assert_eq!(r, Err(DecodeError::UnknownJsonDiffOperation));
}

#[test]
fn partial_json_bad_length_encoding_fails() {
    let data = with_json_length(&[0, 0xFB, b'$']);
    let (r, _) = decode(ColumnType::MYSQL_TYPE_JSON, &[], false, true, &data);
    assert_eq!(r, Err(DecodeError::InvalidLengthEncodedInt));
}

#[test]
fn partial_json_two_byte_length_encoding() {
    let mut doc = vec![2, 0xFC, 3, 0];
    doc.extend_from_slice(b"$.x");
    let data = with_json_length(&doc);
    let (r, _) = decode(ColumnType::MYSQL_TYPE_JSON, &[], false, true, &data);
    let expected = vec![JsonDiff {
        path: RawBytes::Owned(b"$.x".to_vec()),
        operation: JsonDiffOperation::REMOVE,
        value: None,
    }];
    assert_eq!(r.unwrap().into_owned(), BinlogValue::JsonDiff(expected));
}

#[test]
fn whole_json_document_is_kept() {
    let doc = [0x04, 0x01];
    let data = with_json_length(&doc);
    let (r, n) = decode(ColumnType::MYSQL_TYPE_JSON, &[], false, false, &data);
    assert_eq!(r, Ok(BinlogValue::Jsonb(JsonbValue { data: RawBytes::Owned(doc.to_vec()) })));
    assert_eq!(n, 6);
}

#[test]
fn owned_value_outlives_buffer() {
    let (recs, _) = diff_records();
    let data = with_json_length(&recs);
    let owned = {
        let (r, _) = decode(ColumnType::MYSQL_TYPE_JSON, &[], false, true, &data);
        let v = r.unwrap();
        let owned = v.clone().into_owned();
        assert_eq!(owned, v);
        owned
    };
    drop(data);
    let expected = BinlogValue::JsonDiff(vec![
        JsonDiff {
            path: RawBytes::Owned(b"$.a".to_vec()),
            operation: JsonDiffOperation::REPLACE,
            value: Some(JsonbValue { data: RawBytes::Owned(vec![0x04, 0x01]) }),
        },
        JsonDiff {
            path: RawBytes::Owned(b"$.b".to_vec()),
            operation: JsonDiffOperation::REMOVE,
            value: None,
        },
        JsonDiff {
            path: RawBytes::Owned(b"$.c".to_vec()),
            operation: JsonDiffOperation::INSERT,
            value: Some(JsonbValue { data: RawBytes::Owned(vec![0x05, 0x07, 0x00]) }),
        },
    ]);
    assert_eq!(owned, expected);
    match owned {
        BinlogValue::JsonDiff(ds) => {
            for d in ds.iter() {
                assert!(matches!(d.path, RawBytes::Owned(_)));
            }
        }
        other => panic!("unexpected {:?}", other),
    }
}

#[test]
fn raw_bytes_equal_by_content() {
    let buffer = vec![1u8, 2, 3];
    assert_eq!(RawBytes::Borrowed(&buffer), RawBytes::Owned(vec![1, 2, 3]));
    assert_ne!(RawBytes::Borrowed(&buffer[..2]), RawBytes::Owned(vec![1, 2, 3]));
    assert_ne!(RawBytes::Borrowed(&buffer), RawBytes::Owned(vec![1, 2, 4]));
}

#[test]
fn owned_jsonb_keeps_content() {
    let buffer = vec![0x04u8, 0x02];
    let borrowed = BinlogValue::Jsonb(JsonbValue { data: RawBytes::Borrowed(&buffer) });
    let owned = borrowed.clone().into_owned();
    drop(borrowed);
    drop(buffer);
    assert_eq!(owned, BinlogValue::Jsonb(JsonbValue { data: RawBytes::Owned(vec![0x04, 0x02]) }));
}

#[test]
fn long_char_metadata_not_reinterpreted() {
    let (t, len) = resolve_column_type(ColumnType::MYSQL_TYPE_STRING, &[0x31, 0x05]);
    assert_eq!(t, ColumnType::MYSQL_TYPE_STRING);
    assert_eq!(len, 5);
    let (r, n) = decode(ColumnType::MYSQL_TYPE_STRING, &[0x31, 0x05], false, false, &[3, b'a', b'b', b'c']);
    assert_eq!(r, Ok(bytes(b"abc")));
    assert_eq!(n, 4);
}

#[test]
fn long_char_metadata_reinterpreted() {
    let (t, len) = resolve_column_type(ColumnType::MYSQL_TYPE_STRING, &[0x01, 0x05]);
    // 0x01 | 0x30 names no type, so the type stays STRING
    assert_eq!(ColumnType::try_from_u8(0x01 | 0x30), None);
    assert_eq!(t, ColumnType::MYSQL_TYPE_STRING);
    assert_eq!(len, 5 | (0x30 << 4));
    // a long CHAR column uses a two-byte length prefix
    let data = [3, 0, b'a', b'b', b'c'];
    let (r, n) = decode(ColumnType::MYSQL_TYPE_STRING, &[0x01, 0x05], false, false, &data);
    assert_eq!(r, Ok(bytes(b"abc")));
    assert_eq!(n, 5);
}

#[test]
fn long_char_metadata_names_enum() {
    // ENUM (0xF7) with bits 4 and 5 cleared
    let (t, len) = resolve_column_type(ColumnType::MYSQL_TYPE_STRING, &[0xC7, 0x01]);
    assert_eq!(t, ColumnType::MYSQL_TYPE_ENUM);
    assert_eq!(len, 0x301);
    // decoded as an ENUM with the same metadata
    let data = [0x01, 0x09];
    assert_eq!(
        decode(ColumnType::MYSQL_TYPE_STRING, &[0xC7, 0x01], false, false, &data),
        decode(ColumnType::MYSQL_TYPE_ENUM, &[0xC7, 0x01], false, false, &data)
    );
    assert_eq!(
        decode(ColumnType::MYSQL_TYPE_STRING, &[0xC7, 0x01], false, false, &data).0,
        Ok(BinlogValue::Value(Value::Int(1)))
    );
    assert_eq!(
        decode(ColumnType::MYSQL_TYPE_STRING, &[0xC7, 0x01], false, false, &[]),
        (Err(DecodeError::UnexpectedEof), 0)
    );
}

#[test]
fn string_short_and_zero_first_byte() {
    let (r, n) = decode(ColumnType::MYSQL_TYPE_STRING, &[0xFE, 10], false, false, &[2, b'o', b'k']);
    assert_eq!(r, Ok(bytes(b"ok")));
    assert_eq!(n, 3);
    let (t, len) = resolve_column_type(ColumnType::MYSQL_TYPE_STRING, &[0x00, 0x02]);
    assert_eq!(t, ColumnType::MYSQL_TYPE_STRING);
    assert_eq!(len, 0x200);
}

#[test]
fn typed_array_takes_element_type() {
    let (t, _) = resolve_column_type(ColumnType::MYSQL_TYPE_TYPED_ARRAY, &[3]);
    assert_eq!(t, ColumnType::MYSQL_TYPE_LONG);
    let (t, _) = resolve_column_type(ColumnType::MYSQL_TYPE_TYPED_ARRAY, &[100]);
    assert_eq!(t, ColumnType::MYSQL_TYPE_TYPED_ARRAY);
    let (r, _) = decode(ColumnType::MYSQL_TYPE_TYPED_ARRAY, &[100], false, false, &[1, 2]);
    assert_eq!(r, Err(DecodeError::UnsupportedColumnType));
}

#[test]
fn truncated_input_fails_for_each_width() {
    let cases: Vec<(ColumnType, Vec<u8>, Vec<u8>)> = vec![
        (ColumnType::MYSQL_TYPE_LONG, vec![], vec![1, 2, 3, 4]),
        (ColumnType::MYSQL_TYPE_TIMESTAMP, vec![], vec![1, 2, 3, 4]),
        (ColumnType::MYSQL_TYPE_DATETIME, vec![], vec![0; 8]),
        (ColumnType::MYSQL_TYPE_BIT, vec![1, 3], vec![0xFF, 0x07]),
        (ColumnType::MYSQL_TYPE_SET, vec![0, 1], vec![1; 8]),
        (ColumnType::MYSQL_TYPE_BLOB, vec![2], vec![2, 0, 9, 9]),
        (ColumnType::MYSQL_TYPE_TIMESTAMP2, vec![6], vec![0x65, 0, 0, 0, 0, 0, 1]),
        (ColumnType::MYSQL_TYPE_DATETIME2, vec![4], vec![0x99, 0, 0, 0, 0, 0, 1]),
        (ColumnType::MYSQL_TYPE_TIME2, vec![2], vec![0x80, 0, 0, 1]),
        (ColumnType::MYSQL_TYPE_NEWDECIMAL, vec![10, 2], vec![0x80, 0x00, 0x04, 0xD2, 0x38]),
        (ColumnType::MYSQL_TYPE_JSON, vec![], vec![2, 0, 0, 0, 0x04, 0x01]),
    ];
    for (t, meta, data) in cases.iter() {
        let (r, n) = decode(*t, meta, false, false, data);
        assert!(r.is_ok(), "{:?}", t);
        assert_eq!(n, data.len(), "{:?}", t);
        for cut in 0..data.len() {
            let (r, n) = decode(*t, meta, false, false, &data[..cut]);
            assert_eq!(r, Err(DecodeError::UnexpectedEof), "{:?} cut at {}", t, cut);
            assert_eq!(n, 0);
        }
    }
}

#[test]
fn integers_signed_and_unsigned() {
    let (r, _) = decode(ColumnType::MYSQL_TYPE_TINY, &[], false, false, &[0xFF]);
    assert_eq!(r, Ok(BinlogValue::Value(Value::Int(-1))));
    let (r, _) = decode(ColumnType::MYSQL_TYPE_TINY, &[], true, false, &[0xFF]);
    assert_eq!(r, Ok(BinlogValue::Value(Value::Int(255))));
    let (r, _) = decode(ColumnType::MYSQL_TYPE_SHORT, &[], false, false, &[0x00, 0x80]);
    assert_eq!(r, Ok(BinlogValue::Value(Value::Int(-32768))));
    let (r, _) = decode(ColumnType::MYSQL_TYPE_LONG, &[], true, false, &[0xFF, 0xFF, 0xFF, 0xFF]);
    assert_eq!(r, Ok(BinlogValue::Value(Value::Int(4294967295))));
    let (r, _) = decode(ColumnType::MYSQL_TYPE_LONGLONG, &[], true, false, &[0xFF; 8]);
    assert_eq!(r, Ok(BinlogValue::Value(Value::UInt(u64::MAX))));
    let (r, _) = decode(ColumnType::MYSQL_TYPE_LONGLONG, &[], false, false, &[0xFE, 0xFF, 0xFF, 0xFF, 0xFF, 0xFF, 0xFF, 0xFF]);
    assert_eq!(r, Ok(BinlogValue::Value(Value::Int(-2))));
    let (r, _) = decode(ColumnType::MYSQL_TYPE_INT24, &[], false, false, &[0xFF, 0xFF, 0xFF]);
    assert_eq!(r, Ok(BinlogValue::Value(Value::Int(-1))));
    let (r, _) = decode(ColumnType::MYSQL_TYPE_INT24, &[], true, false, &[0xFF, 0xFF, 0xFF]);
    assert_eq!(r, Ok(BinlogValue::Value(Value::Int(16777215))));
    let (r, _) = decode(ColumnType::MYSQL_TYPE_TIMESTAMP, &[], false, false, &[0x00, 0xF1, 0x53, 0x65]);
    assert_eq!(r, Ok(BinlogValue::Value(Value::Int(1700000000))));
}

#[test]
fn floats_keep_their_bits() {
    let single = 1.5f32.to_le_bytes();
    let (r, _) = decode(ColumnType::MYSQL_TYPE_FLOAT, &[], false, false, &single);
    assert_eq!(r, Ok(BinlogValue::Value(Value::Float(1.5f32.to_bits()))));
    let double = (-2.25f64).to_le_bytes();
    let (r, _) = decode(ColumnType::MYSQL_TYPE_DOUBLE, &[], false, false, &double);
    assert_eq!(r, Ok(BinlogValue::Value(Value::Double((-2.25f64).to_bits()))));
}

#[test]
fn bit_set_and_blob_bytes() {
    let (r, n) = decode(ColumnType::MYSQL_TYPE_BIT, &[1, 3], false, false, &[0xAB, 0x05, 0x99]);
    assert_eq!(r, Ok(bytes(&[0xAB, 0x05])));
    assert_eq!(n, 2);
    let (r, n) = decode(ColumnType::MYSQL_TYPE_SET, &[0, 1], false, false, &[1, 2, 3, 4, 5, 6, 7, 8, 9]);
    assert_eq!(r, Ok(bytes(&[1, 2, 3, 4, 5, 6, 7, 8])));
    assert_eq!(n, 8);
    let (r, n) = decode(ColumnType::MYSQL_TYPE_BLOB, &[3], false, false, &[2, 0, 0, b'x', b'y', b'z']);
    assert_eq!(r, Ok(bytes(b"xy")));
    assert_eq!(n, 5);
    let (r, n) = decode(ColumnType::MYSQL_TYPE_LONG_BLOB, &[4], false, false, &[1, 0, 0, 0, b'q']);
    assert_eq!(r, Ok(bytes(b"q")));
    assert_eq!(n, 5);
}

#[test]
fn blob_unknown_width_fails() {
    let (r, _) = decode(ColumnType::MYSQL_TYPE_BLOB, &[5], false, false, &[1, 0, 0, 0, 0, b'x']);
    assert_eq!(r, Err(DecodeError::UnknownBlob));
}

#[test]
fn unsupported_type_fails() {
    let (r, n) = decode(ColumnType::MYSQL_TYPE_GEOMETRY, &[4], false, false, &[1, 2, 3]);
    assert_eq!(r, Err(DecodeError::UnsupportedColumnType));
    assert_eq!(n, 0);
    assert_eq!(DecodeError::UnsupportedColumnType.message(), "unsupported column type");
}

#[test]
fn timestamp2_text() {
    let mut data = 1700000000u32.to_be_bytes().to_vec();
    data.extend_from_slice(&[0x00, 0x7B]);
    let (r, n) = decode(ColumnType::MYSQL_TYPE_TIMESTAMP2, &[3], false, false, &data);
    assert_eq!(r, Ok(bytes(b"1700000000.012300")));
    assert_eq!(n, 6);
    let (r, n) = decode(ColumnType::MYSQL_TYPE_TIMESTAMP2, &[0], false, false, &data);
    assert_eq!(r, Ok(bytes(b"1700000000")));
    assert_eq!(n, 4);
}

#[test]
fn datetime2_fields() {
    let ym: u64 = 2023 * 13 + 6;
    let ymd = (ym << 5) | 15;
    let hms: u64 = (14 << 12) | (30 << 6) | 5;
    let stored = ((ymd << 17) | hms) + 0x80_0000_0000;
    let mut data = stored.to_be_bytes()[3..].to_vec();
    data.push(0x32);
    let (r, n) = decode(ColumnType::MYSQL_TYPE_DATETIME2, &[2], false, false, &data);
    assert_eq!(r, Ok(BinlogValue::Value(Value::Date(2023, 6, 15, 14, 30, 5, 500000))));
    assert_eq!(n, 6);
}

#[test]
fn time2_fields() {
    let hms: u32 = (10 << 12) | (11 << 6) | 12;
    let stored = hms + 0x80_0000;
    let data = stored.to_be_bytes()[1..].to_vec();
    let (r, n) = decode(ColumnType::MYSQL_TYPE_TIME2, &[0], false, false, &data);
    assert_eq!(r, Ok(BinlogValue::Value(Value::Time(false, 0, 10, 11, 12, 0))));
    assert_eq!(n, 3);
    // -00:00:01 with no fraction
    let stored = 0x80_0000u32 - 1;
    let data = stored.to_be_bytes()[1..].to_vec();
    let (r, _) = decode(ColumnType::MYSQL_TYPE_TIME2, &[0], false, false, &data);
    assert_eq!(r, Ok(BinlogValue::Value(Value::Time(true, 0, 0, 0, 1, 0))));
    // 25:00:00.5 with one fraction byte: one day and one hour
    let hms: u32 = 25 << 12;
    let mut data = (hms + 0x80_0000).to_be_bytes()[1..].to_vec();
    data.push(50);
    let (r, n) = decode(ColumnType::MYSQL_TYPE_TIME2, &[1], false, false, &data);
    assert_eq!(r, Ok(BinlogValue::Value(Value::Time(false, 1, 1, 0, 0, 500000))));
    assert_eq!(n, 4);
}

#[test]
fn decimal_text() {
    let (r, n) = decode(ColumnType::MYSQL_TYPE_NEWDECIMAL, &[10, 2], false, false, &[0x80, 0x00, 0x04, 0xD2, 0x38]);
    assert_eq!(r, Ok(bytes(b"1234.56")));
    assert_eq!(n, 5);
    let (r, _) = decode(ColumnType::MYSQL_TYPE_NEWDECIMAL, &[10, 2], false, false, &[0x7F, 0xFF, 0xFB, 0x2D, 0xC7]);
    assert_eq!(r, Ok(bytes(b"-1234.56")));
    let (r, n) = decode(ColumnType::MYSQL_TYPE_NEWDECIMAL, &[5, 0], false, false, &[0x80, 0x00, 0x00]);
    assert_eq!(r, Ok(bytes(b"0")));
    assert_eq!(n, 3);
    let (r, _) = decode(ColumnType::MYSQL_TYPE_NEWDECIMAL, &[4, 2], false, false, &[0x80, 0x05]);
    assert_eq!(r, Ok(bytes(b"0.05")));
}

#[test]
fn decimal_full_groups() {
    // DECIMAL(20,10): one leading digit, one group of nine, then a group of nine and one digit
    let mut data = vec![0x81];
    data.extend_from_slice(&123456789u32.to_be_bytes());
    data.extend_from_slice(&5u32.to_be_bytes());
    data.push(7);
    let (r, n) = decode(ColumnType::MYSQL_TYPE_NEWDECIMAL, &[20, 10], false, false, &data);
    assert_eq!(r, Ok(bytes(b"1123456789.0000000057")));
    assert_eq!(n, 10);
}

#[test]
fn decimal_invalid() {
    let (r, _) = decode(ColumnType::MYSQL_TYPE_NEWDECIMAL, &[2, 3], false, false, &[0x80, 0, 0]);
    assert_eq!(r, Err(DecodeError::InvalidDecimal));
    let (r, _) = decode(ColumnType::MYSQL_TYPE_NEWDECIMAL, &[2, 0], false, false, &[0xE4]);
    assert_eq!(r, Err(DecodeError::InvalidDecimal));
}

#[test]
fn error_messages() {
    assert_eq!(DecodeError::UnknownEnum.message(), "Unknown ENUM");
    assert_eq!(DecodeError::UnknownBlob.message(), "Unknown BLOB");
    assert_eq!(DecodeError::UnexpectedEof.message(), "unexpected end of buffer");
    assert_ne!(DecodeError::InvalidDecimal.message(), DecodeError::UnknownEnum.message());
}

#[test]
fn column_type_codes() {
    assert_eq!(ColumnType::try_from_u8(254), Some(ColumnType::MYSQL_TYPE_STRING));
    assert_eq!(ColumnType::try_from_u8(245), Some(ColumnType::MYSQL_TYPE_JSON));
    assert_eq!(ColumnType::try_from_u8(21), None);
}
