use std::cell::RefCell;
use std::io::Write;

use td_client::decode::{decode_all, decode_value, DecodeError};
use td_client::error::TreasureDataError;
use td_client::rows::{each_row_in_bytes, each_row_in_gzip, RowReader};
use td_client::value::{Float, Integer, Value};

fn u(x: u64) -> Value {
    Value::Integer(Integer::U64(x))
}

fn i(x: i64) -> Value {
    Value::Integer(Integer::I64(x))
}

/// Three rows: [1, 2], [3], ["a"].
fn three_rows() -> Vec<u8> {
    vec![0x92, 0x01, 0x02, 0x91, 0x03, 0x91, 0xa1, b'a']
}

fn collect(data: Vec<u8>) -> (Result<(), TreasureDataError>, Vec<Vec<Value>>) {
    let seen = RefCell::new(Vec::new());
    let r = each_row_in_bytes(data, &|row: Vec<Value>| {
        seen.borrow_mut().push(row);
        true
    });
    (r, seen.into_inner())
}

#[test]
fn all_rows_are_handed_out_in_order() {
    let (r, rows) = collect(three_rows());
    assert!(r.is_ok());
    assert_eq!(
        rows,
        vec![vec![u(1), u(2)], vec![u(3)], vec![Value::String("a".to_string())]]
    );
}

#[test]
fn consumer_returning_false_stops_after_first_row() {
    let calls = RefCell::new(0);
    let r = each_row_in_bytes(three_rows(), &|_row: Vec<Value>| {
        *calls.borrow_mut() += 1;
        false
    });
    assert!(r.is_ok());
    assert_eq!(*calls.borrow(), 1);
}

#[test]
fn early_stop_skips_a_broken_tail() {
    let mut data = three_rows();
    data.push(0xc1);
    let r = each_row_in_bytes(data, &|_row: Vec<Value>| false);
    assert!(r.is_ok());
}

#[test]
fn stream_ending_at_a_boundary_is_clean() {
    let (r, rows) = collect(three_rows()[..5].to_vec());
    assert!(r.is_ok());
    assert_eq!(rows.len(), 2);
    let (r, rows) = collect(vec![]);
    assert!(r.is_ok());
    assert_eq!(rows.len(), 0);
}

#[test]
fn stream_ending_mid_value_is_a_decode_error() {
    let (r, rows) = collect(three_rows()[..7].to_vec());
    assert_eq!(r, Err(TreasureDataError::MsgpackDecodeError(DecodeError::Truncated)));
    assert_eq!(rows.len(), 2);
    // Cut between an array header and its elements.
    let (r, rows) = collect(vec![0x92, 0x01]);
    assert_eq!(r, Err(TreasureDataError::MsgpackDecodeError(DecodeError::Truncated)));
    assert!(rows.is_empty());
}

#[test]
fn non_array_row_is_unexpected() {
    let (r, rows) = collect(vec![0x91, 0x01, 0x05, 0x91, 0x02]);
    assert_eq!(r, Err(TreasureDataError::MsgpackUnexpectedValueError(u(5))));
    assert_eq!(rows, vec![vec![u(1)]]);
}

#[test]
fn reader_hands_out_rows_one_at_a_time() {
    let mut reader = RowReader::new(three_rows());
    assert_eq!(reader.next_row().unwrap(), Some(vec![u(1), u(2)]));
    assert_eq!(reader.next_row().unwrap(), Some(vec![u(3)]));
    assert_eq!(reader.next_row().unwrap(), Some(vec![Value::String("a".to_string())]));
    assert_eq!(reader.next_row().unwrap(), None);
    assert_eq!(reader.next_row().unwrap(), None);
}

#[test]
fn gzip_stream_is_decompressed_before_decoding() {
    let mut enc = flate2::write::GzEncoder::new(Vec::new(), flate2::Compression::default());
    enc.write_all(&three_rows()).unwrap();
    let data = enc.finish().unwrap();
    let seen = RefCell::new(Vec::new());
    let r = each_row_in_gzip(&data, &|row: Vec<Value>| {
        seen.borrow_mut().push(row);
        true
    });
    assert!(r.is_ok());
    assert_eq!(seen.into_inner().len(), 3);
}

#[test]
fn broken_gzip_is_an_io_error() {
    let r = each_row_in_gzip(&[1, 2, 3, 4], &|_row: Vec<Value>| true);
    assert!(matches!(r, Err(TreasureDataError::IoError(_))));
}

#[test]
fn decode_keeps_the_wire_type() {
    let cases: Vec<(Vec<u8>, Value)> = vec![
        (vec![0x05], u(5)),
        (vec![0xff], i(-1)),
        (vec![0xe0], i(-32)),
        (vec![0xcc, 0x80], u(128)),
        (vec![0xcd, 0x01, 0x00], u(256)),
        (vec![0xce, 0, 1, 0, 0], u(65536)),
        (vec![0xcf, 0, 0, 0, 1, 0, 0, 0, 0], u(4294967296)),
        (vec![0xd0, 0x05], i(5)),
        (vec![0xd0, 0x80], i(-128)),
        (vec![0xd1, 0xff, 0x00], i(-256)),
        (vec![0xd2, 0xff, 0xff, 0xff, 0xff], i(-1)),
        (vec![0xd3, 0x80, 0, 0, 0, 0, 0, 0, 0], i(i64::MIN)),
        (vec![0xd3, 0, 0, 0, 0, 0, 0, 0x03, 0xe8], i(1000)),
        (vec![0xc0], Value::Nil),
        (vec![0xc2], Value::Boolean(false)),
        (vec![0xc3], Value::Boolean(true)),
        (vec![0xca, 0x40, 0x48, 0xf5, 0xc3], Value::Float(Float::F32(3.14f32.to_bits()))),
        (vec![0xcb, 0x40, 0x04, 0, 0, 0, 0, 0, 0], Value::Float(Float::F64(2.5f64.to_bits()))),
        (vec![0xa3, b'f', b'o', b'o'], Value::String("foo".to_string())),
        (vec![0xd9, 0x02, 0xc3, 0xa9], Value::String("\u{e9}".to_string())),
        (vec![0xc4, 0x02, 9, 8], Value::Binary(vec![9, 8])),
        (vec![0xd4, 0x07, 0x01], Value::Ext(7, vec![1])),
        (vec![0xc7, 0x02, 0xfe, 1, 2], Value::Ext(-2, vec![1, 2])),
        (vec![0xdc, 0x00, 0x01, 0xc0], Value::Array(vec![Value::Nil])),
        (
            vec![0x81, 0xa1, b'k', 0x92, 0x01, 0xc3],
            Value::Pairs(vec![(
                Value::String("k".to_string()),
                Value::Array(vec![u(1), Value::Boolean(true)]),
            )]),
        ),
    ];
    for (bytes, expected) in cases {
        let (v, end) = decode_value(&bytes, 0, 0).unwrap();
        assert_eq!(v, expected, "bytes {:02x?}", bytes);
        assert_eq!(end, bytes.len());
    }
}

#[test]
fn decode_errors() {
    assert_eq!(decode_value(&[0xc1], 0, 0), Err(DecodeError::ReservedMarker));
    assert_eq!(decode_value(&[0xa2, 0xff, 0xfe], 0, 0), Err(DecodeError::InvalidUtf8));
    assert_eq!(decode_value(&[0xcd, 0x01], 0, 0), Err(DecodeError::Truncated));
    assert_eq!(decode_value(&[], 0, 0), Err(DecodeError::Truncated));
    assert_eq!(decode_value(&[0xc6, 0, 0, 0, 9, 1], 0, 0), Err(DecodeError::Truncated));
    let deep = vec![0x91u8; 2000];
    assert_eq!(decode_value(&deep, 0, 0), Err(DecodeError::DepthLimitExceeded));
}

#[test]
fn decode_all_reads_values_until_the_end() {
    assert_eq!(decode_all(&[0x01, 0xc0, 0x90]).unwrap(), vec![u(1), Value::Nil, Value::Array(vec![])]);
    assert_eq!(decode_all(&[0x01, 0x92, 0x01]), Err(DecodeError::Truncated));
}

#[test]
fn stream_cut_at_a_nested_marker_is_a_decode_error() {
    let (r, rows) = collect(vec![0x91, 0x01, 0x92, 0x91]);
    assert_eq!(r, Err(TreasureDataError::MsgpackDecodeError(DecodeError::Truncated)));
    assert_eq!(rows.len(), 1);
}
