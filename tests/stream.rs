use std::cell::RefCell;
use std::io::Write;

use td_client::decode::DecodeError;
use td_client::error::TreasureDataError;
use td_client::rows::{GzipRowStream, RowStream};
use td_client::value::{Integer, Value};

fn rows_bytes() -> Vec<u8> {
    vec![0x92, 0x01, 0x02, 0x91, 0x03, 0x91, 0xa1, b'a']
}

fn gz(data: &[u8]) -> Vec<u8> {
    let mut enc = flate2::write::GzEncoder::new(Vec::new(), flate2::Compression::default());
    enc.write_all(data).unwrap();
    enc.finish().unwrap()
}

#[test]
fn row_stream_waits_for_whole_values() {
    let mut s = RowStream::new();
    s.push(&[0x92, 0x01]);
    assert_eq!(s.next_row(), Ok(None));
    s.push(&[0x02, 0x91]);
    assert_eq!(
        s.next_row(),
        Ok(Some(vec![Value::Integer(Integer::U64(1)), Value::Integer(Integer::U64(2))]))
    );
    assert_eq!(s.next_row(), Ok(None));
    s.push(&[0x03]);
    assert_eq!(s.next_row(), Ok(Some(vec![Value::Integer(Integer::U64(3))])));
    assert_eq!(s.next_row(), Ok(None));
}

#[test]
fn row_stream_fed_byte_by_byte() {
    let seen = RefCell::new(Vec::new());
    let f = |row: Vec<Value>| {
        seen.borrow_mut().push(row);
        true
    };
    let mut s = RowStream::new();
    for b in rows_bytes() {
        assert_eq!(s.feed(&[b], &f), Ok(true));
    }
    assert_eq!(s.finish(&f), Ok(()));
    assert_eq!(seen.into_inner().len(), 3);
}

#[test]
fn row_stream_cut_mid_value_fails_at_finish() {
    let f = |_row: Vec<Value>| true;
    let mut s = RowStream::new();
    assert_eq!(s.feed(&rows_bytes()[..7], &f), Ok(true));
    assert_eq!(s.finish(&f), Err(TreasureDataError::MsgpackDecodeError(DecodeError::Truncated)));
}

#[test]
fn row_stream_stops_when_asked() {
    let calls = RefCell::new(0);
    let f = |_row: Vec<Value>| {
        *calls.borrow_mut() += 1;
        false
    };
    let mut s = RowStream::new();
    assert_eq!(s.feed(&rows_bytes(), &f), Ok(false));
    assert_eq!(*calls.borrow(), 1);
}

#[test]
fn row_stream_rejects_a_non_array() {
    let f = |_row: Vec<Value>| true;
    let mut s = RowStream::new();
    assert_eq!(
        s.feed(&[0xc3], &f),
        Err(TreasureDataError::MsgpackUnexpectedValueError(Value::Boolean(true)))
    );
}

#[test]
fn gzip_row_stream_in_small_pieces() {
    let data = gz(&rows_bytes());
    let seen = RefCell::new(Vec::new());
    let f = |row: Vec<Value>| {
        seen.borrow_mut().push(row);
        true
    };
    let mut s = GzipRowStream::new();
    for piece in data.chunks(3) {
        assert_eq!(s.feed(piece, &f), Ok(true));
    }
    assert_eq!(s.finish(&f), Ok(()));
    assert_eq!(
        seen.into_inner(),
        vec![
            vec![Value::Integer(Integer::U64(1)), Value::Integer(Integer::U64(2))],
            vec![Value::Integer(Integer::U64(3))],
            vec![Value::String("a".to_string())],
        ]
    );
}

#[test]
fn gzip_row_stream_cut_short_fails() {
    let data = gz(&rows_bytes());
    let f = |_row: Vec<Value>| true;
    let mut s = GzipRowStream::new();
    let _ = s.feed(&data[..data.len() - 4], &f);
    assert!(s.finish(&f).is_err());
}

#[test]
fn gzip_row_stream_rejects_non_gzip() {
    let f = |_row: Vec<Value>| true;
    let mut s = GzipRowStream::new();
    assert!(matches!(s.feed(&[0, 1, 2, 3, 4, 5, 6, 7, 8, 9, 10, 11], &f), Err(TreasureDataError::IoError(_))));
}
