use td_client::table_import::{
    TableImportChunkError, TableImportWritableChunk, UnmatchElementNumsError,
};
use td_client::value::{Float, Integer, Value};

fn s(x: &str) -> Value {
    Value::String(x.to_string())
}

fn arity_error(r: Result<(), TableImportChunkError>) -> Option<(u32, u32)> {
    match r {
        Err(TableImportChunkError::UnmatchElementNums(UnmatchElementNumsError(x))) => x,
        other => panic!("expected an arity error, got {:?}", other),
    }
}

#[test]
fn two_rows_round_trip() {
    let mut chunk = TableImportWritableChunk::new().unwrap();
    chunk.next_row(4).unwrap();
    chunk.write_key_and_i64("time", 1000).unwrap();
    chunk.write_key_and_str("name", "foo").unwrap();
    chunk.write_key_and_u8("age", 42).unwrap();
    chunk.write_key_and_f32("pi", 3.14f32.to_bits()).unwrap();

    chunk.next_row(3).unwrap();
    chunk.write_key_and_i64("time", 1001).unwrap();
    chunk.write_key_and_str("name", "bar").unwrap();
    chunk.write_key_and_u8("age", 56).unwrap();

    let readable = chunk.close().unwrap();
    let rows = readable.decode_rows().unwrap();
    assert_eq!(
        rows,
        vec![
            Value::Pairs(vec![
                (s("time"), Value::Integer(Integer::I64(1000))),
                (s("name"), s("foo")),
                (s("age"), Value::Integer(Integer::U64(42))),
                (s("pi"), Value::Float(Float::F32(3.14f32.to_bits()))),
            ]),
            Value::Pairs(vec![
                (s("time"), Value::Integer(Integer::I64(1001))),
                (s("name"), s("bar")),
                (s("age"), Value::Integer(Integer::U64(56))),
            ]),
        ]
    );
}

#[test]
fn every_scalar_writer_round_trips() {
    let mut chunk = TableImportWritableChunk::new().unwrap();
    chunk.next_row(18).unwrap();
    chunk.write_key_and_bin("bin", &[1, 2, 3]).unwrap();
    chunk.write_key_and_bool("t", true).unwrap();
    chunk.write_key_and_f64("f", 2.5f64.to_bits()).unwrap();
    chunk.write_key_and_i16("i16", -300).unwrap();
    chunk.write_key_and_i32("i32", -70000).unwrap();
    chunk.write_key_and_i8("i8", -5).unwrap();
    chunk.write_key_and_nfix("nfix", -3).unwrap();
    chunk.write_key_and_nil("nil").unwrap();
    chunk.write_key_and_pfix("pfix", 7).unwrap();
    chunk.write_key_and_sint("sneg", -100000).unwrap();
    chunk.write_key_and_sint("spos", 300).unwrap();
    chunk.write_key_and_sint_eff("seff", -1).unwrap();
    chunk.write_key_and_u16("u16", 65535).unwrap();
    chunk.write_key_and_u32("u32", 70000).unwrap();
    chunk.write_key_and_u64("u64", u64::MAX).unwrap();
    chunk.write_key_and_uint("uint", 200).unwrap();
    chunk.write_key_and_str("long", &"x".repeat(40)).unwrap();
    chunk.write_key_and_bool("f", false).unwrap();
    let rows = chunk.close().unwrap().decode_rows().unwrap();
    let int = |i: i64| Value::Integer(Integer::I64(i));
    let uint = |u: u64| Value::Integer(Integer::U64(u));
    assert_eq!(
        rows,
        vec![Value::Pairs(vec![
            (s("bin"), Value::Binary(vec![1, 2, 3])),
            (s("t"), Value::Boolean(true)),
            (s("f"), Value::Float(Float::F64(2.5f64.to_bits()))),
            (s("i16"), int(-300)),
            (s("i32"), int(-70000)),
            (s("i8"), int(-5)),
            (s("nfix"), int(-3)),
            (s("nil"), Value::Nil),
            (s("pfix"), uint(7)),
            (s("sneg"), int(-100000)),
            (s("spos"), uint(300)),
            (s("seff"), int(-1)),
            (s("u16"), uint(65535)),
            (s("u32"), uint(70000)),
            (s("u64"), uint(u64::MAX)),
            (s("uint"), uint(200)),
            (s("long"), s(&"x".repeat(40))),
            (s("f"), Value::Boolean(false)),
        ])]
    );
}

#[test]
fn headers_frame_nested_values() {
    let mut chunk = TableImportWritableChunk::new().unwrap();
    chunk.next_row(1).unwrap();
    chunk.write_key_and_array_header("xs", 2).unwrap();
    let rows = chunk.close().unwrap().decode_rows();
    // The array header wants two elements that were never written.
    assert!(rows.is_err());

    let mut chunk = TableImportWritableChunk::new().unwrap();
    chunk.next_row(2).unwrap();
    chunk.write_key_and_map_len("m", 0).unwrap();
    chunk.write_key_and_ext_meta("e", 0, 5).unwrap();
    let rows = chunk.close().unwrap().decode_rows();
    // An empty map and an extension of no data bytes are whole values by their headers alone.
    assert_eq!(
        rows.unwrap(),
        vec![Value::Pairs(vec![
            (s("m"), Value::Pairs(vec![])),
            (s("e"), Value::Ext(5, vec![])),
        ])]
    );
}

#[test]
fn next_row_before_row_is_full_fails() {
    let mut chunk = TableImportWritableChunk::new().unwrap();
    chunk.next_row(2).unwrap();
    chunk.write_key_and_u8("a", 1).unwrap();
    assert_eq!(arity_error(chunk.next_row(1)), Some((2, 1)));
}

#[test]
fn extra_pair_fails() {
    let mut chunk = TableImportWritableChunk::new().unwrap();
    chunk.next_row(1).unwrap();
    chunk.write_key_and_u8("a", 1).unwrap();
    assert_eq!(arity_error(chunk.write_key_and_u8("b", 2)), Some((1, 2)));
    // The row is still complete and can be followed by another.
    chunk.next_row(0).unwrap();
    assert!(chunk.close().is_ok());
}

#[test]
fn pair_without_row_fails() {
    let mut chunk = TableImportWritableChunk::new().unwrap();
    assert_eq!(arity_error(chunk.write_key_and_nil("a")), None);
}

#[test]
fn close_with_incomplete_row_fails() {
    let mut chunk = TableImportWritableChunk::new().unwrap();
    chunk.next_row(3).unwrap();
    chunk.write_key_and_bool("a", true).unwrap();
    match chunk.close() {
        Err(TableImportChunkError::UnmatchElementNums(UnmatchElementNumsError(x))) => {
            assert_eq!(x, Some((3, 1)))
        }
        _ => panic!("expected an arity error"),
    }
}

#[test]
fn empty_chunk_closes_to_no_rows() {
    let chunk = TableImportWritableChunk::new().unwrap();
    let readable = chunk.close().unwrap();
    assert!(!readable.data.is_empty());
    assert_eq!(readable.decode_rows().unwrap(), vec![]);
}

#[test]
fn fixnum_out_of_range_is_a_codec_error() {
    let mut chunk = TableImportWritableChunk::new().unwrap();
    chunk.next_row(2).unwrap();
    assert!(matches!(
        chunk.write_key_and_pfix("p", 200),
        Err(TableImportChunkError::MsgpackValueWriteError(_))
    ));
    assert!(matches!(
        chunk.write_key_and_nfix("n", -40),
        Err(TableImportChunkError::MsgpackValueWriteError(_))
    ));
    // Nothing was counted.
    chunk.write_key_and_pfix("p", 100).unwrap();
    chunk.write_key_and_nfix("n", -32).unwrap();
    assert!(chunk.close().is_ok());
}

#[test]
fn compressed_bytes_can_be_taken_as_the_chunk_grows() {
    let mut chunk = TableImportWritableChunk::new().unwrap();
    let mut stored = Vec::new();
    for i in 0..200u64 {
        chunk.next_row(2).unwrap();
        chunk.write_key_and_u64("n", i).unwrap();
        chunk.write_key_and_str("s", &format!("row {}", i)).unwrap();
        stored.extend(chunk.take_compressed());
    }
    stored.extend(chunk.close().unwrap().data);
    let rows = td_client::table_import::TableImportReadableChunk { data: stored }
        .decode_rows()
        .unwrap();
    assert_eq!(rows.len(), 200);
    assert_eq!(
        rows[199],
        Value::Pairs(vec![
            (s("n"), Value::Integer(Integer::U64(199))),
            (s("s"), s("row 199")),
        ])
    );
}

#[test]
fn chunk_payload_bytes_are_exact() {
    let mut chunk = TableImportWritableChunk::new().unwrap();
    chunk.next_row(1).unwrap();
    chunk.write_key_and_u64("k", 1).unwrap();
    let data = chunk.close().unwrap().data;
    let mut plain = Vec::new();
    std::io::Read::read_to_end(&mut flate2::read::GzDecoder::new(&data[..]), &mut plain).unwrap();
    assert_eq!(plain, vec![0x81, 0xa1, b'k', 0xcf, 0, 0, 0, 0, 0, 0, 0, 1]);
}
