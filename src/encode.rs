use vstd::prelude::*;
use vstd::string::StringSliceAdditionalSpecFns;
use vstd::utf8::encode_utf8;

use crate::bytes::{be_bytes, pow256};
use crate::value::{Float, Integer, ValueModel};

verus! {

/// One value written into a row, as the writer was asked for it.
pub enum Token {
    Nil,
    Bool(bool),
    Pfix(u8),
    Nfix(i8),
    U8(u8),
    U16(u16),
    U32(u32),
    U64(u64),
    Uint(u64),
    I8(i8),
    I16(i16),
    I32(i32),
    I64(i64),
    Sint(i64),
    F32(u32),
    F64(u64),
    Str(Seq<char>),
    Bin(Seq<u8>),
    ArrayHeader(u32),
    MapHeader(u32),
    ExtMeta(u32, i8),
}

/// The two's-complement pattern, `n` bytes wide, of `v`.
pub open spec fn unsigned_of(v: int, n: nat) -> nat {
    if v < 0 {
        (v + pow256(n)) as nat
    } else {
        v as nat
    }
}

/// A marker byte followed by `v` big-endian over `n` bytes.
pub open spec fn marked(m: u8, v: nat, n: nat) -> Seq<u8> {
    seq![m] + be_bytes(v, n)
}

pub open spec fn str_header(n: nat) -> Seq<u8> {
    if n < 32 {
        seq![(0xa0 + n) as u8]
    } else if n < 256 {
        marked(0xd9, n, 1)
    } else if n < 65536 {
        marked(0xda, n, 2)
    } else {
        marked(0xdb, n, 4)
    }
}

pub open spec fn bin_header(n: nat) -> Seq<u8> {
    if n < 256 {
        marked(0xc4, n, 1)
    } else if n < 65536 {
        marked(0xc5, n, 2)
    } else {
        marked(0xc6, n, 4)
    }
}

pub open spec fn array_header(n: nat) -> Seq<u8> {
    if n < 16 {
        seq![(0x90 + n) as u8]
    } else if n < 65536 {
        marked(0xdc, n, 2)
    } else {
        marked(0xdd, n, 4)
    }
}

pub open spec fn map_header(n: nat) -> Seq<u8> {
    if n < 16 {
        seq![(0x80 + n) as u8]
    } else if n < 65536 {
        marked(0xde, n, 2)
    } else {
        marked(0xdf, n, 4)
    }
}

pub open spec fn ext_meta(n: nat, ty: i8) -> Seq<u8> {
    let t = unsigned_of(ty as int, 1) as u8;
    if n == 1 {
        seq![0xd4u8, t]
    } else if n == 2 {
        seq![0xd5u8, t]
    } else if n == 4 {
        seq![0xd6u8, t]
    } else if n == 8 {
        seq![0xd7u8, t]
    } else if n == 16 {
        seq![0xd8u8, t]
    } else if n < 256 {
        marked(0xc7, n, 1).push(t)
    } else if n < 65536 {
        marked(0xc8, n, 2).push(t)
    } else {
        marked(0xc9, n, 4).push(t)
    }
}

/// The most compact encoding of an unsigned integer.
pub open spec fn uint_bytes(v: u64) -> Seq<u8> {
    if v < 128 {
        seq![v as u8]
    } else if v < 256 {
        marked(0xcc, v as nat, 1)
    } else if v < 65536 {
        marked(0xcd, v as nat, 2)
    } else if v < 4294967296 {
        marked(0xce, v as nat, 4)
    } else {
        marked(0xcf, v as nat, 8)
    }
}

/// The most compact encoding of a signed integer; one that is not negative is written as
/// unsigned.
pub open spec fn sint_bytes(v: i64) -> Seq<u8> {
    if -32 <= v < 0 {
        seq![unsigned_of(v as int, 1) as u8]
    } else if -128 <= v < 0 {
        marked(0xd0, unsigned_of(v as int, 1), 1)
    } else if -32768 <= v < 0 {
        marked(0xd1, unsigned_of(v as int, 2), 2)
    } else if -2147483648 <= v < 0 {
        marked(0xd2, unsigned_of(v as int, 4), 4)
    } else if v < 0 {
        marked(0xd3, unsigned_of(v as int, 8), 8)
    } else {
        uint_bytes(v as u64)
    }
}

/// The tokens that the writer accepts: fixnums in their ranges, strings and binary strings
/// whose length fits in 32 bits.
pub open spec fn token_fits(t: Token) -> bool {
    match t {
        Token::Pfix(v) => v < 128,
        Token::Nfix(v) => -32 <= v < 0,
        Token::Str(s) => encode_utf8(s).len() < 4294967296,
        Token::Bin(d) => d.len() < 4294967296,
        _ => true,
    }
}

/// The bytes that a token is written as.
pub open spec fn token_bytes(t: Token) -> Seq<u8> {
    match t {
        Token::Nil => seq![0xc0u8],
        Token::Bool(b) => seq![if b { 0xc3u8 } else { 0xc2u8 }],
        Token::Pfix(v) => seq![v],
        Token::Nfix(v) => seq![unsigned_of(v as int, 1) as u8],
        Token::U8(v) => marked(0xcc, v as nat, 1),
        Token::U16(v) => marked(0xcd, v as nat, 2),
        Token::U32(v) => marked(0xce, v as nat, 4),
        Token::U64(v) => marked(0xcf, v as nat, 8),
        Token::Uint(v) => uint_bytes(v),
        Token::I8(v) => marked(0xd0, unsigned_of(v as int, 1), 1),
        Token::I16(v) => marked(0xd1, unsigned_of(v as int, 2), 2),
        Token::I32(v) => marked(0xd2, unsigned_of(v as int, 4), 4),
        Token::I64(v) => marked(0xd3, unsigned_of(v as int, 8), 8),
        Token::Sint(v) => sint_bytes(v),
        Token::F32(bits) => marked(0xca, bits as nat, 4),
        Token::F64(bits) => marked(0xcb, bits as nat, 8),
        Token::Str(s) => str_header(encode_utf8(s).len()) + encode_utf8(s),
        Token::Bin(d) => bin_header(d.len()) + d,
        Token::ArrayHeader(n) => array_header(n as nat),
        Token::MapHeader(n) => map_header(n as nat),
        Token::ExtMeta(n, ty) => ext_meta(n as nat, ty),
    }
}

/// The value that a token reads back as, for a token that is a whole value; headers, whose
/// contents follow them, have none.
pub open spec fn token_value(t: Token) -> Option<ValueModel> {
    match t {
        Token::Nil => Some(ValueModel::Nil),
        Token::Bool(b) => Some(ValueModel::Boolean(b)),
        Token::Pfix(v) => Some(ValueModel::Integer(Integer::U64(v as u64))),
        Token::Nfix(v) => Some(ValueModel::Integer(Integer::I64(v as i64))),
        Token::U8(v) => Some(ValueModel::Integer(Integer::U64(v as u64))),
        Token::U16(v) => Some(ValueModel::Integer(Integer::U64(v as u64))),
        Token::U32(v) => Some(ValueModel::Integer(Integer::U64(v as u64))),
        Token::U64(v) => Some(ValueModel::Integer(Integer::U64(v))),
        Token::Uint(v) => Some(ValueModel::Integer(Integer::U64(v))),
        Token::I8(v) => Some(ValueModel::Integer(Integer::I64(v as i64))),
        Token::I16(v) => Some(ValueModel::Integer(Integer::I64(v as i64))),
        Token::I32(v) => Some(ValueModel::Integer(Integer::I64(v as i64))),
        Token::I64(v) => Some(ValueModel::Integer(Integer::I64(v))),
        Token::Sint(v) => Some(
            if v >= 0 {
                ValueModel::Integer(Integer::U64(v as u64))
            } else {
                ValueModel::Integer(Integer::I64(v))
            },
        ),
        Token::F32(bits) => Some(ValueModel::Float(Float::F32(bits))),
        Token::F64(bits) => Some(ValueModel::Float(Float::F64(bits))),
        Token::Str(s) => Some(ValueModel::String(s)),
        Token::Bin(d) => Some(ValueModel::Binary(d)),
        _ => None,
    }
}

/// The `mp_write_*` wrappers write into a `Vec<u8>`, whose `std::io::Write` appends and never
/// fails, so rmp's only error path, a failed write, cannot be taken.
///
/// Relies on rmp::encode::write_str: the string header for the byte length, then the bytes.
#[verifier::external_body]
pub(crate) fn mp_write_str(buf: &mut Vec<u8>, s: &str) -> (r: Result<(), String>)
    requires
        s.spec_bytes().len() < 4294967296,
    ensures
        r is Ok,
        final(buf)@ == old(buf)@ + token_bytes(Token::Str(s@)),
{
    rmp::encode::write_str(buf, s).map_err(|e| e.to_string())
}

/// Relies on rmp::encode::write_bin: the binary header for the length, then the bytes.
#[verifier::external_body]
pub(crate) fn mp_write_bin(buf: &mut Vec<u8>, data: &[u8]) -> (r: Result<(), String>)
    requires
        data@.len() < 4294967296,
    ensures
        r is Ok,
        final(buf)@ == old(buf)@ + token_bytes(Token::Bin(data@)),
{
    rmp::encode::write_bin(buf, data).map_err(|e| e.to_string())
}

/// Relies on rmp::encode::write_bool: one marker byte.
#[verifier::external_body]
pub(crate) fn mp_write_bool(buf: &mut Vec<u8>, v: bool) -> (r: Result<(), String>)
    ensures
        r is Ok,
        final(buf)@ == old(buf)@ + token_bytes(Token::Bool(v)),
{
    rmp::encode::write_bool(buf, v).map_err(|e| e.to_string())
}

/// Relies on rmp::encode::write_nil: one marker byte.
#[verifier::external_body]
pub(crate) fn mp_write_nil(buf: &mut Vec<u8>) -> (r: Result<(), String>)
    ensures
        r is Ok,
        final(buf)@ == old(buf)@ + token_bytes(Token::Nil),
{
    rmp::encode::write_nil(buf).map_err(|e| e.to_string())
}

/// Relies on rmp::encode::write_pfix: the value itself as one byte; it panics from 128 on.
#[verifier::external_body]
pub(crate) fn mp_write_pfix(buf: &mut Vec<u8>, v: u8) -> (r: Result<(), String>)
    requires
        v < 128,
    ensures
        r is Ok,
        final(buf)@ == old(buf)@ + token_bytes(Token::Pfix(v)),
{
    rmp::encode::write_pfix(buf, v).map_err(|e| e.to_string())
}

/// Relies on rmp::encode::write_nfix: the value's pattern as one byte; it panics outside -32..0.
#[verifier::external_body]
pub(crate) fn mp_write_nfix(buf: &mut Vec<u8>, v: i8) -> (r: Result<(), String>)
    requires
        -32 <= v < 0,
    ensures
        r is Ok,
        final(buf)@ == old(buf)@ + token_bytes(Token::Nfix(v)),
{
    rmp::encode::write_nfix(buf, v).map_err(|e| e.to_string())
}

/// Relies on rmp::encode::write_u8: the marker 0xcc, then the byte.
#[verifier::external_body]
pub(crate) fn mp_write_u8(buf: &mut Vec<u8>, v: u8) -> (r: Result<(), String>)
    ensures
        r is Ok,
        final(buf)@ == old(buf)@ + token_bytes(Token::U8(v)),
{
    rmp::encode::write_u8(buf, v).map_err(|e| e.to_string())
}

/// Relies on rmp::encode::write_u16: the marker 0xcd, then two bytes big-endian.
#[verifier::external_body]
pub(crate) fn mp_write_u16(buf: &mut Vec<u8>, v: u16) -> (r: Result<(), String>)
    ensures
        r is Ok,
        final(buf)@ == old(buf)@ + token_bytes(Token::U16(v)),
{
    rmp::encode::write_u16(buf, v).map_err(|e| e.to_string())
}

/// Relies on rmp::encode::write_u32: the marker 0xce, then four bytes big-endian.
#[verifier::external_body]
pub(crate) fn mp_write_u32(buf: &mut Vec<u8>, v: u32) -> (r: Result<(), String>)
    ensures
        r is Ok,
        final(buf)@ == old(buf)@ + token_bytes(Token::U32(v)),
{
    rmp::encode::write_u32(buf, v).map_err(|e| e.to_string())
}

/// Relies on rmp::encode::write_u64: the marker 0xcf, then eight bytes big-endian.
#[verifier::external_body]
pub(crate) fn mp_write_u64(buf: &mut Vec<u8>, v: u64) -> (r: Result<(), String>)
    ensures
        r is Ok,
        final(buf)@ == old(buf)@ + token_bytes(Token::U64(v)),
{
    rmp::encode::write_u64(buf, v).map_err(|e| e.to_string())
}

/// Relies on rmp::encode::write_uint: the shortest of the unsigned encodings.
#[verifier::external_body]
pub(crate) fn mp_write_uint(buf: &mut Vec<u8>, v: u64) -> (r: Result<(), String>)
    ensures
        r is Ok,
        final(buf)@ == old(buf)@ + token_bytes(Token::Uint(v)),
{
    rmp::encode::write_uint(buf, v).map(|_| ()).map_err(|e| e.to_string())
}

/// Relies on rmp::encode::write_i8: the marker 0xd0, then the byte.
#[verifier::external_body]
pub(crate) fn mp_write_i8(buf: &mut Vec<u8>, v: i8) -> (r: Result<(), String>)
    ensures
        r is Ok,
        final(buf)@ == old(buf)@ + token_bytes(Token::I8(v)),
{
    rmp::encode::write_i8(buf, v).map_err(|e| e.to_string())
}

/// Relies on rmp::encode::write_i16: the marker 0xd1, then two bytes big-endian.
#[verifier::external_body]
pub(crate) fn mp_write_i16(buf: &mut Vec<u8>, v: i16) -> (r: Result<(), String>)
    ensures
        r is Ok,
        final(buf)@ == old(buf)@ + token_bytes(Token::I16(v)),
{
    rmp::encode::write_i16(buf, v).map_err(|e| e.to_string())
}

/// Relies on rmp::encode::write_i32: the marker 0xd2, then four bytes big-endian.
#[verifier::external_body]
pub(crate) fn mp_write_i32(buf: &mut Vec<u8>, v: i32) -> (r: Result<(), String>)
    ensures
        r is Ok,
        final(buf)@ == old(buf)@ + token_bytes(Token::I32(v)),
{
    rmp::encode::write_i32(buf, v).map_err(|e| e.to_string())
}

/// Relies on rmp::encode::write_i64: the marker 0xd3, then eight bytes big-endian.
#[verifier::external_body]
pub(crate) fn mp_write_i64(buf: &mut Vec<u8>, v: i64) -> (r: Result<(), String>)
    ensures
        r is Ok,
        final(buf)@ == old(buf)@ + token_bytes(Token::I64(v)),
{
    rmp::encode::write_i64(buf, v).map_err(|e| e.to_string())
}

/// Relies on rmp::encode::write_sint: the shortest encoding, unsigned for a value that is not
/// negative.
#[verifier::external_body]
pub(crate) fn mp_write_sint(buf: &mut Vec<u8>, v: i64) -> (r: Result<(), String>)
    ensures
        r is Ok,
        final(buf)@ == old(buf)@ + token_bytes(Token::Sint(v)),
{
    rmp::encode::write_sint(buf, v).map(|_| ()).map_err(|e| e.to_string())
}

/// Relies on rmp::encode::write_array_len: the array header for `n` elements.
#[verifier::external_body]
pub(crate) fn mp_write_array_len(buf: &mut Vec<u8>, n: u32) -> (r: Result<(), String>)
    ensures
        r is Ok,
        final(buf)@ == old(buf)@ + token_bytes(Token::ArrayHeader(n)),
{
    rmp::encode::write_array_len(buf, n).map(|_| ()).map_err(|e| e.to_string())
}

/// Relies on rmp::encode::write_map_len: the map header for `n` pairs.
#[verifier::external_body]
pub(crate) fn mp_write_map_len(buf: &mut Vec<u8>, n: u32) -> (r: Result<(), String>)
    ensures
        r is Ok,
        final(buf)@ == old(buf)@ + token_bytes(Token::MapHeader(n)),
{
    rmp::encode::write_map_len(buf, n).map(|_| ()).map_err(|e| e.to_string())
}

/// Relies on rmp::encode::write_ext_meta: the extension header for `n` data bytes of type `ty`.
#[verifier::external_body]
pub(crate) fn mp_write_ext_meta(buf: &mut Vec<u8>, n: u32, ty: i8) -> (r: Result<(), String>)
    ensures
        r is Ok,
        final(buf)@ == old(buf)@ + token_bytes(Token::ExtMeta(n, ty)),
{
    rmp::encode::write_ext_meta(buf, n, ty).map(|_| ()).map_err(|e| e.to_string())
}

/// Writes a 32-bit float, given by its bit pattern: the marker 0xca, then four bytes
/// big-endian.
pub fn write_f32_bits(buf: &mut Vec<u8>, bits: u32)
    ensures
        final(buf)@ == old(buf)@ + token_bytes(Token::F32(bits)),
{
    push_be(buf, 0xca, bits as u64, 4);
}

/// Writes a 64-bit float, given by its bit pattern: the marker 0xcb, then eight bytes
/// big-endian.
pub fn write_f64_bits(buf: &mut Vec<u8>, bits: u64)
    ensures
        final(buf)@ == old(buf)@ + token_bytes(Token::F64(bits)),
{
    push_be(buf, 0xcb, bits, 8);
}

fn push_be(buf: &mut Vec<u8>, m: u8, v: u64, n: usize)
    requires
        n <= 8,
    ensures
        final(buf)@ == old(buf)@ + marked(m, v as nat, n as nat),
{
    let ghost start = buf@;
    buf.push(m);
    push_be_bytes(buf, v, n);
    assert(start + marked(m, v as nat, n as nat) =~= start.push(m) + be_bytes(v as nat, n as nat));
}

/// Appends the `n` low-order bytes of `v`, most significant first.
fn push_be_bytes(buf: &mut Vec<u8>, v: u64, n: usize)
    requires
        n <= 8,
    ensures
        final(buf)@ == old(buf)@ + be_bytes(v as nat, n as nat),
    decreases n,
{
    if n > 0 {
        let ghost start = buf@;
        push_be_bytes(buf, v / 256, n - 1);
        buf.push((v % 256) as u8);
        assert(start + be_bytes(v as nat, n as nat) =~= (start + be_bytes(
            v as nat / 256,
            (n - 1) as nat,
        )).push((v % 256) as u8));
    } else {
        assert(old(buf)@ + be_bytes(v as nat, 0) =~= old(buf)@);
    }
}

} // verus!
