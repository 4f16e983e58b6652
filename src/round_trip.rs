use vstd::arithmetic::div_mod::{lemma_breakdown, lemma_small_mod};
use vstd::prelude::*;
use vstd::utf8::{encode_utf8, encode_utf8_decode_utf8, encode_utf8_valid_utf8};

use crate::bytes::{be, be_bytes, lemma_pow256_pos, lemma_pow256_values, pow256};
use crate::decode::{field_width, parse_pairs, parse_value, parse_values, DecodeError};
use crate::encode::{
    bin_header, marked, sint_bytes, str_header, token_bytes, token_fits, token_value, uint_bytes,
    map_header, unsigned_of, Token,
};
use crate::gzip::gunzip_of;
use crate::table_import::{
    field_bytes, field_fits, fields_bytes, row_bytes, rows_bytes, Field, RowModel,
    TableImportWritableChunk,
};
use crate::value::{Float, Integer, ValueModel};

verus! {

proof fn lemma_be_bytes_len(v: nat, n: nat)
    ensures
        be_bytes(v, n).len() == n,
    decreases n,
{
    if n > 0 {
        lemma_be_bytes_len(v / 256, (n - 1) as nat);
    }
}

proof fn lemma_be_read(b: Seq<u8>, pos: int, v: nat, n: nat)
    requires
        0 <= pos,
        pos + n <= b.len(),
        b.subrange(pos, pos + n) == be_bytes(v, n),
    ensures
        be(b, pos, n) == v % pow256(n),
    decreases n,
{
    lemma_be_bytes_len(v, n);
    if n == 0 {
        assert(v % 1 == 0);
    } else {
        let m = (n - 1) as nat;
        lemma_be_bytes_len(v / 256, m);
        assert(b.subrange(pos, pos + m) =~= b.subrange(pos, pos + n).subrange(0, m as int));
        assert(b.subrange(pos, pos + n).subrange(0, m as int) =~= be_bytes(v / 256, m));
        assert(b[pos + n - 1] == b.subrange(pos, pos + n)[n - 1]);
        lemma_be_read(b, pos, v / 256, m);
        lemma_pow256_pos(m);
        lemma_breakdown(v as int, 256, pow256(m) as int);
    }
}

/// A marker and a big-endian field, found where they were written.
proof fn lemma_marked_read(b: Seq<u8>, p: int, m: u8, v: nat, n: nat)
    requires
        0 <= p,
        p + 1 + n <= b.len(),
        b.subrange(p, p + 1 + n) == marked(m, v, n),
        v < pow256(n),
    ensures
        b[p] == m,
        be(b, p + 1, n) == v,
        marked(m, v, n).len() == 1 + n,
{
    lemma_be_bytes_len(v, n);
    assert(b[p] == b.subrange(p, p + 1 + n)[0]);
    assert(b.subrange(p + 1, p + 1 + n) =~= b.subrange(p, p + 1 + n).subrange(1, 1 + n as int));
    assert(marked(m, v, n).subrange(1, 1 + n as int) =~= be_bytes(v, n));
    lemma_be_read(b, p + 1, v, n);
    lemma_small_mod(v, pow256(n));
}

proof fn lemma_unsigned_parses(b: Seq<u8>, p: int, d: nat, m: u8, v: nat, n: nat)
    requires
        0xcc <= m <= 0xcf,
        field_width(m) == n,
        v < pow256(n),
        0 <= p,
        p + 1 + n <= b.len(),
        b.subrange(p, p + 1 + n) == marked(m, v, n),
    ensures
        parse_value(b, p, d) == Ok::<(ValueModel, int), DecodeError>(
            (ValueModel::Integer(Integer::U64(v as u64)), p + 1 + n),
        ),
{
    lemma_marked_read(b, p, m, v, n);
}

proof fn lemma_signed_parses(b: Seq<u8>, p: int, d: nat, m: u8, v: int, n: nat)
    requires
        0xd0 <= m <= 0xd3,
        field_width(m) == n,
        -(pow256(n) / 2) <= v < pow256(n) / 2,
        0 <= p,
        p + 1 + n <= b.len(),
        b.subrange(p, p + 1 + n) == marked(m, unsigned_of(v, n), n),
    ensures
        parse_value(b, p, d) == Ok::<(ValueModel, int), DecodeError>(
            (ValueModel::Integer(Integer::I64(v as i64)), p + 1 + n),
        ),
{
    lemma_pow256_values();
    assert((8 * n) / 8 == n);
    lemma_marked_read(b, p, m, unsigned_of(v, n), n);
}

proof fn lemma_float_parses(b: Seq<u8>, p: int, d: nat, m: u8, v: nat, n: nat)
    requires
        m == 0xca && n == 4 || m == 0xcb && n == 8,
        v < pow256(n),
        0 <= p,
        p + 1 + n <= b.len(),
        b.subrange(p, p + 1 + n) == marked(m, v, n),
    ensures
        parse_value(b, p, d) == Ok::<(ValueModel, int), DecodeError>(
            (
                if m == 0xca {
                    ValueModel::Float(Float::F32(v as u32))
                } else {
                    ValueModel::Float(Float::F64(v as u64))
                },
                p + 1 + n,
            ),
        ),
{
    lemma_marked_read(b, p, m, v, n);
}

proof fn lemma_uint_parses(b: Seq<u8>, p: int, d: nat, v: u64)
    requires
        0 <= p,
        p + uint_bytes(v).len() <= b.len(),
        b.subrange(p, p + uint_bytes(v).len()) == uint_bytes(v),
    ensures
        parse_value(b, p, d) == Ok::<(ValueModel, int), DecodeError>(
            (ValueModel::Integer(Integer::U64(v)), p + uint_bytes(v).len()),
        ),
{
    lemma_pow256_values();
    lemma_be_bytes_len(v as nat, 1);
    lemma_be_bytes_len(v as nat, 2);
    lemma_be_bytes_len(v as nat, 4);
    lemma_be_bytes_len(v as nat, 8);
    if v < 128 {
        assert(b[p] == b.subrange(p, p + 1)[0]);
    } else if v < 256 {
        lemma_unsigned_parses(b, p, d, 0xcc, v as nat, 1);
    } else if v < 65536 {
        lemma_unsigned_parses(b, p, d, 0xcd, v as nat, 2);
    } else if v < 4294967296 {
        lemma_unsigned_parses(b, p, d, 0xce, v as nat, 4);
    } else {
        lemma_unsigned_parses(b, p, d, 0xcf, v as nat, 8);
    }
}

proof fn lemma_sint_parses(b: Seq<u8>, p: int, d: nat, v: i64)
    requires
        0 <= p,
        p + sint_bytes(v).len() <= b.len(),
        b.subrange(p, p + sint_bytes(v).len()) == sint_bytes(v),
    ensures
        parse_value(b, p, d) == Ok::<(ValueModel, int), DecodeError>(
            (
                if v >= 0 {
                    ValueModel::Integer(Integer::U64(v as u64))
                } else {
                    ValueModel::Integer(Integer::I64(v))
                },
                p + sint_bytes(v).len(),
            ),
        ),
{
    lemma_pow256_values();
    if -32 <= v < 0 {
        assert(b[p] == b.subrange(p, p + 1)[0]);
    } else if -128 <= v < 0 {
        lemma_be_bytes_len(unsigned_of(v as int, 1), 1);
        lemma_signed_parses(b, p, d, 0xd0, v as int, 1);
    } else if -32768 <= v < 0 {
        lemma_be_bytes_len(unsigned_of(v as int, 2), 2);
        lemma_signed_parses(b, p, d, 0xd1, v as int, 2);
    } else if -2147483648 <= v < 0 {
        lemma_be_bytes_len(unsigned_of(v as int, 4), 4);
        lemma_signed_parses(b, p, d, 0xd2, v as int, 4);
    } else if v < 0 {
        lemma_be_bytes_len(unsigned_of(v as int, 8), 8);
        lemma_signed_parses(b, p, d, 0xd3, v as int, 8);
    } else {
        lemma_uint_parses(b, p, d, v as u64);
    }
}

/// A string or binary header followed by `n` bytes of data.
proof fn lemma_sized_header(b: Seq<u8>, p: int, h: Seq<u8>, data: Seq<u8>) -> (q: int)
    requires
        0 <= p,
        p + h.len() + data.len() <= b.len(),
        b.subrange(p, p + h.len() + data.len()) == h + data,
    ensures
        q == p + h.len(),
        b.subrange(p, q) == h,
        b.subrange(q, q + data.len()) == data,
{
    assert(b.subrange(p, p + h.len()) =~= b.subrange(p, p + h.len() + data.len()).subrange(
        0,
        h.len() as int,
    ));
    assert(b.subrange(p + h.len(), p + h.len() + data.len()) =~= b.subrange(
        p,
        p + h.len() + data.len(),
    ).subrange(h.len() as int, (h.len() + data.len()) as int));
    assert((h + data).subrange(0, h.len() as int) =~= h);
    assert((h + data).subrange(h.len() as int, (h.len() + data.len()) as int) =~= data);
    p + h.len()
}

proof fn lemma_str_parses(b: Seq<u8>, p: int, d: nat, s: Seq<char>)
    requires
        encode_utf8(s).len() < 4294967296,
        0 <= p,
        p + token_bytes(Token::Str(s)).len() <= b.len(),
        b.subrange(p, p + token_bytes(Token::Str(s)).len()) == token_bytes(Token::Str(s)),
    ensures
        parse_value(b, p, d) == Ok::<(ValueModel, int), DecodeError>(
            (ValueModel::String(s), p + token_bytes(Token::Str(s)).len()),
        ),
{
    let data = encode_utf8(s);
    let n = data.len();
    let h = str_header(n);
    lemma_pow256_values();
    encode_utf8_valid_utf8(s);
    encode_utf8_decode_utf8(s);
    let q = lemma_sized_header(b, p, h, data);
    if n < 32 {
        assert(b[p] == b.subrange(p, q)[0]);
    } else if n < 256 {
        lemma_be_bytes_len(n, 1);
        lemma_marked_read(b, p, 0xd9, n, 1);
    } else if n < 65536 {
        lemma_be_bytes_len(n, 2);
        lemma_marked_read(b, p, 0xda, n, 2);
    } else {
        lemma_be_bytes_len(n, 4);
        lemma_marked_read(b, p, 0xdb, n, 4);
    }
}

proof fn lemma_bin_parses(b: Seq<u8>, p: int, d: nat, data: Seq<u8>)
    requires
        data.len() < 4294967296,
        0 <= p,
        p + token_bytes(Token::Bin(data)).len() <= b.len(),
        b.subrange(p, p + token_bytes(Token::Bin(data)).len()) == token_bytes(Token::Bin(data)),
    ensures
        parse_value(b, p, d) == Ok::<(ValueModel, int), DecodeError>(
            (ValueModel::Binary(data), p + token_bytes(Token::Bin(data)).len()),
        ),
{
    let n = data.len();
    let h = bin_header(n);
    lemma_pow256_values();
    let q = lemma_sized_header(b, p, h, data);
    if n < 256 {
        lemma_be_bytes_len(n, 1);
        lemma_marked_read(b, p, 0xc4, n, 1);
    } else if n < 65536 {
        lemma_be_bytes_len(n, 2);
        lemma_marked_read(b, p, 0xc5, n, 2);
    } else {
        lemma_be_bytes_len(n, 4);
        lemma_marked_read(b, p, 0xc6, n, 4);
    }
}

/// A token that is a whole value reads back as that value, wherever it was written.
pub proof fn lemma_token_parses(b: Seq<u8>, p: int, d: nat, t: Token)
    requires
        token_fits(t),
        token_value(t) is Some,
        0 <= p,
        p + token_bytes(t).len() <= b.len(),
        b.subrange(p, p + token_bytes(t).len()) == token_bytes(t),
    ensures
        token_bytes(t).len() >= 1,
        parse_value(b, p, d) == Ok::<(ValueModel, int), DecodeError>(
            (token_value(t)->0, p + token_bytes(t).len()),
        ),
{
    lemma_pow256_values();
    match t {
        Token::Nil | Token::Bool(_) | Token::Pfix(_) | Token::Nfix(_) => {
            assert(b[p] == b.subrange(p, p + 1)[0]);
        },
        Token::U8(v) => {
            lemma_be_bytes_len(v as nat, 1);
            lemma_unsigned_parses(b, p, d, 0xcc, v as nat, 1);
        },
        Token::U16(v) => {
            lemma_be_bytes_len(v as nat, 2);
            lemma_unsigned_parses(b, p, d, 0xcd, v as nat, 2);
        },
        Token::U32(v) => {
            lemma_be_bytes_len(v as nat, 4);
            lemma_unsigned_parses(b, p, d, 0xce, v as nat, 4);
        },
        Token::U64(v) => {
            lemma_be_bytes_len(v as nat, 8);
            lemma_unsigned_parses(b, p, d, 0xcf, v as nat, 8);
        },
        Token::Uint(v) => {
            lemma_uint_parses(b, p, d, v);
        },
        Token::I8(v) => {
            lemma_be_bytes_len(unsigned_of(v as int, 1), 1);
            lemma_signed_parses(b, p, d, 0xd0, v as int, 1);
        },
        Token::I16(v) => {
            lemma_be_bytes_len(unsigned_of(v as int, 2), 2);
            lemma_signed_parses(b, p, d, 0xd1, v as int, 2);
        },
        Token::I32(v) => {
            lemma_be_bytes_len(unsigned_of(v as int, 4), 4);
            lemma_signed_parses(b, p, d, 0xd2, v as int, 4);
        },
        Token::I64(v) => {
            lemma_be_bytes_len(unsigned_of(v as int, 8), 8);
            lemma_signed_parses(b, p, d, 0xd3, v as int, 8);
        },
        Token::Sint(v) => {
            lemma_sint_parses(b, p, d, v);
        },
        Token::F32(bits) => {
            lemma_be_bytes_len(bits as nat, 4);
            lemma_float_parses(b, p, d, 0xca, bits as nat, 4);
        },
        Token::F64(bits) => {
            lemma_be_bytes_len(bits as nat, 8);
            lemma_float_parses(b, p, d, 0xcb, bits as nat, 8);
        },
        Token::Str(x) => {
            lemma_str_parses(b, p, d, x);
        },
        Token::Bin(x) => {
            lemma_bin_parses(b, p, d, x);
        },
        _ => {},
    }
}

/// What a written pair reads back as.
pub open spec fn field_model(f: Field) -> (ValueModel, ValueModel) {
    (ValueModel::String(f.key), token_value(f.token)->0)
}

/// What a written row reads back as: a map of its pairs, in the order written.
pub open spec fn row_model(r: RowModel) -> ValueModel {
    ValueModel::Pairs(Seq::new(r.fields.len(), |i: int| field_model(r.fields[i])))
}

/// A pair whose key and value the writer accepted, and whose value is whole (not a header).
pub open spec fn field_readable(f: Field) -> bool {
    &&& token_fits(Token::Str(f.key))
    &&& token_fits(f.token)
    &&& token_value(f.token) is Some
}

/// A row with all its declared pairs, each of them readable.
pub open spec fn row_readable(r: RowModel) -> bool {
    &&& r.fields.len() == r.declared
    &&& r.declared < 4294967296
    &&& forall|i: int| 0 <= i < r.fields.len() ==> field_readable(#[trigger] r.fields[i])
}

proof fn lemma_split(b: Seq<u8>, p: int, x: Seq<u8>, y: Seq<u8>)
    requires
        0 <= p,
        p + x.len() + y.len() <= b.len(),
        b.subrange(p, p + x.len() + y.len()) == x + y,
    ensures
        b.subrange(p, p + x.len()) == x,
        b.subrange(p + x.len(), p + x.len() + y.len()) == y,
{
    lemma_sized_header(b, p, x, y);
}

proof fn lemma_fields_front(fs: Seq<Field>)
    requires
        fs.len() > 0,
    ensures
        fields_bytes(fs) == field_bytes(fs[0]) + fields_bytes(fs.drop_first()),
    decreases fs.len(),
{
    if fs.len() == 1 {
        assert(fs.drop_last() =~= Seq::<Field>::empty());
        assert(fs.drop_first() =~= Seq::<Field>::empty());
        assert(fields_bytes(fs) =~= field_bytes(fs[0]) + fields_bytes(fs.drop_first()));
    } else {
        lemma_fields_front(fs.drop_last());
        assert(fs.drop_first().drop_last() =~= fs.drop_last().drop_first());
        assert(fs.drop_last()[0] == fs[0]);
        assert(fs.drop_first().last() == fs.last());
        assert(fields_bytes(fs) =~= field_bytes(fs[0]) + fields_bytes(fs.drop_first()));
    }
}

proof fn lemma_rows_front(rs: Seq<RowModel>)
    requires
        rs.len() > 0,
    ensures
        rows_bytes(rs) == row_bytes(rs[0]) + rows_bytes(rs.drop_first()),
    decreases rs.len(),
{
    if rs.len() == 1 {
        assert(rs.drop_last() =~= Seq::<RowModel>::empty());
        assert(rs.drop_first() =~= Seq::<RowModel>::empty());
        assert(rows_bytes(rs) =~= row_bytes(rs[0]) + rows_bytes(rs.drop_first()));
    } else {
        lemma_rows_front(rs.drop_last());
        assert(rs.drop_first().drop_last() =~= rs.drop_last().drop_first());
        assert(rs.drop_last()[0] == rs[0]);
        assert(rs.drop_first().last() == rs.last());
        assert(rows_bytes(rs) =~= row_bytes(rs[0]) + rows_bytes(rs.drop_first()));
    }
}

proof fn lemma_fields_parse(b: Seq<u8>, p: int, d: nat, fs: Seq<Field>)
    requires
        0 <= p,
        p + fields_bytes(fs).len() <= b.len(),
        b.subrange(p, p + fields_bytes(fs).len()) == fields_bytes(fs),
        forall|i: int| 0 <= i < fs.len() ==> field_readable(#[trigger] fs[i]),
    ensures
        parse_pairs(b, p, fs.len(), d) == Ok::<(Seq<(ValueModel, ValueModel)>, int), DecodeError>(
            (Seq::new(fs.len(), |i: int| field_model(fs[i])), p + fields_bytes(fs).len()),
        ),
    decreases fs.len(),
{
    if fs.len() == 0 {
        assert(Seq::new(fs.len(), |i: int| field_model(fs[i])) =~= seq![]);
    } else {
        lemma_fields_front(fs);
        let f = fs[0];
        assert(field_readable(f));
        let kb = token_bytes(Token::Str(f.key));
        let vb = token_bytes(f.token);
        let rest = fs.drop_first();
        let rb = fields_bytes(rest);
        lemma_split(b, p, kb + vb, rb);
        lemma_split(b, p, kb, vb);
        lemma_token_parses(b, p, d, Token::Str(f.key));
        lemma_token_parses(b, p + kb.len(), d, f.token);
        assert forall|i: int| 0 <= i < rest.len() implies field_readable(#[trigger] rest[i]) by {
            assert(rest[i] == fs[i + 1]);
        }
        lemma_fields_parse(b, p + kb.len() + vb.len(), d, rest);
        assert(Seq::new(fs.len(), |i: int| field_model(fs[i])) =~= seq![field_model(f)] + Seq::new(
            rest.len(),
            |i: int| field_model(rest[i]),
        ));
    }
}

proof fn lemma_row_parses(b: Seq<u8>, p: int, r: RowModel)
    requires
        row_readable(r),
        0 <= p,
        p + row_bytes(r).len() <= b.len(),
        b.subrange(p, p + row_bytes(r).len()) == row_bytes(r),
    ensures
        row_bytes(r).len() >= 1,
        parse_value(b, p, 0) == Ok::<(ValueModel, int), DecodeError>(
            (row_model(r), p + row_bytes(r).len()),
        ),
{
    let n = r.declared;
    let h = map_header(n);
    let fb = fields_bytes(r.fields);
    lemma_pow256_values();
    lemma_split(b, p, h, fb);
    lemma_fields_parse(b, p + h.len(), 1, r.fields);
    if n < 16 {
        assert(b[p] == b.subrange(p, p + 1)[0]);
    } else if n < 65536 {
        lemma_be_bytes_len(n, 2);
        lemma_marked_read(b, p, 0xde, n, 2);
    } else {
        lemma_be_bytes_len(n, 4);
        lemma_marked_read(b, p, 0xdf, n, 4);
    }
}

proof fn lemma_rows_parse(b: Seq<u8>, p: int, rs: Seq<RowModel>)
    requires
        0 <= p,
        p + rows_bytes(rs).len() == b.len(),
        b.subrange(p, b.len() as int) == rows_bytes(rs),
        forall|i: int| 0 <= i < rs.len() ==> row_readable(#[trigger] rs[i]),
    ensures
        parse_values(b, p) == Ok::<Seq<ValueModel>, DecodeError>(
            Seq::new(rs.len(), |i: int| row_model(rs[i])),
        ),
    decreases rs.len(),
{
    if rs.len() == 0 {
        assert(Seq::new(rs.len(), |i: int| row_model(rs[i])) =~= seq![]);
    } else {
        lemma_rows_front(rs);
        let r = rs[0];
        assert(row_readable(r));
        let rest = rs.drop_first();
        lemma_split(b, p, row_bytes(r), rows_bytes(rest));
        lemma_row_parses(b, p, r);
        assert forall|i: int| 0 <= i < rest.len() implies row_readable(#[trigger] rest[i]) by {
            assert(rest[i] == rs[i + 1]);
        }
        lemma_rows_parse(b, p + row_bytes(r).len(), rest);
        assert(Seq::new(rs.len(), |i: int| row_model(rs[i])) =~= seq![row_model(r)] + Seq::new(
            rest.len(),
            |i: int| row_model(rest[i]),
        ));
    }
}

/// Rows written with all their declared pairs, each pair's value a whole value (not an array,
/// map or extension header), decode back to one map per row holding the same pairs in the
/// same order; each number comes back as the kind of integer its encoding names.
pub proof fn lemma_rows_round_trip(rows: Seq<RowModel>)
    requires
        forall|i: int| 0 <= i < rows.len() ==> row_readable(#[trigger] rows[i]),
    ensures
        parse_values(rows_bytes(rows), 0) == Ok::<Seq<ValueModel>, DecodeError>(
            Seq::new(rows.len(), |i: int| row_model(rows[i])),
        ),
{
    let b = rows_bytes(rows);
    assert(b.subrange(0, b.len() as int) =~= b);
    lemma_rows_parse(b, 0, rows);
}

/// A chunk whose rows all have their declared pairs, with whole values (not array, map or
/// extension headers) as the pairs' values, reads back from its compressed bytes (those taken
/// out before closing, then `data`, those that closing handed back) as one map per row,
/// holding the pairs in the order written.
pub proof fn lemma_chunk_round_trip(c: TableImportWritableChunk, data: Seq<u8>)
    requires
        c.wf(),
        c.faithful(),
        c.row_complete(),
        forall|i: int, j: int|
            0 <= i < c.rows().len() && 0 <= j < c.rows()[i].fields.len() ==> (token_value(
                #[trigger] c.rows()[i].fields[j].token,
            ) is Some),
        gunzip_of(c.emitted() + data) == c.encoded(),
    ensures
        parse_values(gunzip_of(c.emitted() + data), 0) == Ok::<Seq<ValueModel>, DecodeError>(
            Seq::new(c.rows().len(), |i: int| row_model(c.rows()[i])),
        ),
{
    c.lemma_rows_shape();
    let rows = c.rows();
    assert forall|i: int| 0 <= i < rows.len() implies row_readable(#[trigger] rows[i]) by {
        assert forall|j: int| 0 <= j < rows[i].fields.len() implies field_readable(
            #[trigger] rows[i].fields[j],
        ) by {
            assert(field_fits(rows[i].fields[j]));
            assert(token_value(rows[i].fields[j].token) is Some);
        }
    }
    lemma_rows_round_trip(rows);
}

} // verus!
