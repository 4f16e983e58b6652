use vstd::prelude::*;
use vstd::slice::{slice_subrange, slice_to_vec};
use vstd::string::StringSliceAdditionalSpecFns;
use vstd::utf8::{decode_utf8, encode_utf8_decode_utf8, valid_utf8};

use crate::bytes::{be, lemma_be_bound, lemma_pow256_values, read_be, signed, to_signed};
use crate::value::{Float, Integer, Value, ValueModel};

verus! {

/// How deeply arrays and maps may nest before decoding gives up.
pub const MAX_DEPTH: usize = 1024;

/// Why a MessagePack value could not be decoded.
#[derive(Copy, Clone, Debug, PartialEq, Eq, Structural)]
pub enum DecodeError {
    /// The input ended inside a value.
    Truncated,
    /// The marker byte `0xc1`, which no value uses.
    ReservedMarker,
    /// A string whose bytes are not UTF-8.
    InvalidUtf8,
    /// Arrays and maps nested deeper than `MAX_DEPTH`.
    DepthLimitExceeded,
}

/// What decoding one value from a position yields: the value and the position after it.
pub type Parsed = Result<(ValueModel, int), DecodeError>;

/// The size of the big-endian field that follows marker `m` (a length or a number).
pub open spec fn field_width(m: u8) -> nat {
    if m == 0xc4 || m == 0xc7 || m == 0xcc || m == 0xd0 || m == 0xd9 {
        1
    } else if m == 0xc5 || m == 0xc8 || m == 0xcd || m == 0xd1 || m == 0xda || m == 0xdc
        || m == 0xde {
        2
    } else if m == 0xc6 || m == 0xc9 || m == 0xca || m == 0xce || m == 0xd2 || m == 0xdb
        || m == 0xdd || m == 0xdf {
        4
    } else if m == 0xcb || m == 0xcf || m == 0xd3 {
        8
    } else {
        0
    }
}

/// The data length of a fixed-size extension marker (`0xd4` to `0xd8`).
pub open spec fn fixext_len(m: u8) -> nat {
    if m == 0xd4 {
        1
    } else if m == 0xd5 {
        2
    } else if m == 0xd6 {
        4
    } else if m == 0xd7 {
        8
    } else {
        16
    }
}

/// Decodes the value that starts at `pos`; `depth` counts the enclosing arrays and maps.
pub open spec fn parse_value(b: Seq<u8>, pos: int, depth: nat) -> Parsed
    decreases b.len() - pos, 0int, 0int,
{
    if pos < 0 || pos >= b.len() {
        Err(DecodeError::Truncated)
    } else {
        let m = b[pos];
        let p = pos + 1;
        if m <= 0x7f {
            Ok((ValueModel::Integer(Integer::U64(m as u64)), p))
        } else if m >= 0xe0 {
            Ok((ValueModel::Integer(Integer::I64((m - 256) as i64)), p))
        } else if m <= 0x8f {
            parse_map_body(b, p, (m - 0x80) as nat, depth)
        } else if m <= 0x9f {
            parse_array_body(b, p, (m - 0x90) as nat, depth)
        } else if m <= 0xbf {
            parse_str_body(b, p, (m - 0xa0) as nat)
        } else if m == 0xc0 {
            Ok((ValueModel::Nil, p))
        } else if m == 0xc1 {
            Err(DecodeError::ReservedMarker)
        } else if m == 0xc2 {
            Ok((ValueModel::Boolean(false), p))
        } else if m == 0xc3 {
            Ok((ValueModel::Boolean(true), p))
        } else if 0xd4 <= m <= 0xd8 {
            parse_ext_body(b, p, fixext_len(m))
        } else if p + field_width(m) > b.len() {
            Err(DecodeError::Truncated)
        } else {
            let w = field_width(m);
            let n = be(b, p, w);
            let q = p + w;
            if m <= 0xc6 {
                parse_bin_body(b, q, n)
            } else if m <= 0xc9 {
                parse_ext_body(b, q, n)
            } else if m == 0xca {
                Ok((ValueModel::Float(Float::F32(n as u32)), q))
            } else if m == 0xcb {
                Ok((ValueModel::Float(Float::F64(n as u64)), q))
            } else if m <= 0xcf {
                Ok((ValueModel::Integer(Integer::U64(n as u64)), q))
            } else if m <= 0xd3 {
                Ok((ValueModel::Integer(Integer::I64(signed(n, 8 * w) as i64)), q))
            } else if m <= 0xdb {
                parse_str_body(b, q, n)
            } else if m <= 0xdd {
                parse_array_body(b, q, n, depth)
            } else {
                parse_map_body(b, q, n, depth)
            }
        }
    }
}

/// The `n` bytes of a string at `p`.
pub open spec fn parse_str_body(b: Seq<u8>, p: int, n: nat) -> Parsed {
    if p + n > b.len() {
        Err(DecodeError::Truncated)
    } else if !valid_utf8(b.subrange(p, p + n)) {
        Err(DecodeError::InvalidUtf8)
    } else {
        Ok((ValueModel::String(decode_utf8(b.subrange(p, p + n))), p + n))
    }
}

/// The `n` bytes of a binary string at `p`.
pub open spec fn parse_bin_body(b: Seq<u8>, p: int, n: nat) -> Parsed {
    if p + n > b.len() {
        Err(DecodeError::Truncated)
    } else {
        Ok((ValueModel::Binary(b.subrange(p, p + n)), p + n))
    }
}

/// The type byte and `n` data bytes of an extension value at `p`.
pub open spec fn parse_ext_body(b: Seq<u8>, p: int, n: nat) -> Parsed {
    if p + 1 + n > b.len() {
        Err(DecodeError::Truncated)
    } else {
        Ok((ValueModel::Ext(signed(b[p] as nat, 8) as i8, b.subrange(p + 1, p + 1 + n)), p + 1 + n))
    }
}

/// The `n` elements of an array at `p`.
pub open spec fn parse_array_body(b: Seq<u8>, p: int, n: nat, depth: nat) -> Parsed
    decreases b.len() - p, 3int, 0int,
{
    if depth >= MAX_DEPTH {
        Err(DecodeError::DepthLimitExceeded)
    } else if p < 0 || p > b.len() {
        Err(DecodeError::Truncated)
    } else {
        match parse_items(b, p, n, depth + 1) {
            Ok((vs, e)) => Ok((ValueModel::Array(vs), e)),
            Err(x) => Err(x),
        }
    }
}

/// The `n` key/value pairs of a map at `p`.
pub open spec fn parse_map_body(b: Seq<u8>, p: int, n: nat, depth: nat) -> Parsed
    decreases b.len() - p, 3int, 0int,
{
    if depth >= MAX_DEPTH {
        Err(DecodeError::DepthLimitExceeded)
    } else if p < 0 || p > b.len() {
        Err(DecodeError::Truncated)
    } else {
        match parse_pairs(b, p, n, depth + 1) {
            Ok((ps, e)) => Ok((ValueModel::Pairs(ps), e)),
            Err(x) => Err(x),
        }
    }
}

/// `n` values one after another from `pos`.
pub open spec fn parse_items(b: Seq<u8>, pos: int, n: nat, depth: nat) -> Result<
    (Seq<ValueModel>, int),
    DecodeError,
>
    decreases b.len() - pos, 1int, n,
{
    if n == 0 {
        Ok((seq![], pos))
    } else if pos < 0 || pos > b.len() {
        Err(DecodeError::Truncated)
    } else {
        match parse_value(b, pos, depth) {
            Err(x) => Err(x),
            Ok((v, p)) => if p <= pos || p > b.len() {
                Err(DecodeError::Truncated)
            } else {
                match parse_items(b, p, (n - 1) as nat, depth) {
                    Ok((vs, e)) => Ok((seq![v] + vs, e)),
                    Err(x) => Err(x),
                }
            },
        }
    }
}

/// `n` key/value pairs one after another from `pos`.
pub open spec fn parse_pairs(b: Seq<u8>, pos: int, n: nat, depth: nat) -> Result<
    (Seq<(ValueModel, ValueModel)>, int),
    DecodeError,
>
    decreases b.len() - pos, 1int, n,
{
    if n == 0 {
        Ok((seq![], pos))
    } else if pos < 0 || pos > b.len() {
        Err(DecodeError::Truncated)
    } else {
        match parse_value(b, pos, depth) {
            Err(x) => Err(x),
            Ok((k, p)) => if p <= pos || p > b.len() {
                Err(DecodeError::Truncated)
            } else {
                match parse_value(b, p, depth) {
                    Err(x) => Err(x),
                    Ok((v, q)) => if q <= p || q > b.len() {
                        Err(DecodeError::Truncated)
                    } else {
                        match parse_pairs(b, q, (n - 1) as nat, depth) {
                            Ok((ps, e)) => Ok((seq![(k, v)] + ps, e)),
                            Err(x) => Err(x),
                        }
                    },
                }
            },
        }
    }
}

/// Every top-level value from `pos` to the end of the input.
pub open spec fn parse_values(b: Seq<u8>, pos: int) -> Result<Seq<ValueModel>, DecodeError>
    decreases b.len() - pos,
{
    if pos < 0 || pos >= b.len() {
        Ok(seq![])
    } else {
        match parse_value(b, pos, 0) {
            Err(x) => Err(x),
            Ok((v, e)) => if e <= pos || e > b.len() {
                Err(DecodeError::Truncated)
            } else {
                match parse_values(b, e) {
                    Ok(vs) => Ok(seq![v] + vs),
                    Err(x) => Err(x),
                }
            },
        }
    }
}

/// States that an executable decoding result is `parsed`, ending between `lo` and `hi`.
pub open spec fn agrees(parsed: Parsed, r: Result<(Value, usize), DecodeError>, lo: int, hi: int) -> bool {
    match r {
        Ok((v, e)) => parsed == Ok::<(ValueModel, int), DecodeError>((v.model(), e as int)) && lo
            <= e <= hi,
        Err(x) => parsed == Err::<(ValueModel, int), DecodeError>(x),
    }
}

/// States that an executable decoding result agrees with `parse_value`.
pub open spec fn decoded_as(
    b: Seq<u8>,
    pos: int,
    depth: nat,
    r: Result<(Value, usize), DecodeError>,
) -> bool {
    agrees(parse_value(b, pos, depth), r, pos + 1, b.len() as int)
}

/// The models of a sequence of values.
pub open spec fn models(s: Seq<Value>) -> Seq<ValueModel> {
    Seq::new(s.len(), |i: int| s[i].model())
}

/// The models of a sequence of key/value pairs.
pub open spec fn pair_models(s: Seq<(Value, Value)>) -> Seq<(ValueModel, ValueModel)> {
    Seq::new(s.len(), |i: int| (s[i].0.model(), s[i].1.model()))
}

/// Puts `pre` in front of the values of a successful decoding.
pub open spec fn prepend<T>(pre: Seq<T>, r: Result<(Seq<T>, int), DecodeError>) -> Result<
    (Seq<T>, int),
    DecodeError,
> {
    match r {
        Ok((vs, e)) => Ok((pre + vs, e)),
        Err(x) => Err(x),
    }
}

proof fn lemma_prepend_one<T>(pre: Seq<T>, v: T, r: Result<(Seq<T>, int), DecodeError>)
    ensures
        prepend(pre, prepend(seq![v], r)) == prepend(pre.push(v), r),
{
    match r {
        Ok((vs, e)) => {
            assert(pre + (seq![v] + vs) =~= pre.push(v) + vs);
        },
        Err(x) => {},
    }
}

/// Relies on std::str::from_utf8: it accepts exactly the valid UTF-8 byte strings, and the
/// string it returns is made of those bytes.
#[verifier::external_body]
fn utf8_str(b: &[u8]) -> (r: Option<&str>)
    ensures
        r is Some <==> valid_utf8(b@),
        r matches Some(s) ==> s.spec_bytes() == b@,
{
    std::str::from_utf8(b).ok()
}

fn marker_field_width(m: u8) -> (r: usize)
    ensures
        r as nat == field_width(m),
{
    if m == 0xc4 || m == 0xc7 || m == 0xcc || m == 0xd0 || m == 0xd9 {
        1
    } else if m == 0xc5 || m == 0xc8 || m == 0xcd || m == 0xd1 || m == 0xda || m == 0xdc
        || m == 0xde {
        2
    } else if m == 0xc6 || m == 0xc9 || m == 0xca || m == 0xce || m == 0xd2 || m == 0xdb
        || m == 0xdd || m == 0xdf {
        4
    } else if m == 0xcb || m == 0xcf || m == 0xd3 {
        8
    } else {
        0
    }
}

fn marker_fixext_len(m: u8) -> (r: u64)
    ensures
        r as nat == fixext_len(m),
{
    if m == 0xd4 {
        1
    } else if m == 0xd5 {
        2
    } else if m == 0xd6 {
        4
    } else if m == 0xd7 {
        8
    } else {
        16
    }
}

fn decode_str_body(b: &[u8], p: usize, n: u64) -> (r: Result<(Value, usize), DecodeError>)
    requires
        p <= b@.len(),
    ensures
        agrees(parse_str_body(b@, p as int, n as nat), r, p as int, b@.len() as int),
{
    if n > (b.len() - p) as u64 {
        return Err(DecodeError::Truncated);
    }
    let end = p + n as usize;
    let sub = slice_subrange(b, p, end);
    match utf8_str(sub) {
        None => Err(DecodeError::InvalidUtf8),
        Some(s) => {
            proof {
                encode_utf8_decode_utf8(s@);
            }
            Ok((Value::String(s.to_owned()), end))
        },
    }
}

fn decode_bin_body(b: &[u8], p: usize, n: u64) -> (r: Result<(Value, usize), DecodeError>)
    requires
        p <= b@.len(),
    ensures
        agrees(parse_bin_body(b@, p as int, n as nat), r, p as int, b@.len() as int),
{
    if n > (b.len() - p) as u64 {
        return Err(DecodeError::Truncated);
    }
    let end = p + n as usize;
    let data = slice_to_vec(slice_subrange(b, p, end));
    Ok((Value::Binary(data), end))
}

fn decode_ext_body(b: &[u8], p: usize, n: u64) -> (r: Result<(Value, usize), DecodeError>)
    requires
        p <= b@.len(),
    ensures
        agrees(parse_ext_body(b@, p as int, n as nat), r, p as int, b@.len() as int),
{
    if p >= b.len() || n > (b.len() - p - 1) as u64 {
        return Err(DecodeError::Truncated);
    }
    proof {
        lemma_pow256_values();
    }
    let ty = to_signed(b[p] as u64, 1) as i8;
    let end = p + 1 + n as usize;
    let data = slice_to_vec(slice_subrange(b, p + 1, end));
    Ok((Value::Ext(ty, data), end))
}

fn decode_array_body(b: &[u8], p: usize, n: u64, depth: usize) -> (r: Result<
    (Value, usize),
    DecodeError,
>)
    requires
        p <= b@.len(),
    ensures
        agrees(parse_array_body(b@, p as int, n as nat, depth as nat), r, p as int, b@.len() as int),
    decreases b@.len() - p, 3int,
{
    if depth >= MAX_DEPTH {
        return Err(DecodeError::DepthLimitExceeded);
    }
    let ghost d = (depth + 1) as nat;
    let mut items: Vec<Value> = Vec::new();
    let mut cur = p;
    let mut i: u64 = 0;
    while i < n
        invariant
            p <= cur <= b@.len(),
            i <= n,
            depth < MAX_DEPTH,
            d == depth + 1,
            parse_items(b@, p as int, n as nat, d) == prepend(
                models(items@),
                parse_items(b@, cur as int, (n - i) as nat, d),
            ),
        decreases n - i,
    {
        let r = decode_value(b, cur, depth + 1);
        match r {
            Err(x) => {
                return Err(x);
            },
            Ok((v, e)) => {
                proof {
                    lemma_prepend_one(models(items@), v.model(), parse_items(b@, e as int, (n - i - 1) as nat, d));
                    assert(models(items@.push(v)) =~= models(items@).push(v.model()));
                }
                items.push(v);
                cur = e;
                i = i + 1;
            },
        }
    }
    proof {
        assert(models(items@) + seq![] =~= models(items@));
    }
    let ghost iv = items@;
    let out = Value::Array(items);
    assert(out.model() == ValueModel::Array(models(iv))) by {
        if let ValueModel::Array(s) = out.model() {
            assert(s =~= models(iv));
        }
    }
    Ok((out, cur))
}

fn decode_map_body(b: &[u8], p: usize, n: u64, depth: usize) -> (r: Result<
    (Value, usize),
    DecodeError,
>)
    requires
        p <= b@.len(),
    ensures
        agrees(parse_map_body(b@, p as int, n as nat, depth as nat), r, p as int, b@.len() as int),
    decreases b@.len() - p, 3int,
{
    if depth >= MAX_DEPTH {
        return Err(DecodeError::DepthLimitExceeded);
    }
    let ghost d = (depth + 1) as nat;
    let mut pairs: Vec<(Value, Value)> = Vec::new();
    let mut cur = p;
    let mut i: u64 = 0;
    while i < n
        invariant
            p <= cur <= b@.len(),
            i <= n,
            depth < MAX_DEPTH,
            d == depth + 1,
            parse_pairs(b@, p as int, n as nat, d) == prepend(
                pair_models(pairs@),
                parse_pairs(b@, cur as int, (n - i) as nat, d),
            ),
        decreases n - i,
    {
        let rk = decode_value(b, cur, depth + 1);
        let (k, e1) = match rk {
            Err(x) => {
                return Err(x);
            },
            Ok(kv) => kv,
        };
        let rv = decode_value(b, e1, depth + 1);
        let (v, e2) = match rv {
            Err(x) => {
                return Err(x);
            },
            Ok(vv) => vv,
        };
        proof {
            lemma_prepend_one(pair_models(pairs@), (k.model(), v.model()), parse_pairs(b@, e2 as int, (n - i - 1) as nat, d));
            assert(pair_models(pairs@.push((k, v))) =~= pair_models(pairs@).push((k.model(), v.model())));
        }
        pairs.push((k, v));
        cur = e2;
        i = i + 1;
    }
    proof {
        assert(pair_models(pairs@) + seq![] =~= pair_models(pairs@));
    }
    let ghost pv = pairs@;
    let out = Value::Pairs(pairs);
    assert(out.model() == ValueModel::Pairs(pair_models(pv))) by {
        if let ValueModel::Pairs(s) = out.model() {
            assert(s =~= pair_models(pv));
        }
    }
    Ok((out, cur))
}

/// Decodes every MessagePack value of `b`, one after another.
pub fn decode_all(b: &[u8]) -> (r: Result<Vec<Value>, DecodeError>)
    ensures
        match r {
            Ok(vs) => parse_values(b@, 0) == Ok::<Seq<ValueModel>, DecodeError>(models(vs@)),
            Err(x) => parse_values(b@, 0) == Err::<Seq<ValueModel>, DecodeError>(x),
        },
{
    let mut out: Vec<Value> = Vec::new();
    let mut pos: usize = 0;
    while pos < b.len()
        invariant
            pos <= b@.len(),
            parse_values(b@, 0) == match parse_values(b@, pos as int) {
                Ok(vs) => Ok::<Seq<ValueModel>, DecodeError>(models(out@) + vs),
                Err(x) => Err(x),
            },
        decreases b@.len() - pos,
    {
        match decode_value(b, pos, 0) {
            Err(x) => {
                return Err(x);
            },
            Ok((v, e)) => {
                proof {
                    assert(models(out@.push(v)) =~= models(out@).push(v.model()));
                    match parse_values(b@, e as int) {
                        Ok(vs) => {
                            assert(models(out@) + (seq![v.model()] + vs) =~= models(out@).push(
                                v.model(),
                            ) + vs);
                        },
                        Err(_) => {},
                    }
                }
                out.push(v);
                pos = e;
            },
        }
    }
    assert(models(out@) + seq![] =~= models(out@));
    Ok(out)
}

/// Decodes the MessagePack value that starts at `pos`, inside `depth` enclosing arrays and maps.
pub fn decode_value(b: &[u8], pos: usize, depth: usize) -> (r: Result<(Value, usize), DecodeError>)
    requires
        pos <= b@.len(),
    ensures
        decoded_as(b@, pos as int, depth as nat, r),
    decreases b@.len() - pos, 0int,
{
    if pos >= b.len() {
        return Err(DecodeError::Truncated);
    }
    let m = b[pos];
    let p = pos + 1;
    if m <= 0x7f {
        Ok((Value::Integer(Integer::U64(m as u64)), p))
    } else if m >= 0xe0 {
        Ok((Value::Integer(Integer::I64(m as i64 - 256)), p))
    } else if m <= 0x8f {
        decode_map_body(b, p, (m - 0x80) as u64, depth)
    } else if m <= 0x9f {
        decode_array_body(b, p, (m - 0x90) as u64, depth)
    } else if m <= 0xbf {
        decode_str_body(b, p, (m - 0xa0) as u64)
    } else if m == 0xc0 {
        Ok((Value::Nil, p))
    } else if m == 0xc1 {
        Err(DecodeError::ReservedMarker)
    } else if m == 0xc2 {
        Ok((Value::Boolean(false), p))
    } else if m == 0xc3 {
        Ok((Value::Boolean(true), p))
    } else if 0xd4 <= m && m <= 0xd8 {
        decode_ext_body(b, p, marker_fixext_len(m))
    } else {
        let w = marker_field_width(m);
        if w > b.len() - p {
            return Err(DecodeError::Truncated);
        }
        proof {
            lemma_be_bound(b@, p as int, w as nat);
            lemma_pow256_values();
        }
        let n = read_be(b, p, w);
        let q = p + w;
        if m <= 0xc6 {
            decode_bin_body(b, q, n)
        } else if m <= 0xc9 {
            decode_ext_body(b, q, n)
        } else if m == 0xca {
            Ok((Value::Float(Float::F32(n as u32)), q))
        } else if m == 0xcb {
            Ok((Value::Float(Float::F64(n)), q))
        } else if m <= 0xcf {
            Ok((Value::Integer(Integer::U64(n)), q))
        } else if m <= 0xd3 {
            Ok((Value::Integer(Integer::I64(to_signed(n, w))), q))
        } else if m <= 0xdb {
            decode_str_body(b, q, n)
        } else if m <= 0xdd {
            decode_array_body(b, q, n, depth)
        } else {
            decode_map_body(b, q, n, depth)
        }
    }
}

} // verus!
