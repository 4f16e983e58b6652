use vstd::prelude::*;

use crate::bytes::be;
use crate::decode::{field_width, parse_items, parse_pairs, parse_value, DecodeError, MAX_DEPTH};
use crate::value::ValueModel;

verus! {

/// The first `m` bytes of `b` agree with `b` wherever they reach.
proof fn lemma_prefix_agrees(b: Seq<u8>, m: int)
    requires
        0 <= m <= b.len(),
    ensures
        b.subrange(0, m).len() == m,
        forall|i: int| 0 <= i < m ==> #[trigger] b.subrange(0, m)[i] == b[i],
        forall|x: int, y: int|
            0 <= x <= y <= m ==> #[trigger] b.subrange(0, m).subrange(x, y) == b.subrange(x, y),
{
    assert forall|x: int, y: int| 0 <= x <= y <= m implies #[trigger] b.subrange(0, m).subrange(x, y)
        == b.subrange(x, y) by {
        assert(b.subrange(0, m).subrange(x, y) =~= b.subrange(x, y));
    }
}

proof fn lemma_be_prefix(b: Seq<u8>, m: int, p: int, w: nat)
    requires
        0 <= p,
        p + w <= m <= b.len(),
    ensures
        be(b.subrange(0, m), p, w) == be(b, p, w),
    decreases w,
{
    lemma_prefix_agrees(b, m);
    if w > 0 {
        lemma_be_prefix(b, m, p, (w - 1) as nat);
    }
}

/// Where a value ends: after its start, within the input.
pub proof fn lemma_value_end(b: Seq<u8>, pos: int, d: nat)
    requires
        parse_value(b, pos, d) is Ok,
    ensures
        pos < parse_value(b, pos, d)->Ok_0.1 <= b.len(),
        0 <= pos,
    decreases b.len() - pos, 0int, 0int,
{
    let m = b[pos];
    let p = pos + 1;
    if m <= 0x7f || m >= 0xe0 {
    } else if m <= 0x8f {
        lemma_pairs_end(b, p, (m - 0x80) as nat, d + 1);
    } else if m <= 0x9f {
        lemma_items_end(b, p, (m - 0x90) as nat, d + 1);
    } else if m <= 0xc3 || 0xd4 <= m <= 0xd8 {
    } else {
        let w = field_width(m);
        let n = be(b, p, w);
        let q = p + w;
        if 0xdc <= m <= 0xdd {
            lemma_items_end(b, q, n, d + 1);
        } else if m >= 0xde {
            lemma_pairs_end(b, q, n, d + 1);
        }
    }
}

proof fn lemma_items_end(b: Seq<u8>, p: int, n: nat, d: nat)
    requires
        0 <= p <= b.len(),
        parse_items(b, p, n, d) is Ok,
    ensures
        p <= parse_items(b, p, n, d)->Ok_0.1 <= b.len(),
    decreases b.len() - p, 1int, n,
{
    if n > 0 {
        let (_, q) = parse_value(b, p, d)->Ok_0;
        lemma_items_end(b, q, (n - 1) as nat, d);
    }
}

proof fn lemma_pairs_end(b: Seq<u8>, p: int, n: nat, d: nat)
    requires
        0 <= p <= b.len(),
        parse_pairs(b, p, n, d) is Ok,
    ensures
        p <= parse_pairs(b, p, n, d)->Ok_0.1 <= b.len(),
    decreases b.len() - p, 1int, n,
{
    if n > 0 {
        let (_, q) = parse_value(b, p, d)->Ok_0;
        let (_, r) = parse_value(b, q, d)->Ok_0;
        lemma_pairs_end(b, r, (n - 1) as nat, d);
    }
}

/// A value that ends within the first `m` bytes decodes the same from those bytes alone.
pub proof fn lemma_value_keep(b: Seq<u8>, pos: int, d: nat, m: int)
    requires
        parse_value(b, pos, d) is Ok,
        parse_value(b, pos, d)->Ok_0.1 <= m <= b.len(),
    ensures
        parse_value(b.subrange(0, m), pos, d) == parse_value(b, pos, d),
    decreases b.len() - pos, 0int, 0int,
{
    lemma_value_end(b, pos, d);
    lemma_prefix_agrees(b, m);
    let c = b.subrange(0, m);
    let mk = b[pos];
    let p = pos + 1;
    assert(c[pos] == mk);
    if mk <= 0x7f || mk >= 0xe0 {
    } else if mk <= 0x8f {
        if d < MAX_DEPTH {
            lemma_pairs_keep(b, p, (mk - 0x80) as nat, d + 1, m);
        }
    } else if mk <= 0x9f {
        if d < MAX_DEPTH {
            lemma_items_keep(b, p, (mk - 0x90) as nat, d + 1, m);
        }
    } else if mk <= 0xc3 || 0xd4 <= mk <= 0xd8 {
    } else {
        let w = field_width(mk);
        let n = be(b, p, w);
        let q = p + w;
        if 0xdc <= mk <= 0xdd && d < MAX_DEPTH {
            lemma_items_end(b, q, n, d + 1);
        } else if mk >= 0xde && d < MAX_DEPTH {
            lemma_pairs_end(b, q, n, d + 1);
        }
        lemma_be_prefix(b, m, p, w);
        if 0xdc <= mk <= 0xdd {
            if d < MAX_DEPTH {
                lemma_items_keep(b, q, n, d + 1, m);
            }
        } else if mk >= 0xde {
            if d < MAX_DEPTH {
                lemma_pairs_keep(b, q, n, d + 1, m);
            }
        }
    }
}

proof fn lemma_items_keep(b: Seq<u8>, p: int, n: nat, d: nat, m: int)
    requires
        0 <= p <= b.len(),
        parse_items(b, p, n, d) is Ok,
        parse_items(b, p, n, d)->Ok_0.1 <= m <= b.len(),
    ensures
        parse_items(b.subrange(0, m), p, n, d) == parse_items(b, p, n, d),
    decreases b.len() - p, 1int, n,
{
    lemma_items_end(b, p, n, d);
    lemma_prefix_agrees(b, m);
    if n > 0 {
        let (_, q) = parse_value(b, p, d)->Ok_0;
        lemma_items_end(b, q, (n - 1) as nat, d);
        lemma_value_keep(b, p, d, m);
        lemma_items_keep(b, q, (n - 1) as nat, d, m);
    }
}

proof fn lemma_pairs_keep(b: Seq<u8>, p: int, n: nat, d: nat, m: int)
    requires
        0 <= p <= b.len(),
        parse_pairs(b, p, n, d) is Ok,
        parse_pairs(b, p, n, d)->Ok_0.1 <= m <= b.len(),
    ensures
        parse_pairs(b.subrange(0, m), p, n, d) == parse_pairs(b, p, n, d),
    decreases b.len() - p, 1int, n,
{
    lemma_pairs_end(b, p, n, d);
    lemma_prefix_agrees(b, m);
    if n > 0 {
        let (_, q) = parse_value(b, p, d)->Ok_0;
        let (_, r) = parse_value(b, q, d)->Ok_0;
        lemma_pairs_end(b, r, (n - 1) as nat, d);
        lemma_value_keep(b, p, d, m);
        lemma_value_keep(b, q, d, m);
        lemma_pairs_keep(b, r, (n - 1) as nat, d, m);
    }
}

/// A value that runs past the first `m` bytes is cut short in those bytes alone.
pub proof fn lemma_value_cut(b: Seq<u8>, pos: int, d: nat, m: int)
    requires
        parse_value(b, pos, d) is Ok,
        pos <= m < parse_value(b, pos, d)->Ok_0.1,
        m <= b.len(),
    ensures
        parse_value(b.subrange(0, m), pos, d) == Err::<(ValueModel, int), DecodeError>(
            DecodeError::Truncated,
        ),
    decreases b.len() - pos, 0int, 0int,
{
    lemma_value_end(b, pos, d);
    lemma_prefix_agrees(b, m);
    let c = b.subrange(0, m);
    if pos < m {
        let mk = b[pos];
        let p = pos + 1;
        assert(c[pos] == mk);
        if mk <= 0x8f && 0x80 <= mk {
            lemma_pairs_cut(b, p, (mk - 0x80) as nat, d + 1, m);
        } else if 0x90 <= mk <= 0x9f {
            lemma_items_cut(b, p, (mk - 0x90) as nat, d + 1, m);
        } else if 0xc4 <= mk <= 0xd3 || 0xd9 <= mk <= 0xdf {
            let w = field_width(mk);
            let n = be(b, p, w);
            let q = p + w;
            if p + w <= m {
                lemma_be_prefix(b, m, p, w);
                if 0xdc <= mk <= 0xdd {
                    lemma_items_cut(b, q, n, d + 1, m);
                } else if mk >= 0xde {
                    lemma_pairs_cut(b, q, n, d + 1, m);
                }
            }
        }
    }
}

proof fn lemma_items_cut(b: Seq<u8>, p: int, n: nat, d: nat, m: int)
    requires
        0 <= p <= b.len(),
        parse_items(b, p, n, d) is Ok,
        p <= m < parse_items(b, p, n, d)->Ok_0.1,
        m <= b.len(),
    ensures
        parse_items(b.subrange(0, m), p, n, d) == Err::<(Seq<ValueModel>, int), DecodeError>(
            DecodeError::Truncated,
        ),
    decreases b.len() - p, 1int, n,
{
    lemma_prefix_agrees(b, m);
    if n > 0 {
        let (_, q) = parse_value(b, p, d)->Ok_0;
        lemma_value_end(b, p, d);
        if m < q {
            lemma_value_cut(b, p, d, m);
        } else {
            lemma_value_keep(b, p, d, m);
            lemma_items_cut(b, q, (n - 1) as nat, d, m);
        }
    }
}

proof fn lemma_pairs_cut(b: Seq<u8>, p: int, n: nat, d: nat, m: int)
    requires
        0 <= p <= b.len(),
        parse_pairs(b, p, n, d) is Ok,
        p <= m < parse_pairs(b, p, n, d)->Ok_0.1,
        m <= b.len(),
    ensures
        parse_pairs(b.subrange(0, m), p, n, d) == Err::<
            (Seq<(ValueModel, ValueModel)>, int),
            DecodeError,
        >(DecodeError::Truncated),
    decreases b.len() - p, 1int, n,
{
    lemma_prefix_agrees(b, m);
    if n > 0 {
        let (_, q) = parse_value(b, p, d)->Ok_0;
        lemma_value_end(b, p, d);
        if m < q {
            lemma_value_cut(b, p, d, m);
        } else {
            lemma_value_keep(b, p, d, m);
            let (_, r) = parse_value(b, q, d)->Ok_0;
            lemma_value_end(b, q, d);
            if m < r {
                lemma_value_cut(b, q, d, m);
            } else {
                lemma_value_keep(b, q, d, m);
                lemma_pairs_cut(b, r, (n - 1) as nat, d, m);
            }
        }
    }
}

} // verus!
