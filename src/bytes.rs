use vstd::prelude::*;

verus! {

/// `256` raised to `n`.
pub open spec fn pow256(n: nat) -> nat
    decreases n,
{
    if n == 0 {
        1
    } else {
        256 * pow256((n - 1) as nat)
    }
}

/// The unsigned integer held big-endian in `b[pos .. pos + n]`.
pub open spec fn be(b: Seq<u8>, pos: int, n: nat) -> nat
    decreases n,
{
    if n == 0 {
        0
    } else {
        be(b, pos, (n - 1) as nat) * 256 + b[pos + n - 1] as nat
    }
}

/// The `n` low-order bytes of `v`, most significant first.
pub open spec fn be_bytes(v: nat, n: nat) -> Seq<u8>
    decreases n,
{
    if n == 0 {
        seq![]
    } else {
        be_bytes(v / 256, (n - 1) as nat).push((v % 256) as u8)
    }
}

/// The two's-complement reading of an unsigned `bits`-wide pattern.
pub open spec fn signed(n: nat, bits: nat) -> int {
    if n >= pow256((bits / 8) as nat) / 2 {
        n - pow256((bits / 8) as nat)
    } else {
        n as int
    }
}

pub proof fn lemma_pow256_values()
    ensures
        pow256(1) == 256,
        pow256(2) == 65536,
        pow256(4) == 4294967296,
        pow256(8) == 18446744073709551616,
{
    reveal_with_fuel(pow256, 9);
}

/// The two's-complement reading of `n`, a pattern `w` bytes wide.
pub fn to_signed(n: u64, w: usize) -> (r: i64)
    requires
        w == 1 || w == 2 || w == 4 || w == 8,
        (n as nat) < pow256(w as nat),
    ensures
        r as int == signed(n as nat, (8 * w) as nat),
{
    proof {
        lemma_pow256_values();
    }
    if w == 1 {
        if n >= 128 {
            n as i64 - 256
        } else {
            n as i64
        }
    } else if w == 2 {
        if n >= 32768 {
            n as i64 - 65536
        } else {
            n as i64
        }
    } else if w == 4 {
        if n >= 2147483648 {
            n as i64 - 4294967296
        } else {
            n as i64
        }
    } else {
        if n >= 9223372036854775808 {
            (n - 9223372036854775808) as i64 - 9223372036854775807 - 1
        } else {
            n as i64
        }
    }
}

pub proof fn lemma_pow256_pos(n: nat)
    ensures
        pow256(n) >= 1,
    decreases n,
{
    if n > 0 {
        lemma_pow256_pos((n - 1) as nat);
    }
}

pub proof fn lemma_be_bound(b: Seq<u8>, pos: int, n: nat)
    ensures
        be(b, pos, n) < pow256(n),
    decreases n,
{
    if n > 0 {
        lemma_be_bound(b, pos, (n - 1) as nat);
        let k = be(b, pos, (n - 1) as nat);
        let x = b[pos + n - 1] as nat;
        assert(k * 256 + x < 256 * pow256((n - 1) as nat)) by (nonlinear_arith)
            requires
                k < pow256((n - 1) as nat),
                x < 256,
        ;
    }
}

/// Reads `n` bytes big-endian from `b` at `pos`.
pub fn read_be(b: &[u8], pos: usize, n: usize) -> (r: u64)
    requires
        pos + n <= b@.len(),
        n <= 8,
    ensures
        r as nat == be(b@, pos as int, n as nat),
{
    let len = b.len();
    let mut acc: u64 = 0;
    let mut i: usize = 0;
    while i < n
        invariant
            i <= n <= 8,
            pos + n <= b@.len(),
            len == b@.len(),
            acc as nat == be(b@, pos as int, i as nat),
        decreases n - i,
    {
        proof {
            lemma_be_bound(b@, pos as int, i as nat);
            reveal_with_fuel(pow256, 8);
            assert(pow256(7) == 72057594037927936);
            lemma_pow256_mono(i as nat, 7);
        }
        acc = acc * 256 + b[pos + i] as u64;
        i = i + 1;
    }
    acc
}

pub proof fn lemma_pow256_mono(a: nat, b: nat)
    requires
        a <= b,
    ensures
        pow256(a) <= pow256(b),
    decreases b,
{
    if a < b {
        lemma_pow256_mono(a, (b - 1) as nat);
        lemma_pow256_pos((b - 1) as nat);
    }
}

} // verus!
