use vstd::prelude::*;

use crate::error::TreasureDataError;

verus! {

/// The number written in ASCII decimal digits by `d`.
pub open spec fn digits_value(d: Seq<u8>) -> nat
    decreases d.len(),
{
    if d.len() == 0 {
        0
    } else {
        digits_value(d.drop_last()) * 10 + (d.last() - 48) as nat
    }
}

pub open spec fn is_digit(c: u8) -> bool {
    48 <= c <= 57
}

/// The digits of a decimal number: a leading `+` is allowed.
pub open spec fn unsigned_digits(s: Seq<u8>) -> Seq<u8> {
    if s.len() > 0 && s[0] == 43 {
        s.drop_first()
    } else {
        s
    }
}

/// The length that a Content-Length header value declares, if it is a decimal number that
/// fits in `usize`.
pub open spec fn declared_length(s: Seq<u8>) -> Option<nat> {
    let d = unsigned_digits(s);
    if d.len() > 0 && (forall|i: int| 0 <= i < d.len() ==> is_digit(#[trigger] d[i]))
        && digits_value(d) <= usize::MAX {
        Some(digits_value(d))
    } else {
        None
    }
}

proof fn lemma_digits_grow(d: Seq<u8>, j: int)
    requires
        0 <= j <= d.len(),
        forall|i: int| 0 <= i < d.len() ==> is_digit(#[trigger] d[i]),
    ensures
        digits_value(d.subrange(0, j)) <= digits_value(d),
    decreases d.len() - j,
{
    if j < d.len() {
        lemma_digits_grow(d, j + 1);
        let s = d.subrange(0, j + 1);
        assert(s.drop_last() =~= d.subrange(0, j));
    } else {
        assert(d.subrange(0, j) =~= d);
    }
}

/// Reads the declared body length from the value of a Content-Length header; a missing or
/// unreadable header is a transport error.
pub fn parse_content_length(header: Option<&[u8]>) -> (r: Result<usize, TreasureDataError>)
    ensures
        header is None ==> (r matches Err(TreasureDataError::TransportError(_))),
        header matches Some(h) ==> match declared_length(h@) {
            Some(n) => r == Ok::<usize, TreasureDataError>(n as usize),
            None => (r matches Err(TreasureDataError::TransportError(_))),
        },
{
    let h = match header {
        None => {
            return Err(TreasureDataError::TransportError("Content-Length doesn't exist".to_string()));
        },
        Some(h) => h,
    };
    let start: usize = if h.len() > 0 && h[0] == 43 {
        1
    } else {
        0
    };
    let ghost d = unsigned_digits(h@);
    assert(d =~= h@.subrange(start as int, h@.len() as int));
    if start == h.len() {
        return Err(
            TreasureDataError::TransportError("Failed to parse Content-Length header".to_string()),
        );
    }
    let mut acc: usize = 0;
    let mut i: usize = start;
    while i < h.len()
        invariant
            start <= i <= h@.len(),
            header == Some(h),
            d == unsigned_digits(h@),
            d == h@.subrange(start as int, h@.len() as int),
            forall|k: int| 0 <= k < i - start ==> is_digit(#[trigger] d[k]),
            acc as nat == digits_value(d.subrange(0, i - start)),
        decreases h@.len() - i,
    {
        let c = h[i];
        if c < 48 || c > 57 {
            assert(!is_digit(d[i - start]));
            return Err(
                TreasureDataError::TransportError("Failed to parse Content-Length header".to_string()),
            );
        }
        let digit = (c - 48) as usize;
        proof {
            let s = d.subrange(0, i - start + 1);
            assert(s.drop_last() =~= d.subrange(0, i - start));
        }
        if acc > (usize::MAX - digit) / 10 {
            proof {
                assert(acc * 10 + digit > usize::MAX) by (nonlinear_arith)
                    requires
                        acc > (usize::MAX - digit) / 10,
                        digit <= 9,
                ;
                let s = d.subrange(0, i - start + 1);
                assert(s.last() == c);
                assert(digits_value(s) == acc * 10 + digit);
                if forall|k: int| 0 <= k < d.len() ==> is_digit(#[trigger] d[k]) {
                    lemma_digits_grow(d, i - start + 1);
                }
            }
            return Err(
                TreasureDataError::TransportError("Failed to parse Content-Length header".to_string()),
            );
        }
        proof {
            assert(acc * 10 + digit <= usize::MAX) by (nonlinear_arith)
                requires
                    acc <= (usize::MAX - digit) / 10,
                    digit <= 9,
            ;
        }
        acc = acc * 10 + digit;
        i = i + 1;
    }
    assert(d.subrange(0, d.len() as int) =~= d);
    Ok(acc)
}

/// How many of the next `n` bytes belong to a body of `declared` bytes, once `total` were read.
pub open spec fn keep_of(declared: nat, total: nat, n: nat) -> nat {
    if total >= declared {
        0
    } else if n < declared - total {
        n
    } else {
        (declared - total) as nat
    }
}

/// The bytes kept over a run of reads of `reads[i]` bytes each, from `total` read before.
pub open spec fn kept_over(declared: nat, total: nat, reads: Seq<nat>) -> nat
    decreases reads.len(),
{
    if reads.len() == 0 {
        0
    } else {
        keep_of(declared, total, reads[0]) + kept_over(declared, total + reads[0], reads.drop_first())
    }
}

/// The sum of `reads`.
pub open spec fn read_total(reads: Seq<nat>) -> nat
    decreases reads.len(),
{
    if reads.len() == 0 {
        0
    } else {
        reads[0] + read_total(reads.drop_first())
    }
}

/// However a body arrives, in reads of whatever sizes, the bytes written out are the first
/// `declared` of them, or all of them when fewer came: any beyond the declared length are
/// left out.
pub proof fn lemma_download_keeps_declared(declared: nat, total: nat, reads: Seq<nat>)
    requires
        total <= declared,
    ensures
        kept_over(declared, total, reads) == if total + read_total(reads) < declared {
            read_total(reads)
        } else {
            (declared - total) as nat
        },
    decreases reads.len(),
{
    if reads.len() > 0 {
        let t = total + reads[0];
        if t <= declared {
            lemma_download_keeps_declared(declared, t, reads.drop_first());
        } else {
            lemma_download_keeps_nothing_more(declared, t, reads.drop_first());
        }
    }
}

proof fn lemma_download_keeps_nothing_more(declared: nat, total: nat, reads: Seq<nat>)
    requires
        total >= declared,
    ensures
        kept_over(declared, total, reads) == 0,
    decreases reads.len(),
{
    if reads.len() > 0 {
        lemma_download_keeps_nothing_more(declared, total + reads[0], reads.drop_first());
    }
}

/// Counts the bytes of a response body against its declared length.
pub struct DownloadProgress {
    declared: usize,
    total: usize,
}

impl DownloadProgress {
    pub closed spec fn declared(&self) -> nat {
        self.declared as nat
    }

    /// The bytes read so far (it stops growing at `usize::MAX`).
    pub closed spec fn total(&self) -> nat {
        self.total as nat
    }

    /// The bytes of the body written out so far: those within the declared length.
    pub open spec fn kept(&self) -> nat {
        if self.total() < self.declared() {
            self.total()
        } else {
            self.declared()
        }
    }

    pub fn new(declared: usize) -> (r: DownloadProgress)
        ensures
            r.declared() == declared,
            r.total() == 0,
    {
        DownloadProgress { declared, total: 0 }
    }

    /// Whether the declared length has been read.
    pub fn is_done(&self) -> (r: bool)
        ensures
            r == (self.total() >= self.declared()),
    {
        self.total >= self.declared
    }

    /// Whether more bytes came than were declared; they were left out.
    pub fn overran(&self) -> (r: bool)
        ensures
            r == (self.total() > self.declared()),
    {
        self.total > self.declared
    }

    /// Takes note of `n` bytes just read and says how many of them, from the front, belong to
    /// the body. A read of nothing before the declared length is reached means the body was
    /// cut short.
    pub fn record(&mut self, n: usize) -> (r: Result<usize, TreasureDataError>)
        ensures
            final(self).declared() == old(self).declared(),
            n == 0 && old(self).total() < old(self).declared() ==> (r matches Err(
                TreasureDataError::IoError(_),
            )) && *final(self) == *old(self),
            !(n == 0 && old(self).total() < old(self).declared()) ==> {
                &&& r matches Ok(k)
                &&& final(self).total() == if old(self).total() + n > usize::MAX {
                    usize::MAX as nat
                } else {
                    (old(self).total() + n) as nat
                }
                &&& k == final(self).kept() - old(self).kept()
                &&& k == keep_of(old(self).declared(), old(self).total(), n as nat)
                &&& k <= n
            },
    {
        if n == 0 && self.total < self.declared {
            return Err(TreasureDataError::IoError("body ended before its declared length".to_string()));
        }
        let room: usize = if self.total < self.declared {
            self.declared - self.total
        } else {
            0
        };
        let keep = if n < room {
            n
        } else {
            room
        };
        self.total = self.total.saturating_add(n);
        Ok(keep)
    }
}

} // verus!
