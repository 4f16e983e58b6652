use vstd::prelude::*;

use crate::decode::{decode_value, models, parse_value, parse_values, DecodeError};
use crate::error::TreasureDataError;
use crate::prefix::{lemma_value_cut, lemma_value_end, lemma_value_keep};
use crate::gzip::{
    gunzip, gunzip_end, gunzip_fed, gunzip_of, gunzip_ok, gunzip_out, gunzip_prefix_ok, gunzip_push,
    gunzip_sink_new, gunzip_sound, GunzipSink,
};
use crate::value::{Value, ValueModel};

verus! {

/// Why a stream of rows stopped before its end.
pub enum StreamError {
    Decode(DecodeError),
    Unexpected(ValueModel),
}

/// The rows that a stream holds from `pos` on, and what stops it early, if anything.
///
/// A stream is a run of MessagePack arrays. It ends cleanly where the input ends between two
/// values; a value that is cut short or malformed, or a value that is not an array, stops it.
pub open spec fn stream(b: Seq<u8>, pos: int) -> (Seq<Seq<ValueModel>>, Option<StreamError>)
    decreases b.len() - pos,
{
    if pos < 0 || pos >= b.len() {
        (seq![], None)
    } else {
        match parse_value(b, pos, 0) {
            Err(e) => (seq![], Some(StreamError::Decode(e))),
            Ok((v, e)) => match v {
                ValueModel::Array(xs) => if e <= pos || e > b.len() {
                    (seq![], None)
                } else {
                    let (rest, err) = stream(b, e);
                    (seq![xs] + rest, err)
                },
                _ => (seq![], Some(StreamError::Unexpected(v))),
            },
        }
    }
}

/// The contents of arrays, as rows.
pub open spec fn as_rows(vs: Seq<ValueModel>) -> Seq<Seq<ValueModel>> {
    Seq::new(vs.len(), |i: int| vs[i]->Array_0)
}

/// Input that ends right after its last whole value, where every value is an array, streams
/// exactly those arrays as rows and ends cleanly.
pub proof fn lemma_clean_end(b: Seq<u8>, pos: int, vs: Seq<ValueModel>)
    requires
        0 <= pos,
        parse_values(b, pos) == Ok::<Seq<ValueModel>, DecodeError>(vs),
        forall|i: int| 0 <= i < vs.len() ==> (#[trigger] vs[i]) is Array,
    ensures
        stream(b, pos) == (as_rows(vs), None::<StreamError>),
    decreases b.len() - pos,
{
    if pos >= b.len() {
        assert(as_rows(vs) =~= seq![]);
    } else {
        if let Ok((v, e)) = parse_value(b, pos, 0) {
            if let Ok(rest) = parse_values(b, e) {
                assert(vs == seq![v] + rest);
                assert(vs[0] == v);
                assert forall|i: int| 0 <= i < rest.len() implies (#[trigger] rest[i]) is Array by {
                    assert(rest[i] == vs[i + 1]);
                }
                lemma_clean_end(b, e, rest);
                assert(as_rows(vs) =~= seq![v->Array_0] + as_rows(rest));
            }
        }
    }
}

/// Whether `m` falls between two whole values of the input read from `pos`.
pub open spec fn at_boundary(b: Seq<u8>, pos: int, m: int) -> bool
    decreases b.len() - pos,
{
    if m == pos {
        true
    } else if pos < 0 || pos >= b.len() {
        false
    } else {
        match parse_value(b, pos, 0) {
            Ok((_, e)) => pos < e <= m && e <= b.len() && at_boundary(b, e, m),
            Err(_) => false,
        }
    }
}

/// Input cut off after its first `m` bytes, where the whole input is a run of arrays: the rows
/// that lie wholly before the cut come out, in order, and the stream ends cleanly if the cut
/// falls between two values, or with a truncation error if it falls inside one.
pub proof fn lemma_cut_stream(b: Seq<u8>, pos: int, vs: Seq<ValueModel>, m: int)
    requires
        0 <= pos <= m <= b.len(),
        parse_values(b, pos) == Ok::<Seq<ValueModel>, DecodeError>(vs),
        forall|i: int| 0 <= i < vs.len() ==> (#[trigger] vs[i]) is Array,
    ensures
        stream(b.subrange(0, m), pos).0.is_prefix_of(as_rows(vs)),
        stream(b.subrange(0, m), pos).1 is None <==> at_boundary(b, pos, m),
        !at_boundary(b, pos, m) ==> stream(b.subrange(0, m), pos).1 == Some(
            StreamError::Decode(DecodeError::Truncated),
        ),
    decreases b.len() - pos,
{
    let c = b.subrange(0, m);
    assert(c.len() == m);
    if pos == m {
        assert(stream(c, pos).0 =~= seq![]);
    } else {
        if let Ok((v, e)) = parse_value(b, pos, 0) {
            lemma_value_end(b, pos, 0);
            if let Ok(rest) = parse_values(b, e) {
                assert(vs == seq![v] + rest);
                assert(vs[0] == v);
                assert forall|i: int| 0 <= i < rest.len() implies (#[trigger] rest[i]) is Array by {
                    assert(rest[i] == vs[i + 1]);
                }
                assert(as_rows(vs) =~= seq![v->Array_0] + as_rows(rest));
                if e <= m {
                    lemma_value_keep(b, pos, 0, m);
                    lemma_cut_stream(b, e, rest, m);
                    let (tail, _) = stream(c, e);
                    assert(stream(c, pos).0 == seq![v->Array_0] + tail);
                    assert(tail.is_prefix_of(as_rows(rest)));
                    assert((seq![v->Array_0] + tail).is_prefix_of(seq![v->Array_0] + as_rows(rest)))
                        by {
                        assert forall|i: int| 0 <= i < tail.len() + 1 implies (seq![v->Array_0]
                            + tail)[i] == (seq![v->Array_0] + as_rows(rest))[i] by {
                            if i > 0 {
                                assert(tail[i - 1] == as_rows(rest)[i - 1]);
                            }
                        }
                    }
                } else {
                    lemma_value_cut(b, pos, 0, m);
                    assert(stream(c, pos).0 =~= seq![]);
                }
            }
        }
    }
}

/// States that `e` is the error that `s` describes.
pub open spec fn reports(e: TreasureDataError, s: StreamError) -> bool {
    match s {
        StreamError::Decode(d) => e == TreasureDataError::MsgpackDecodeError(d),
        StreamError::Unexpected(v) => match e {
            TreasureDataError::MsgpackUnexpectedValueError(x) => x.model() == v,
            _ => false,
        },
    }
}

/// Hands out, one at a time, the rows of a decompressed MessagePack stream.
pub struct RowReader {
    data: Vec<u8>,
    pos: usize,
}

impl RowReader {
    /// The bytes of the stream.
    pub closed spec fn data(&self) -> Seq<u8> {
        self.data@
    }

    /// How far the reader has come.
    pub closed spec fn pos(&self) -> int {
        self.pos as int
    }

    pub closed spec fn wf(&self) -> bool {
        self.pos <= self.data@.len()
    }

    /// The rows not yet handed out, and what stops the stream.
    pub open spec fn rest(&self) -> (Seq<Seq<ValueModel>>, Option<StreamError>) {
        stream(self.data(), self.pos())
    }

    pub fn new(data: Vec<u8>) -> (r: RowReader)
        ensures
            r.wf(),
            r.data() == data@,
            r.pos() == 0,
    {
        RowReader { data, pos: 0 }
    }

    /// The next row; `None` once the stream has ended cleanly.
    pub fn next_row(&mut self) -> (r: Result<Option<Vec<Value>>, TreasureDataError>)
        requires
            old(self).wf(),
        ensures
            final(self).wf(),
            final(self).data() == old(self).data(),
            ({
                let (rows, err) = old(self).rest();
                if rows.len() > 0 {
                    &&& r matches Ok(Some(xs))
                    &&& models(xs@) == rows[0]
                    &&& final(self).rest() == (rows.drop_first(), err)
                } else {
                    match err {
                        None => r matches Ok(None),
                        Some(s) => r matches Err(e) && reports(e, s),
                    }
                }
            }),
    {
        if self.pos >= self.data.len() {
            return Ok(None);
        }
        let r = decode_value(self.data.as_slice(), self.pos, 0);
        match r {
            Err(e) => Err(TreasureDataError::MsgpackDecodeError(e)),
            Ok((Value::Array(xs), e)) => {
                proof {
                    let (rest, err) = stream(self.data@, e as int);
                    assert((seq![models(xs@)] + rest).drop_first() =~= rest);
                    if let ValueModel::Array(s) = Value::Array(xs).model() {
                        assert(s =~= models(xs@));
                    }
                }
                self.pos = e;
                Ok(Some(xs))
            },
            Ok((v, _)) => Err(TreasureDataError::MsgpackUnexpectedValueError(v)),
        }
    }
}

/// `f` may answer `go` when handed a row whose model is `m`.
pub open spec fn answers<F: Fn(Vec<Value>) -> bool>(f: &F, m: Seq<ValueModel>, go: bool) -> bool {
    exists|row: Vec<Value>| models(row@) == m && #[trigger] f.ensures((row,), go)
}

/// `f` may take each of the first `k` rows.
pub open spec fn takes_first<F: Fn(Vec<Value>) -> bool>(
    f: &F,
    rows: Seq<Seq<ValueModel>>,
    k: int,
) -> bool {
    forall|i: int| 0 <= i < k ==> #[trigger] answers(f, rows[i], true)
}

/// `f` may take the rows before row `k` and refuse row `k`.
pub open spec fn stops_at<F: Fn(Vec<Value>) -> bool>(
    f: &F,
    rows: Seq<Seq<ValueModel>>,
    k: int,
) -> bool {
    &&& 0 <= k < rows.len()
    &&& takes_first(f, rows, k)
    &&& answers(f, rows[k], false)
}

/// Decodes rows from input that arrives in pieces. It holds only the bytes not yet decoded:
/// at most one value that is still incomplete, and what came after it.
pub struct RowStream {
    buf: Vec<u8>,
    start: usize,
}

impl RowStream {
    /// The bytes held.
    pub closed spec fn data(&self) -> Seq<u8> {
        self.buf@
    }

    /// How far into them decoding has come.
    pub closed spec fn pos(&self) -> int {
        self.start as int
    }

    pub closed spec fn wf(&self) -> bool {
        self.start <= self.buf@.len()
    }

    /// The bytes received and not yet decoded.
    pub open spec fn window(&self) -> Seq<u8> {
        self.data().subrange(self.pos(), self.data().len() as int)
    }

    /// The whole rows held and not yet handed out, and what stops them: nothing, input that
    /// ends inside a value (`Truncated`, until more comes), or an error.
    pub open spec fn rest(&self) -> (Seq<Seq<ValueModel>>, Option<StreamError>) {
        stream(self.data(), self.pos())
    }

    pub fn new() -> (r: RowStream)
        ensures
            r.wf(),
            r.data() == Seq::<u8>::empty(),
            r.pos() == 0,
    {
        RowStream { buf: Vec::new(), start: 0 }
    }

    /// Takes more input, after the bytes not yet decoded.
    pub fn push(&mut self, chunk: &[u8])
        requires
            old(self).wf(),
        ensures
            final(self).wf(),
            final(self).data() == old(self).window() + chunk@,
            final(self).pos() == 0,
    {
        let ghost w = self.window();
        let mut next: Vec<u8> = Vec::new();
        let mut i = self.start;
        while i < self.buf.len()
            invariant
                self.start <= i <= self.buf@.len(),
                w == self.buf@.subrange(self.start as int, self.buf@.len() as int),
                next@ == self.buf@.subrange(self.start as int, i as int),
            decreases self.buf@.len() - i,
        {
            next.push(self.buf[i]);
            i = i + 1;
            assert(next@ =~= self.buf@.subrange(self.start as int, i as int));
        }
        let mut j: usize = 0;
        while j < chunk.len()
            invariant
                j <= chunk@.len(),
                next@ == w + chunk@.subrange(0, j as int),
            decreases chunk@.len() - j,
        {
            next.push(chunk[j]);
            j = j + 1;
            assert(next@ =~= w + chunk@.subrange(0, j as int));
        }
        assert(chunk@.subrange(0, chunk@.len() as int) =~= chunk@);
        self.buf = next;
        self.start = 0;
    }

    /// The next row, if the input so far holds a whole one; `None` when it needs more input
    /// or holds nothing more. A malformed value or one that is not an array is an error, and
    /// leaves the stream as it was.
    pub fn next_row(&mut self) -> (r: Result<Option<Vec<Value>>, TreasureDataError>)
        requires
            old(self).wf(),
        ensures
            final(self).wf(),
            final(self).data() == old(self).data(),
            ({
                let (rows, end) = old(self).rest();
                if rows.len() > 0 {
                    &&& r matches Ok(Some(xs))
                    &&& models(xs@) == rows[0]
                    &&& final(self).rest() == (rows.drop_first(), end)
                } else {
                    &&& final(self).pos() == old(self).pos()
                    &&& match end {
                        None => r matches Ok(None),
                        Some(StreamError::Decode(DecodeError::Truncated)) => r matches Ok(None),
                        Some(s) => r matches Err(e) && reports(e, s),
                    }
                }
            }),
    {
        if self.start >= self.buf.len() {
            return Ok(None);
        }
        match decode_value(self.buf.as_slice(), self.start, 0) {
            Err(DecodeError::Truncated) => Ok(None),
            Err(x) => Err(TreasureDataError::MsgpackDecodeError(x)),
            Ok((Value::Array(xs), e)) => {
                proof {
                    let (rest, end) = stream(self.buf@, e as int);
                    assert((seq![models(xs@)] + rest).drop_first() =~= rest);
                    if let ValueModel::Array(s) = Value::Array(xs).model() {
                        assert(s =~= models(xs@));
                    }
                }
                self.start = e;
                Ok(Some(xs))
            },
            Ok((v, _)) => Err(TreasureDataError::MsgpackUnexpectedValueError(v)),
        }
    }

    /// Hands each whole row held to `f`, in order, until `f` refuses one.
    fn drain<F: Fn(Vec<Value>) -> bool>(&mut self, f: &F) -> (r: Result<bool, TreasureDataError>)
        requires
            old(self).wf(),
            forall|row: Vec<Value>| f.requires((row,)),
        ensures
            final(self).wf(),
            final(self).data() == old(self).data(),
            drained(old(self).rest(), final(self).rest(), f, r),
    {
        let ghost rows = self.rest().0;
        let ghost end = self.rest().1;
        let ghost n = rows.len() as int;
        let ghost mut c: int = 0;
        loop
            invariant
                self.wf(),
                self.data() == old(self).data(),
                (rows, end) == old(self).rest(),
                n == rows.len(),
                0 <= c <= n,
                self.rest() == (rows.subrange(c, n), end),
                takes_first(f, rows, c),
                forall|row: Vec<Value>| f.requires((row,)),
            decreases n - c,
        {
            match self.next_row() {
                Err(e) => {
                    assert(rows.subrange(c, n).len() == 0);
                    return Err(e);
                },
                Ok(None) => {
                    assert(rows.subrange(c, n).len() == 0);
                    return Ok(true);
                },
                Ok(Some(row)) => {
                    assert(rows.subrange(c, n)[0] == rows[c]);
                    let ghost arg = row;
                    let go = f(row);
                    if !go {
                        assert(f.ensures((arg,), false));
                        assert(answers(f, rows[c], false));
                        assert(rows.subrange(c, n).drop_first() =~= rows.subrange(c + 1, n));
                        return Ok(false);
                    }
                    proof {
                        assert(f.ensures((arg,), true));
                        assert(answers(f, rows[c], true));
                        assert(rows.subrange(c, n).drop_first() =~= rows.subrange(c + 1, n));
                        assert forall|i: int| 0 <= i < c + 1 implies #[trigger] answers(
                            f,
                            rows[i],
                            true,
                        ) by {
                            if i < c {
                                assert(answers(f, rows[i], true));
                            }
                        }
                        c = c + 1;
                    }
                },
            }
        }
    }

    /// Takes more input and hands each whole row held to `f`, in order, until `f` refuses
    /// one. Gives `true` when every whole row was taken and the rest is an incomplete value or
    /// nothing, and `false` when `f` refused a row; the rows after it stay held.
    pub fn feed<F: Fn(Vec<Value>) -> bool>(&mut self, chunk: &[u8], f: &F) -> (r: Result<
        bool,
        TreasureDataError,
    >)
        requires
            old(self).wf(),
            forall|row: Vec<Value>| f.requires((row,)),
        ensures
            final(self).wf(),
            final(self).data() == old(self).window() + chunk@,
            drained(stream(old(self).window() + chunk@, 0), final(self).rest(), f, r),
    {
        self.push(chunk);
        self.drain(f)
    }

    /// Ends the input: the whole rows go to `f`, and then nothing may be left over.
    pub fn finish<F: Fn(Vec<Value>) -> bool>(&mut self, f: &F) -> (r: Result<(), TreasureDataError>)
        requires
            old(self).wf(),
            forall|row: Vec<Value>| f.requires((row,)),
        ensures
            final(self).wf(),
            walked_rows(old(self).rest(), f, r),
    {
        let ghost before = self.rest();
        match self.drain(f) {
            Err(e) => Err(e),
            Ok(false) => {
                proof {
                    let k = choose|k: int|
                        #![trigger before.0.subrange(k + 1, before.0.len() as int)]
                        stops_at(f, before.0, k) && self.rest() == (
                            before.0.subrange(k + 1, before.0.len() as int),
                            before.1,
                        );
                    assert(stops_at(f, before.0, k));
                }
                Ok(())
            },
            Ok(true) => {
                if self.start < self.buf.len() {
                    proof {
                        if parse_value(self.buf@, self.start as int, 0) is Ok {
                            lemma_value_end(self.buf@, self.start as int, 0);
                        }
                    }
                    Err(TreasureDataError::MsgpackDecodeError(DecodeError::Truncated))
                } else {
                    Ok(())
                }
            },
        }
    }
}

/// What handing the rows of `before` to `f` did, leaving `after`: every row taken, up to an
/// incomplete value or nothing (`Ok(true)`); the rows up to one that `f` refused
/// (`Ok(false)`), the rest held; or every row taken and then the error that stops them.
pub open spec fn drained<F: Fn(Vec<Value>) -> bool>(
    before: (Seq<Seq<ValueModel>>, Option<StreamError>),
    after: (Seq<Seq<ValueModel>>, Option<StreamError>),
    f: &F,
    r: Result<bool, TreasureDataError>,
) -> bool {
    let (rows, end) = before;
    match r {
        Ok(true) => {
            &&& takes_first(f, rows, rows.len() as int)
            &&& after == (Seq::<Seq<ValueModel>>::empty(), end)
            &&& (end is None || end == Some(StreamError::Decode(DecodeError::Truncated)))
        },
        Ok(false) => exists|k: int|
            #![trigger rows.subrange(k + 1, rows.len() as int)]
            stops_at(f, rows, k) && after == (rows.subrange(k + 1, rows.len() as int), end),
        Err(e) => {
            &&& takes_first(f, rows, rows.len() as int)
            &&& end matches Some(s)
            &&& s != StreamError::Decode(DecodeError::Truncated)
            &&& reports(e, s)
        },
    }
}

/// What walking `rows`, stopped by `end`, with the consumer `f` may end in: success when every
/// row was taken and nothing stops them, or when `f` refused one; otherwise, every row taken,
/// the error that stops them.
pub open spec fn walked_rows<F: Fn(Vec<Value>) -> bool>(
    before: (Seq<Seq<ValueModel>>, Option<StreamError>),
    f: &F,
    r: Result<(), TreasureDataError>,
) -> bool {
    let (rows, end) = before;
    &&& r is Ok ==> (end is None && takes_first(f, rows, rows.len() as int)) || exists|k: int|
        #[trigger] stops_at(f, rows, k)
    &&& r matches Err(e) ==> takes_first(f, rows, rows.len() as int) && (end matches Some(s)
        && reports(e, s))
    &&& end is None ==> r is Ok
}

/// Decodes rows from a gzip-compressed stream that arrives in pieces.
pub struct GzipRowStream {
    gz: GunzipSink,
    rows: RowStream,
    consumed: Ghost<Seq<u8>>,
    broken: bool,
}

impl GzipRowStream {
    /// The compressed bytes taken so far.
    pub closed spec fn fed(&self) -> Seq<u8> {
        gunzip_fed(self.gz)
    }

    /// The decompressed bytes so far.
    pub closed spec fn plain(&self) -> Seq<u8> {
        gunzip_out(self.gz)
    }

    /// The decompressed bytes whose rows have been decoded.
    pub closed spec fn consumed(&self) -> Seq<u8> {
        self.consumed@
    }

    /// Whether an earlier piece of compressed input was refused.
    pub closed spec fn broken(&self) -> bool {
        self.broken
    }

    /// The rows decompressed and not yet handed out, and what stops them.
    pub closed spec fn rest(&self) -> (Seq<Seq<ValueModel>>, Option<StreamError>) {
        self.rows.rest()
    }

    pub closed spec fn wf(&self) -> bool {
        &&& self.rows.wf()
        &&& !self.broken ==> {
            &&& gunzip_sound(self.gz)
            &&& gunzip_out(self.gz) == self.consumed@ + self.rows.window()
        }
    }

    pub fn new() -> (r: GzipRowStream)
        ensures
            r.wf(),
            !r.broken(),
            r.fed() == Seq::<u8>::empty(),
            r.plain() == Seq::<u8>::empty(),
            r.consumed() == Seq::<u8>::empty(),
    {
        let ghost none: Seq<u8> = Seq::empty();
        let r = GzipRowStream {
            gz: gunzip_sink_new(),
            rows: RowStream::new(),
            consumed: Ghost(none),
            broken: false,
        };
        assert(gunzip_out(r.gz) =~= r.consumed@ + r.rows.window());
        r
    }

    /// Takes more compressed input and hands each whole row it completes to `f`, in order,
    /// until `f` refuses one; the rows after it stay held. Input that the gzip decoder refuses
    /// is an I/O error, and so is every call after one.
    pub fn feed<F: Fn(Vec<Value>) -> bool>(&mut self, chunk: &[u8], f: &F) -> (r: Result<
        bool,
        TreasureDataError,
    >)
        requires
            old(self).wf(),
            forall|row: Vec<Value>| f.requires((row,)),
        ensures
            final(self).wf(),
            final(self).broken() == (r matches Err(TreasureDataError::IoError(_))),
            old(self).broken() ==> (r matches Err(TreasureDataError::IoError(_))),
            !old(self).broken() ==> ((r matches Err(TreasureDataError::IoError(_))) <==> !gunzip_prefix_ok(
                old(self).fed() + chunk@,
            )),
            !(r matches Err(TreasureDataError::IoError(_))) ==> {
                &&& final(self).fed() == old(self).fed() + chunk@
                &&& final(self).consumed().len() >= old(self).consumed().len()
                &&& drained(
                    stream(
                        final(self).plain().subrange(
                            old(self).consumed().len() as int,
                            final(self).plain().len() as int,
                        ),
                        0,
                    ),
                    final(self).rest(),
                    f,
                    r,
                )
            },
    {
        if self.broken {
            return Err(TreasureDataError::IoError("the gzip stream failed earlier".to_string()));
        }
        match gunzip_push(&mut self.gz, chunk) {
            Err(m) => {
                self.broken = true;
                Err(TreasureDataError::IoError(m))
            },
            Ok(plain) => {
                let ghost w = self.rows.window() + plain@;
                let ghost before = self.consumed@;
                let r = self.rows.feed(plain.as_slice(), f);
                proof {
                    let k = self.rows.pos();
                    self.consumed = Ghost(before + w.subrange(0, k));
                    assert(w =~= w.subrange(0, k) + self.rows.window());
                    assert(gunzip_out(self.gz) =~= self.consumed@ + self.rows.window());
                    assert(gunzip_out(self.gz).subrange(
                        before.len() as int,
                        gunzip_out(self.gz).len() as int,
                    ) =~= w);
                }
                r
            },
        }
    }

    /// Ends the compressed input: the whole rows go to `f`, and then nothing may be left
    /// over. An I/O error means the gzip stream was cut or broken; it cannot come when every
    /// piece was taken and the whole input is one gzip stream.
    pub fn finish<F: Fn(Vec<Value>) -> bool>(self, f: &F) -> (r: Result<(), TreasureDataError>)
        requires
            self.wf(),
            forall|row: Vec<Value>| f.requires((row,)),
        ensures
            !self.broken() && gunzip_ok(self.fed()) ==> !(r matches Err(
                TreasureDataError::IoError(_),
            )),
            !(r matches Err(TreasureDataError::IoError(_))) ==> {
                &&& gunzip_ok(self.fed())
                &&& self.consumed().len() <= gunzip_of(self.fed()).len()
                &&& walked_rows(
                    stream(
                        gunzip_of(self.fed()).subrange(
                            self.consumed().len() as int,
                            gunzip_of(self.fed()).len() as int,
                        ),
                        0,
                    ),
                    f,
                    r,
                )
            },
    {
        let ghost d_consumed = self.consumed@;
        let ghost fed = gunzip_fed(self.gz);
        let GzipRowStream { gz, mut rows, consumed, broken } = self;
        if broken {
            return Err(TreasureDataError::IoError("the gzip stream failed earlier".to_string()));
        }
        match gunzip_end(gz) {
            Err(m) => Err(TreasureDataError::IoError(m)),
            Ok(plain) => {
                let ghost w = rows.window() + plain@;
                rows.push(plain.as_slice());
                proof {
                    let d = gunzip_of(fed);
                    assert(d =~= d_consumed + w);
                    assert(d.subrange(d_consumed.len() as int, d.len() as int) =~= w);
                }
                rows.finish(f)
            },
        }
    }
}

/// What walking the rows of `b` with the consumer `f` may end in: success when every row was
/// taken and the stream ends cleanly, or when `f` refused a row; otherwise, every row before
/// the stop taken, the error that stops the stream. In particular, a consumer that refuses
/// the first row ends the walk there, with success, whatever follows.
pub open spec fn walked<F: Fn(Vec<Value>) -> bool>(
    b: Seq<u8>,
    f: &F,
    r: Result<(), TreasureDataError>,
) -> bool {
    let (rows, end) = stream(b, 0);
    &&& walked_rows(stream(b, 0), f, r)
    &&& rows.len() > 0 && (forall|row: Vec<Value>, go: bool|
        models(row@) == rows[0] && #[trigger] f.ensures((row,), go) ==> !go) ==> r is Ok
}

/// Calls `f` on each row of the MessagePack stream `data`, in order, until `f` returns `false`
/// or the stream ends. The error, if any, is the one that stops the stream.
pub fn each_row_in_bytes<F: Fn(Vec<Value>) -> bool>(data: Vec<u8>, f: &F) -> (r: Result<
    (),
    TreasureDataError,
>)
    requires
        forall|row: Vec<Value>| f.requires((row,)),
    ensures
        walked(data@, f, r),
{
    let ghost rows = stream(data@, 0).0;
    let ghost end = stream(data@, 0).1;
    let ghost n = rows.len() as int;
    let ghost mut c: int = 0;
    let mut reader = RowReader::new(data);
    loop
        invariant
            reader.wf(),
            (rows, end) == stream(data@, 0),
            n == rows.len(),
            0 <= c <= n,
            reader.rest() == (rows.subrange(c, n), end),
            takes_first(f, rows, c),
            forall|row: Vec<Value>| f.requires((row,)),
        decreases n - c,
    {
        match reader.next_row() {
            Ok(Some(xs)) => {
                assert(rows.subrange(c, n)[0] == rows[c]);
                let ghost arg = xs;
                let go = f(xs);
                if !go {
                    assert(f.ensures((arg,), false));
                    assert(answers(f, rows[c], false));
                    assert(stops_at(f, rows, c));
                    assert(stream(data@, 0).0 == rows);
                    assert(stops_at(f, stream(data@, 0).0, c));
                    return Ok(());
                }
                proof {
                    assert(f.ensures((arg,), true));
                    assert(answers(f, rows[c], true));
                    assert(rows.subrange(c, n).drop_first() =~= rows.subrange(c + 1, n));
                    assert forall|i: int| 0 <= i < c + 1 implies #[trigger] answers(
                        f,
                        rows[i],
                        true,
                    ) by {
                        if i < c {
                            assert(answers(f, rows[i], true));
                        }
                    }
                    c = c + 1;
                }
            },
            Ok(None) => {
                assert(rows.subrange(c, n).len() == 0);
                return Ok(());
            },
            Err(e) => {
                assert(rows.subrange(c, n).len() == 0);
                proof {
                    if n > 0 {
                        assert(answers(f, rows[0], true));
                    }
                }
                return Err(e);
            },
        }
    }
}

/// Like `each_row_in_bytes`, on a gzip-compressed stream.
pub fn each_row_in_gzip<F: Fn(Vec<Value>) -> bool>(data: &[u8], f: &F) -> (r: Result<
    (),
    TreasureDataError,
>)
    requires
        forall|row: Vec<Value>| f.requires((row,)),
    ensures
        !gunzip_ok(data@) ==> (r matches Err(TreasureDataError::IoError(_))),
        gunzip_ok(data@) ==> walked(gunzip_of(data@), f, r),
{
    match gunzip(data) {
        Err(msg) => Err(TreasureDataError::IoError(msg)),
        Ok(plain) => each_row_in_bytes(plain, f),
    }
}

} // verus!
