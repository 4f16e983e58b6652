use vstd::prelude::*;

use flate2::write::GzEncoder;

verus! {

/// A gzip encoder that compresses into memory.
#[verifier::external_body]
pub struct GzSink {
    enc: GzEncoder<Vec<u8>>,
}

/// The bytes that have been handed to a gzip sink so far, before compression.
pub uninterp spec fn gz_input(e: GzSink) -> Seq<u8>;

/// The compressed bytes that have been taken out of a gzip sink so far.
pub uninterp spec fn gz_emitted(e: GzSink) -> Seq<u8>;

/// Whether `data` decompresses as a gzip stream.
pub uninterp spec fn gunzip_ok(data: Seq<u8>) -> bool;

/// The bytes that a gzip stream decompresses to.
pub uninterp spec fn gunzip_of(data: Seq<u8>) -> Seq<u8>;

/// Relies on flate2::write::GzEncoder::new: a fresh encoder at the default level, writing
/// into an empty buffer, that has been handed nothing yet.
#[verifier::external_body]
pub(crate) fn gz_sink_new() -> (r: GzSink)
    ensures
        gz_input(r) == Seq::<u8>::empty(),
        gz_emitted(r) == Seq::<u8>::empty(),
{
    GzSink { enc: GzEncoder::new(Vec::new(), flate2::Compression::default()) }
}

/// Relies on std::io::Write::write_all on flate2's GzEncoder: the encoder takes every byte of
/// `data`, after those it already had. It writes its output into a `Vec<u8>`, which never
/// fails, and the deflate backend reports errors only for a stream used after it finished or
/// given a dictionary, neither of which happens here.
#[verifier::external_body]
pub(crate) fn gz_write_all(e: &mut GzSink, data: &[u8]) -> (r: Result<(), String>)
    ensures
        r is Ok,
        gz_input(*final(e)) == gz_input(*old(e)) + data@,
        gz_emitted(*final(e)) == gz_emitted(*old(e)),
{
    std::io::Write::write_all(&mut e.enc, data).map_err(|x| x.to_string())
}

/// Relies on flate2::write::GzEncoder::finish: writes the gzip trailer and hands back the
/// compressed bytes, a gzip stream that decompresses to the bytes the encoder was handed. It
/// cannot fail, for the reasons given at `gz_write_all`.
#[verifier::external_body]
pub(crate) fn gz_finish(e: GzSink) -> (r: Result<Vec<u8>, String>)
    ensures
        r is Ok,
        r matches Ok(v) ==> gunzip_ok(gz_emitted(e) + v@) && gunzip_of(gz_emitted(e) + v@)
            == gz_input(e),
{
    e.enc.finish().map_err(|x| x.to_string())
}

/// Relies on flate2::write::GzEncoder::get_mut: takes out the compressed bytes the encoder has
/// written so far. The encoder only ever appends to its buffer, so emptying it leaves the
/// stream whole: what is taken, then what follows, is the gzip stream.
#[verifier::external_body]
pub(crate) fn gz_take(e: &mut GzSink) -> (r: Vec<u8>)
    ensures
        gz_input(*final(e)) == gz_input(*old(e)),
        gz_emitted(*final(e)) == gz_emitted(*old(e)) + r@,
{
    std::mem::take(e.enc.get_mut())
}

/// A gzip decoder that takes compressed input piece by piece.
#[verifier::external_body]
pub struct GunzipSink {
    dec: flate2::write::GzDecoder<Vec<u8>>,
}

/// The compressed bytes a gzip decoder has taken so far.
pub uninterp spec fn gunzip_fed(s: GunzipSink) -> Seq<u8>;

/// The decompressed bytes a gzip decoder has handed out so far.
pub uninterp spec fn gunzip_out(s: GunzipSink) -> Seq<u8>;

/// Whether a gzip decoder has taken every piece it was given.
pub uninterp spec fn gunzip_sound(s: GunzipSink) -> bool;

/// Whether flate2's write-side gzip decoder takes all of `data` without an error: a beginning
/// of one gzip stream, or one whole stream with nothing after it.
pub uninterp spec fn gunzip_prefix_ok(data: Seq<u8>) -> bool;

/// Relies on flate2::write::GzDecoder::new: a decoder that has been given nothing yet.
#[verifier::external_body]
pub(crate) fn gunzip_sink_new() -> (r: GunzipSink)
    ensures
        gunzip_fed(r) == Seq::<u8>::empty(),
        gunzip_out(r) == Seq::<u8>::empty(),
        gunzip_sound(r),
{
    GunzipSink { dec: flate2::write::GzDecoder::new(Vec::new()) }
}

/// Relies on std::io::Write::write_all on flate2's write::GzDecoder: takes compressed bytes
/// and hands back what they decompressed to so far.
#[verifier::external_body]
pub(crate) fn gunzip_push(s: &mut GunzipSink, data: &[u8]) -> (r: Result<Vec<u8>, String>)
    ensures
        gunzip_sound(*old(s)) ==> (r is Ok <==> gunzip_prefix_ok(gunzip_fed(*old(s)) + data@)),
        gunzip_sound(*final(s)) == (gunzip_sound(*old(s)) && r is Ok),
        r matches Ok(v) ==> gunzip_fed(*final(s)) == gunzip_fed(*old(s)) + data@ && gunzip_out(
            *final(s),
        ) == gunzip_out(*old(s)) + v@,
{
    match std::io::Write::write_all(&mut s.dec, data) {
        Ok(()) => Ok(std::mem::take(s.dec.get_mut())),
        Err(e) => Err(e.to_string()),
    }
}

/// Relies on flate2::write::GzDecoder::finish: checks that the compressed stream ended whole
/// and hands back its last decompressed bytes: all of them together are what the whole input
/// decompresses to.
#[verifier::external_body]
pub(crate) fn gunzip_end(s: GunzipSink) -> (r: Result<Vec<u8>, String>)
    ensures
        gunzip_sound(s) && gunzip_ok(gunzip_fed(s)) ==> r is Ok,
        r matches Ok(v) ==> gunzip_ok(gunzip_fed(s)) && gunzip_of(gunzip_fed(s)) == gunzip_out(s)
            + v@,
{
    s.dec.finish().map_err(|e| e.to_string())
}

/// Relies on flate2::read::GzDecoder and std::io::Read::read_to_end: the bytes that a gzip
/// stream decompresses to, which depend on the stream alone.
#[verifier::external_body]
pub(crate) fn gunzip(data: &[u8]) -> (r: Result<Vec<u8>, String>)
    ensures
        r is Ok <==> gunzip_ok(data@),
        r matches Ok(v) ==> v@ == gunzip_of(data@),
{
    let mut out = Vec::new();
    let mut d = flate2::read::GzDecoder::new(data);
    std::io::Read::read_to_end(&mut d, &mut out).map(|_| out).map_err(|x| x.to_string())
}

} // verus!
