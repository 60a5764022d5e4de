//! The compression algorithms, each behind a small function whose contract
//! names what the algorithm computes.

use std::io::Read;
use std::io::Write;
use vstd::prelude::*;

verus! {

/// The gzip stream that `flate2` writes for the given bytes.
pub uninterp spec fn gzip_of(data: Seq<u8>) -> Seq<u8>;

/// What `flate2`'s gzip decoder reads from the given bytes, or `None` where it
/// rejects them.
pub uninterp spec fn gunzip_of(body: Seq<u8>) -> Option<Seq<u8>>;

/// The zlib stream that `flate2` writes for the given bytes.
pub uninterp spec fn zlib_of(data: Seq<u8>) -> Seq<u8>;

/// What `flate2`'s zlib decoder reads from the given bytes, or `None` where it
/// rejects them.
pub uninterp spec fn unzlib_of(body: Seq<u8>) -> Option<Seq<u8>>;

/// The brotli stream that `brotli` writes for the given bytes.
pub uninterp spec fn brotli_of(data: Seq<u8>) -> Seq<u8>;

/// What `brotli`'s decompressor reads from the given bytes, or `None` where
/// it rejects them.
pub uninterp spec fn unbrotli_of(body: Seq<u8>) -> Option<Seq<u8>>;

/// The LZW code stream that `lzw` writes for the given bytes.
pub uninterp spec fn lzw_of(data: Seq<u8>) -> Seq<u8>;

/// What `lzw`'s decoder yields once it has consumed exactly the given bytes:
/// the output of every whole code word they hold, or `None` where one of
/// those code words is rejected.
pub uninterp spec fn lzw_decoded_of(fed: Seq<u8>) -> Option<Seq<u8>>;

/// The bytes that an LZW decoder has consumed since it was made.
pub uninterp spec fn lzw_fed(decoder: LzwDecoder) -> Seq<u8>;

/// Relies on `flate2::write::GzEncoder` at the best level, writing into a
/// `Vec`: writing into memory does not fail, the stream depends on the input
/// alone (the header carries no time and a fixed system byte), and
/// `flate2::read::GzDecoder` reads the input back from it.
#[verifier::external_body]
pub(crate) fn gzip(data: &[u8]) -> (r: Option<Vec<u8>>)
    ensures
        r is Some,
        r matches Some(c) ==> c@ == gzip_of(data@),
        r matches Some(c) ==> gunzip_of(c@) == Some(data@),
{
    let mut encoder = flate2::write::GzEncoder::new(Vec::new(), flate2::Compression::best());
    encoder.write_all(data).ok()?;
    encoder.finish().ok()
}

/// Relies on `flate2::read::GzDecoder` read to its end: the outcome depends on
/// the input bytes alone.
#[verifier::external_body]
pub(crate) fn gunzip(body: &[u8]) -> (r: Option<Vec<u8>>)
    ensures
        match r {
            Some(v) => gunzip_of(body@) == Some(v@),
            None => gunzip_of(body@) is None,
        },
{
    let mut decoder = flate2::read::GzDecoder::new(body);
    let mut buf = Vec::new();
    decoder.read_to_end(&mut buf).ok()?;
    Some(buf)
}

/// Relies on `flate2::write::ZlibEncoder` at the best level, writing into a
/// `Vec`: writing into memory does not fail, the stream depends on the input
/// alone, and `flate2::read::ZlibDecoder` reads the input back from it.
#[verifier::external_body]
pub(crate) fn zlib(data: &[u8]) -> (r: Option<Vec<u8>>)
    ensures
        r is Some,
        r matches Some(c) ==> c@ == zlib_of(data@),
        r matches Some(c) ==> unzlib_of(c@) == Some(data@),
{
    let mut encoder = flate2::write::ZlibEncoder::new(Vec::new(), flate2::Compression::best());
    encoder.write_all(data).ok()?;
    encoder.finish().ok()
}

/// Relies on `flate2::read::ZlibDecoder` read to its end: the outcome depends
/// on the input bytes alone.
#[verifier::external_body]
pub(crate) fn unzlib(body: &[u8]) -> (r: Option<Vec<u8>>)
    ensures
        match r {
            Some(v) => unzlib_of(body@) == Some(v@),
            None => unzlib_of(body@) is None,
        },
{
    let mut decoder = flate2::read::ZlibDecoder::new(body);
    let mut buf = Vec::new();
    decoder.read_to_end(&mut buf).ok()?;
    Some(buf)
}

/// Relies on `brotli::CompressorWriter` at quality 9 with a 2^22 window,
/// writing into a `Vec` and finished by `into_inner`: writing into memory
/// does not fail, the stream depends on the input alone, and
/// `brotli::Decompressor` reads the input back from it.
#[verifier::external_body]
pub(crate) fn brotli(data: &[u8]) -> (r: Option<Vec<u8>>)
    ensures
        r is Some,
        r matches Some(c) ==> c@ == brotli_of(data@),
        r matches Some(c) ==> unbrotli_of(c@) == Some(data@),
{
    let mut encoder = brotli::CompressorWriter::new(Vec::new(), 0, 9, 22);
    encoder.write_all(data).ok()?;
    Some(encoder.into_inner())
}

/// Relies on `brotli::Decompressor` read to its end: the outcome depends on
/// the input bytes alone.
#[verifier::external_body]
pub(crate) fn unbrotli(body: &[u8]) -> (r: Option<Vec<u8>>)
    ensures
        match r {
            Some(v) => unbrotli_of(body@) == Some(v@),
            None => unbrotli_of(body@) is None,
        },
{
    let mut decoder = brotli::Decompressor::new(body, 4096);
    let mut buf = Vec::new();
    decoder.read_to_end(&mut buf).ok()?;
    Some(buf)
}

/// Relies on `lzw::Encoder` over an `lzw::LsbWriter` with 8-bit symbols,
/// which writes the end code when dropped: writing into memory does not
/// fail, the stream depends on the input alone, and the matching decoder
/// yields the input once it has consumed the whole stream.
#[verifier::external_body]
pub(crate) fn lzw(data: &[u8]) -> (r: Option<Vec<u8>>)
    ensures
        r is Some,
        r matches Some(c) ==> c@ == lzw_of(data@),
        r matches Some(c) ==> lzw_decoded_of(c@) == Some(data@),
{
    let mut buffer = Vec::new();
    {
        let mut encoder = lzw::Encoder::new(lzw::LsbWriter::new(&mut buffer), 8).ok()?;
        encoder.encode_bytes(data).ok()?;
    }
    Some(buffer)
}

/// An LZW decoder of `lzw` part way through a stream. Its state is hidden
/// from proofs; `lzw_fed` names the bytes it has consumed.
#[verifier::external_body]
pub(crate) struct LzwDecoder {
    inner: lzw::Decoder<lzw::LsbReader>,
}

impl LzwDecoder {
    /// Relies on `lzw::Decoder::new` over an `lzw::LsbReader` with 8-bit
    /// symbols: a decoder that has consumed nothing and yielded nothing.
    #[verifier::external_body]
    pub(crate) fn new() -> (r: LzwDecoder)
        ensures
            lzw_fed(r) == Seq::<u8>::empty(),
            lzw_decoded_of(lzw_fed(r)) == Some(Seq::<u8>::empty()),
    {
        LzwDecoder { inner: lzw::Decoder::new(lzw::LsbReader::new(), 8) }
    }

    /// Relies on `lzw::Decoder::decode_bytes`, which decodes one code word:
    /// it consumes the bytes that word needs beyond the bits it kept from
    /// earlier calls (at least one, as no call keeps a whole word), or every
    /// byte given when they do not finish one, and yields a copy of what the
    /// word stands for. On an error, the rejected word lies in what was fed
    /// before and `bytes`.
    #[verifier::external_body]
    pub(crate) fn step(&mut self, bytes: &[u8]) -> (r: Option<(usize, Vec<u8>)>)
        ensures
            r matches Some((n, _)) ==> n <= bytes@.len(),
            r matches Some((n, _)) ==> (bytes@.len() > 0 ==> n >= 1),
            r matches Some((n, _)) ==> lzw_fed(*final(self)) == lzw_fed(*old(self)) + bytes@.take(
                n as int,
            ),
            r matches Some((_, piece)) ==> (lzw_decoded_of(lzw_fed(*old(self))) matches Some(o)
                ==> lzw_decoded_of(lzw_fed(*final(self))) == Some(o + piece@)),
            r is None ==> lzw_decoded_of(lzw_fed(*old(self)) + bytes@) is None,
    {
        let (consumed, out) = self.inner.decode_bytes(bytes).ok()?;
        Some((consumed, out.to_vec()))
    }
}

} // verus!
