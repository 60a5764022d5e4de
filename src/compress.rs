//! Framing of compressed payloads: the algorithm's token, `;`, the body
//! length, and the body.

use crate::codec::{
    brotli, brotli_of, gunzip, gunzip_of, gzip, gzip_of, lzw, lzw_decoded_of, lzw_fed, lzw_of,
    unbrotli, unbrotli_of, unzlib, unzlib_of, zlib, zlib_of, LzwDecoder,
};
use crate::serialize::Deserializer;
use crate::varnum::{
    lemma_varnum_prefix, lemma_varnum_round_trip, parse_varnum, read_varnum, varnum_bytes,
    write_varnum, MAX_VARNUM_BYTES,
};
use vstd::prelude::*;

verus! {

/// Most bytes read while looking for the end of the header, `;` included.
pub const MAX_HEADER_BYTES: usize = 32;

/// The byte that ends the header.
pub const DELIMITER: u8 = 0x3b;

/// The compression algorithms a frame can name. Their tokens match HTTP's
/// `Accept-Encoding` values.
#[derive(Clone, Copy, Debug, PartialEq, Eq, Structural)]
pub enum Compression {
    /// No compression (`identity;`).
    Identity,
    /// gzip compression (`gzip;`).
    Gzip,
    /// zlib compression (`deflate;`).
    Deflate,
    /// brotli compression (`br;`).
    Brotli,
    /// LZW compression (`compress;`).
    Lzw,
}

/// Byte counts of one call to `Compression::compress`.
#[derive(Clone, Copy, Debug, PartialEq, Eq, Structural)]
pub struct CompressionResult {
    /// Length of the input.
    pub before: usize,
    /// Length of the compressed body.
    pub after: usize,
}

/// Why a frame could not be written or read.
#[derive(Clone, Copy, Debug, PartialEq, Eq, Structural)]
pub enum FrameError {
    /// No `;` within the first 32 bytes, or a header that names no algorithm.
    InvalidHeader,
    /// The body length is not a well-formed 32-bit varint.
    MalformedLength,
    /// Fewer bytes follow the length than it declares.
    TruncatedBody,
    /// The algorithm's decoder rejected the body.
    DecompressionFailure,
    /// The deserializer rejected the decompressed bytes.
    DeserializationFailure,
    /// The algorithm's encoder failed.
    IOFailure,
    /// The compressed body is longer than a 32-bit length can declare.
    BodyTooLarge,
}

/// A frame read from the front of a byte sequence.
#[derive(Debug)]
pub struct Frame {
    /// The algorithm its header names.
    pub compression: Compression,
    /// Its body, still compressed.
    pub body: Vec<u8>,
    /// How many bytes the frame took, header to body end.
    pub consumed: usize,
}

impl View for Frame {
    type V = (Compression, Seq<u8>, nat);

    open spec fn view(&self) -> (Compression, Seq<u8>, nat) {
        (self.compression, self.body@, self.consumed as nat)
    }
}

/// The ASCII token that names `c`.
pub open spec fn token_of(c: Compression) -> Seq<u8> {
    match c {
        Compression::Identity => seq![0x69u8, 0x64, 0x65, 0x6e, 0x74, 0x69, 0x74, 0x79],
        Compression::Gzip => seq![0x67u8, 0x7a, 0x69, 0x70],
        Compression::Deflate => seq![0x64u8, 0x65, 0x66, 0x6c, 0x61, 0x74, 0x65],
        Compression::Brotli => seq![0x62u8, 0x72],
        Compression::Lzw => seq![0x63u8, 0x6f, 0x6d, 0x70, 0x72, 0x65, 0x73, 0x73],
    }
}

/// The algorithm whose token is exactly `h`, if any.
pub open spec fn compression_of_token(h: Seq<u8>) -> Option<Compression> {
    if h == token_of(Compression::Identity) {
        Some(Compression::Identity)
    } else if h == token_of(Compression::Gzip) {
        Some(Compression::Gzip)
    } else if h == token_of(Compression::Deflate) {
        Some(Compression::Deflate)
    } else if h == token_of(Compression::Brotli) {
        Some(Compression::Brotli)
    } else if h == token_of(Compression::Lzw) {
        Some(Compression::Lzw)
    } else {
        None
    }
}

/// The compressed body that `c` makes of `data`.
pub open spec fn packed_of(c: Compression, data: Seq<u8>) -> Seq<u8> {
    match c {
        Compression::Identity => data,
        Compression::Gzip => gzip_of(data),
        Compression::Deflate => zlib_of(data),
        Compression::Brotli => brotli_of(data),
        Compression::Lzw => lzw_of(data),
    }
}

/// What `c`'s decoder makes of the whole of `body`, or `None` where it
/// rejects it.
pub open spec fn unpacked_of(c: Compression, body: Seq<u8>) -> Option<Seq<u8>> {
    match c {
        Compression::Identity => Some(body),
        Compression::Gzip => gunzip_of(body),
        Compression::Deflate => unzlib_of(body),
        Compression::Brotli => unbrotli_of(body),
        Compression::Lzw => lzw_decoded_of(body),
    }
}

/// The bytes of a frame of algorithm `c` around `body`.
pub open spec fn frame_bytes(c: Compression, body: Seq<u8>) -> Seq<u8> {
    token_of(c) + seq![DELIMITER] + varnum_bytes(body.len()) + body
}

/// Index of the first `;` at or after `i` among the first 32 bytes of `s`.
pub open spec fn find_delimiter(s: Seq<u8>, i: nat) -> Option<nat>
    decreases MAX_HEADER_BYTES - i,
{
    if i >= MAX_HEADER_BYTES || i >= s.len() {
        None
    } else if s[i as int] == DELIMITER {
        Some(i)
    } else {
        find_delimiter(s, i + 1)
    }
}

/// The frame at the front of `s`: its algorithm, its body and the number of
/// bytes it takes, or the error that reading it meets first.
pub open spec fn frame_of(s: Seq<u8>) -> Result<(Compression, Seq<u8>, nat), FrameError> {
    match find_delimiter(s, 0) {
        None => Err(FrameError::InvalidHeader),
        Some(i) => match compression_of_token(s.take(i as int)) {
            None => Err(FrameError::InvalidHeader),
            Some(c) => match parse_varnum(s.skip(i + 1 as int)) {
                None => Err(FrameError::MalformedLength),
                Some((len, m)) => {
                    let start = i + 1 + m;
                    if start + len > s.len() {
                        Err(FrameError::TruncatedBody)
                    } else {
                        Ok((c, s.subrange(start as int, (start + len) as int), start + len))
                    }
                },
            },
        },
    }
}

impl Compression {
    /// Every algorithm, each once, in the order of the declaration.
    pub open spec fn values_spec() -> Seq<Compression> {
        seq![
            Compression::Identity,
            Compression::Gzip,
            Compression::Deflate,
            Compression::Brotli,
            Compression::Lzw,
        ]
    }

    /// Every algorithm, each once.
    pub fn values() -> (r: Vec<Compression>)
        ensures
            r@ == Compression::values_spec(),
    {
        vec![
            Compression::Identity,
            Compression::Gzip,
            Compression::Deflate,
            Compression::Brotli,
            Compression::Lzw,
        ]
    }

    /// The ASCII token that names this algorithm.
    pub fn token(&self) -> (r: Vec<u8>)
        ensures
            r@ == token_of(*self),
    {
        let r = match self {
            Compression::Identity => vec![0x69u8, 0x64, 0x65, 0x6e, 0x74, 0x69, 0x74, 0x79],
            Compression::Gzip => vec![0x67u8, 0x7a, 0x69, 0x70],
            Compression::Deflate => vec![0x64u8, 0x65, 0x66, 0x6c, 0x61, 0x74, 0x65],
            Compression::Brotli => vec![0x62u8, 0x72],
            Compression::Lzw => vec![0x63u8, 0x6f, 0x6d, 0x70, 0x72, 0x65, 0x73, 0x73],
        };
        assert(r@ =~= token_of(*self));
        r
    }

    /// The algorithm whose token is exactly `header`, if any.
    pub fn from_token(header: &[u8]) -> (r: Option<Compression>)
        ensures
            r == compression_of_token(header@),
    {
        let candidates = Compression::values();
        let mut k: usize = 0;
        while k < candidates.len()
            invariant
                k <= candidates@.len(),
                candidates@ == Compression::values_spec(),
                forall|j: int| 0 <= j < k ==> header@ != token_of(#[trigger] candidates@[j]),
            decreases candidates@.len() - k,
        {
            let c = candidates[k];
            let t = c.token();
            if bytes_equal(header, t.as_slice()) {
                return Some(c);
            }
            k = k + 1;
        }
        assert(header@ != token_of(candidates@[0]));
        assert(header@ != token_of(candidates@[1]));
        assert(header@ != token_of(candidates@[2]));
        assert(header@ != token_of(candidates@[3]));
        assert(header@ != token_of(candidates@[4]));
        None
    }
}

/// Whether two byte slices hold the same bytes.
fn bytes_equal(a: &[u8], b: &[u8]) -> (r: bool)
    ensures
        r == (a@ == b@),
{
    if a.len() != b.len() {
        return false;
    }
    let mut i: usize = 0;
    while i < a.len()
        invariant
            i <= a@.len() == b@.len(),
            forall|j: int| 0 <= j < i ==> a@[j] == b@[j],
        decreases a@.len() - i,
    {
        if a[i] != b[i] {
            return false;
        }
        i = i + 1;
    }
    assert(a@ =~= b@);
    true
}

impl Compression {
    /// Compresses `data` with this algorithm and appends the frame to `out`:
    /// the token, `;`, the body length as a varint, and the body. Nothing is
    /// appended when it fails.
    pub fn compress(&self, data: &[u8], out: &mut Vec<u8>) -> (r: Result<
        CompressionResult,
        FrameError,
    >)
        ensures
            r is Ok <==> packed_of(*self, data@).len() <= u32::MAX,
            unpacked_of(*self, packed_of(*self, data@)) == Some(data@),
            match r {
                Ok(res) => {
                    &&& res.before == data@.len()
                    &&& res.after == packed_of(*self, data@).len()
                    &&& final(out)@ == old(out)@ + frame_bytes(*self, packed_of(*self, data@))
                },
                Err(e) => {
                    &&& e == FrameError::BodyTooLarge
                    &&& final(out)@ == old(out)@
                },
            },
    {
        let packed = match self {
            Compression::Identity => Some(vstd::slice::slice_to_vec(data)),
            Compression::Gzip => gzip(data),
            Compression::Deflate => zlib(data),
            Compression::Brotli => brotli(data),
            Compression::Lzw => lzw(data),
        };
        let mut body = match packed {
            Some(b) => b,
            None => {
                return Err(FrameError::IOFailure);
            },
        };
        if body.len() > u32::MAX as usize {
            return Err(FrameError::BodyTooLarge);
        }
        let after = body.len();
        let mut frame = self.token();
        frame.push(DELIMITER);
        write_varnum(&mut frame, after as u32);
        frame.append(&mut body);
        out.append(&mut frame);
        proof {
            assert(frame_bytes(*self, packed_of(*self, data@)) =~= token_of(*self) + seq![DELIMITER]
                + varnum_bytes(after as nat) + packed_of(*self, data@));
        }
        Ok(CompressionResult { before: data.len(), after })
    }
}

/// Reads the frame at the front of `inp`, up to the end of its body; the
/// body is not decompressed. At most 32 bytes are looked at for the header.
pub fn parse_frame(inp: &[u8]) -> (r: Result<Frame, FrameError>)
    ensures
        match r {
            Ok(f) => frame_of(inp@) == Ok::<_, FrameError>(f@),
            Err(e) => frame_of(inp@) == Err::<(Compression, Seq<u8>, nat), FrameError>(e),
        },
{
    let bound: usize = if inp.len() < MAX_HEADER_BYTES {
        inp.len()
    } else {
        MAX_HEADER_BYTES
    };
    let mut i: usize = 0;
    while i < bound && inp[i] != DELIMITER
        invariant
            i <= bound,
            bound == inp@.len() || bound == MAX_HEADER_BYTES,
            bound <= inp@.len() && bound <= MAX_HEADER_BYTES,
            find_delimiter(inp@, 0) == find_delimiter(inp@, i as nat),
        decreases bound - i,
    {
        i = i + 1;
    }
    if i >= bound {
        return Err(FrameError::InvalidHeader);
    }
    let header = vstd::slice::slice_subrange(inp, 0, i);
    assert(header@ =~= inp@.take(i as int));
    let compression = match Compression::from_token(header) {
        Some(c) => c,
        None => {
            return Err(FrameError::InvalidHeader);
        },
    };
    let (len, m) = match read_varnum(inp, i + 1) {
        Some(p) => p,
        None => {
            return Err(FrameError::MalformedLength);
        },
    };
    let start = i + 1 + m;
    if len as usize > inp.len() - start {
        return Err(FrameError::TruncatedBody);
    }
    let end = start + len as usize;
    let body = vstd::slice::slice_to_vec(vstd::slice::slice_subrange(inp, start, end));
    Ok(Frame { compression, body, consumed: end })
}

/// Whether `t` is the start of a varint that more bytes could still finish:
/// fewer than five bytes, each with its continuation bit set.
pub open spec fn varnum_unfinished(t: Seq<u8>) -> bool {
    t.len() < 5 && forall|j: int| 0 <= j < t.len() ==> t[j] >= 128
}

/// How many more bytes a reader of the stream must take before `frame_of`
/// can decide on `s`: zero once `s` holds a whole frame or has failed in a
/// way that no further byte can mend.
pub open spec fn wanted_of(s: Seq<u8>) -> nat {
    match find_delimiter(s, 0) {
        None => if s.len() < MAX_HEADER_BYTES {
            1
        } else {
            0
        },
        Some(i) => match compression_of_token(s.take(i as int)) {
            None => 0,
            Some(_) => match parse_varnum(s.skip(i + 1 as int)) {
                None => if varnum_unfinished(s.skip(i + 1 as int)) {
                    1
                } else {
                    0
                },
                Some((len, m)) => if i + 1 + m + len > s.len() {
                    (i + 1 + m + len - s.len()) as nat
                } else {
                    0
                },
            },
        },
    }
}

/// How many more bytes to read from a stream whose bytes so far are
/// `prefix` before handing them to `parse_frame`. Reading exactly that many
/// each time takes a frame off a stream without reading past its end.
pub fn bytes_wanted(prefix: &[u8]) -> (r: u64)
    ensures
        r as nat == wanted_of(prefix@),
{
    let bound: usize = if prefix.len() < MAX_HEADER_BYTES {
        prefix.len()
    } else {
        MAX_HEADER_BYTES
    };
    let mut i: usize = 0;
    while i < bound && prefix[i] != DELIMITER
        invariant
            i <= bound,
            bound == prefix@.len() || bound == MAX_HEADER_BYTES,
            bound <= prefix@.len() && bound <= MAX_HEADER_BYTES,
            find_delimiter(prefix@, 0) == find_delimiter(prefix@, i as nat),
        decreases bound - i,
    {
        i = i + 1;
    }
    if i >= bound {
        return if prefix.len() < MAX_HEADER_BYTES {
            1
        } else {
            0
        };
    }
    let header = vstd::slice::slice_subrange(prefix, 0, i);
    assert(header@ =~= prefix@.take(i as int));
    if Compression::from_token(header).is_none() {
        return 0;
    }
    match read_varnum(prefix, i + 1) {
        Some((len, m)) => {
            let start = i + 1 + m;
            if len as usize > prefix.len() - start {
                (len as usize - (prefix.len() - start)) as u64
            } else {
                0
            }
        },
        None => {
            let ghost t = prefix@.skip(i + 1 as int);
            let rest_len = prefix.len() - (i + 1);
            assert(t.len() == rest_len);
            if rest_len >= MAX_VARNUM_BYTES {
                return 0;
            }
            let mut j: usize = i + 1;
            while j < prefix.len()
                invariant
                    i + 1 <= j <= prefix@.len(),
                    t == prefix@.skip(i + 1 as int),
                    parse_varnum(t) is None,
                    find_delimiter(prefix@, 0) == Some(i as nat),
                    compression_of_token(prefix@.take(i as int)) is Some,
                    forall|k: int| 0 <= k < j - (i + 1) ==> t[k] >= 128,
                decreases prefix@.len() - j,
            {
                if prefix[j] < 128 {
                    assert(t[j - (i + 1)] == prefix@[j as int]);
                    assert(!varnum_unfinished(t));
                    return 0;
                }
                assert(t[j - (i + 1)] == prefix@[j as int]);
                j = j + 1;
            }
            assert(varnum_unfinished(t));
            1
        },
    }
}

/// Decodes an LZW body one code word at a time until every byte is used.
fn lzw_decode(body: &[u8]) -> (r: Option<Vec<u8>>)
    ensures
        match r {
            Some(v) => lzw_decoded_of(body@) == Some(v@),
            None => lzw_decoded_of(body@) is None,
        },
{
    let mut decoder = LzwDecoder::new();
    let mut out: Vec<u8> = Vec::new();
    let mut pos: usize = 0;
    while pos < body.len()
        invariant
            pos <= body@.len(),
            lzw_fed(decoder) == body@.take(pos as int),
            lzw_decoded_of(lzw_fed(decoder)) == Some(out@),
        decreases body@.len() - pos,
    {
        let rest = vstd::slice::slice_subrange(body, pos, body.len());
        match decoder.step(rest) {
            Some((n, piece)) => {
                let mut piece = piece;
                out.append(&mut piece);
                assert(body@.take(pos as int) + rest@.take(n as int) =~= body@.take(pos + n));
                pos = pos + n;
            },
            None => {
                assert(body@.take(pos as int) + rest@ =~= body@);
                return None;
            },
        }
    }
    assert(body@.take(pos as int) =~= body@);
    Some(out)
}

/// Decompresses a frame body with algorithm `c`.
pub fn unpack(c: Compression, body: &[u8]) -> (r: Result<Vec<u8>, FrameError>)
    ensures
        match r {
            Ok(v) => unpacked_of(c, body@) == Some(v@),
            Err(e) => e == FrameError::DecompressionFailure && unpacked_of(c, body@) is None,
        },
{
    let out = match c {
        Compression::Identity => Some(vstd::slice::slice_to_vec(body)),
        Compression::Gzip => gunzip(body),
        Compression::Deflate => unzlib(body),
        Compression::Brotli => unbrotli(body),
        Compression::Lzw => lzw_decode(body),
    };
    match out {
        Some(v) => Ok(v),
        None => Err(FrameError::DecompressionFailure),
    }
}

/// Reads the frame at the front of `inp` and decompresses its body.
pub fn decode_payload(inp: &[u8]) -> (r: Result<Vec<u8>, FrameError>)
    ensures
        match frame_of(inp@) {
            Err(e) => r == Err::<Vec<u8>, FrameError>(e),
            Ok((c, body, _)) => match r {
                Ok(v) => unpacked_of(c, body) == Some(v@),
                Err(e) => e == FrameError::DecompressionFailure && unpacked_of(c, body) is None,
            },
        },
{
    let frame = match parse_frame(inp) {
        Ok(f) => f,
        Err(e) => {
            return Err(e);
        },
    };
    unpack(frame.compression, frame.body.as_slice())
}

impl Compression {
    /// Reads the frame at the front of `inp`, decompresses its body and hands
    /// the bytes to `deserializer`, whose outcome is returned as it is.
    pub fn decompress<T: Deserializer>(inp: &[u8], deserializer: &T) -> (r: Result<
        T::Target,
        FrameError,
    >)
        ensures
            match frame_of(inp@) {
                Err(e) => r matches Err(e2) && e2 == e,
                Ok((c, body, _)) => match unpacked_of(c, body) {
                    Some(v) => deserializer.reads(v, r),
                    None => r matches Err(e2) && e2 == FrameError::DecompressionFailure,
                },
            },
    {
        let bytes = match decode_payload(inp) {
            Ok(b) => b,
            Err(e) => {
                return Err(e);
            },
        };
        deserializer.read(bytes.as_slice())
    }
}

/// The tokens start with five different bytes, none of them `;`.
proof fn lemma_token_bytes(c: Compression)
    ensures
        token_of(c).len() <= 8,
        forall|j: int| 0 <= j < token_of(c).len() ==> token_of(c)[j] != DELIMITER,
        token_of(c)[0] == match c {
            Compression::Identity => 0x69u8,
            Compression::Gzip => 0x67u8,
            Compression::Deflate => 0x64u8,
            Compression::Brotli => 0x62u8,
            Compression::Lzw => 0x63u8,
        },
{
}

/// A header resolves to an algorithm exactly when it is that algorithm's
/// token: no prefix, case change or padding is accepted.
pub proof fn lemma_token_fidelity(h: Seq<u8>, c: Compression)
    ensures
        compression_of_token(h) == Some(c) <==> h == token_of(c),
{
    lemma_token_bytes(Compression::Identity);
    lemma_token_bytes(Compression::Gzip);
    lemma_token_bytes(Compression::Deflate);
    lemma_token_bytes(Compression::Brotli);
    lemma_token_bytes(Compression::Lzw);
}

/// A header that ends within the scan bound but is no algorithm's token is
/// rejected as an invalid header.
pub proof fn lemma_unknown_token_rejected(s: Seq<u8>, i: nat)
    requires
        find_delimiter(s, 0) == Some(i),
        forall|c: Compression| s.take(i as int) != #[trigger] token_of(c),
    ensures
        frame_of(s) == Err::<(Compression, Seq<u8>, nat), FrameError>(FrameError::InvalidHeader),
{
    if let Some(c) = compression_of_token(s.take(i as int)) {
        lemma_token_fidelity(s.take(i as int), c);
    }
}

proof fn lemma_find_none(s: Seq<u8>, i: nat)
    requires
        i <= MAX_HEADER_BYTES,
        forall|j: int| i <= j < MAX_HEADER_BYTES && j < s.len() ==> s[j] != DELIMITER,
    ensures
        find_delimiter(s, i) is None,
    decreases MAX_HEADER_BYTES - i,
{
    if i < MAX_HEADER_BYTES && i < s.len() {
        lemma_find_none(s, i + 1);
    }
}

/// Bytes that present no `;` among their first 32 are rejected as an invalid
/// header, whatever follows.
pub proof fn lemma_scan_bound(s: Seq<u8>)
    requires
        forall|j: int| 0 <= j < MAX_HEADER_BYTES && j < s.len() ==> s[j] != DELIMITER,
    ensures
        frame_of(s) == Err::<(Compression, Seq<u8>, nat), FrameError>(FrameError::InvalidHeader),
{
    lemma_find_none(s, 0);
}

proof fn lemma_find_after_token(c: Compression, rest: Seq<u8>, i: nat)
    requires
        i <= token_of(c).len(),
    ensures
        find_delimiter(token_of(c) + seq![DELIMITER] + rest, i) == Some(token_of(c).len()),
    decreases token_of(c).len() - i,
{
    lemma_token_bytes(c);
    let s = token_of(c) + seq![DELIMITER] + rest;
    if i < token_of(c).len() {
        assert(s[i as int] == token_of(c)[i as int]);
        lemma_find_after_token(c, rest, i + 1);
    } else {
        assert(s[i as int] == DELIMITER);
    }
}

/// The header of a frame of `c` is read back as `c`, and what follows it
/// starts right after the `;`.
proof fn lemma_header_of(c: Compression, rest: Seq<u8>)
    ensures
        find_delimiter(token_of(c) + seq![DELIMITER] + rest, 0) == Some(token_of(c).len()),
        (token_of(c) + seq![DELIMITER] + rest).take(token_of(c).len() as int) == token_of(c),
        (token_of(c) + seq![DELIMITER] + rest).skip(token_of(c).len() + 1 as int) == rest,
        compression_of_token(token_of(c)) == Some(c),
{
    lemma_find_after_token(c, rest, 0);
    lemma_token_fidelity(token_of(c), c);
    let s = token_of(c) + seq![DELIMITER] + rest;
    assert(s.take(token_of(c).len() as int) =~= token_of(c));
    assert(s.skip(token_of(c).len() + 1 as int) =~= rest);
}

/// The frame around `body` is read back, whatever follows it, as `c` with
/// exactly `body`, taking exactly the frame's bytes.
proof fn lemma_frame_read_back(c: Compression, body: Seq<u8>, rest: Seq<u8>)
    requires
        body.len() <= u32::MAX,
    ensures
        frame_of(frame_bytes(c, body) + rest) == Ok::<_, FrameError>(
            (c, body, frame_bytes(c, body).len()),
        ),
{
    let n = body.len();
    let after = varnum_bytes(n) + (body + rest);
    let s = frame_bytes(c, body) + rest;
    assert(s =~= token_of(c) + seq![DELIMITER] + after);
    lemma_header_of(c, after);
    lemma_varnum_round_trip(n as u32, body + rest);
    let i = token_of(c).len();
    let m = varnum_bytes(n).len();
    assert(find_delimiter(s, 0) == Some(i));
    assert(s.take(i as int) == token_of(c));
    assert(s.skip(i + 1 as int) == after);
    assert(parse_varnum(after) == Some((n, m)));
    let start = i + 1 + m;
    assert(s.len() == start + n + rest.len());
    assert(s.subrange(start as int, (start + n) as int) =~= body);
}

/// A frame written for `data` with algorithm `c` is read back, whatever
/// follows it, as algorithm `c` with exactly the compressed body that was
/// written, taking exactly the frame's bytes; that body decompresses to
/// `data` itself wherever `c`'s decoder reads back what its encoder was
/// given, which `compress` ensures of every algorithm.
pub proof fn lemma_round_trip(c: Compression, data: Seq<u8>, rest: Seq<u8>)
    requires
        packed_of(c, data).len() <= u32::MAX,
        unpacked_of(c, packed_of(c, data)) == Some(data),
    ensures
        frame_of(frame_bytes(c, packed_of(c, data)) + rest) == Ok::<_, FrameError>(
            (c, packed_of(c, data), frame_bytes(c, packed_of(c, data)).len()),
        ),
        match frame_of(frame_bytes(c, packed_of(c, data)) + rest) {
            Ok((c2, body, _)) => unpacked_of(c2, body) == Some(data),
            Err(_) => false,
        },
{
    lemma_frame_read_back(c, packed_of(c, data), rest);
}

/// A frame whose body has fewer bytes than its header declares is rejected
/// as truncated.
pub proof fn lemma_truncated_body(c: Compression, declared: u32, got: Seq<u8>)
    requires
        got.len() < declared,
    ensures
        frame_of(token_of(c) + seq![DELIMITER] + varnum_bytes(declared as nat) + got) == Err::<
            (Compression, Seq<u8>, nat),
            FrameError,
        >(FrameError::TruncatedBody),
{
    let after = varnum_bytes(declared as nat) + got;
    let s = token_of(c) + seq![DELIMITER] + after;
    assert(token_of(c) + seq![DELIMITER] + varnum_bytes(declared as nat) + got =~= s);
    lemma_header_of(c, after);
    lemma_varnum_round_trip(declared, got);
}

proof fn lemma_find_bound(s: Seq<u8>, x: nat)
    ensures
        find_delimiter(s, x) matches Some(i) ==> x <= i < MAX_HEADER_BYTES && i < s.len(),
    decreases MAX_HEADER_BYTES - x,
{
    if x < MAX_HEADER_BYTES && x < s.len() && s[x as int] != DELIMITER {
        lemma_find_bound(s, x + 1);
    }
}

proof fn lemma_find_prefix(s: Seq<u8>, j: nat, x: nat, i: nat)
    requires
        find_delimiter(s, x) == Some(i),
        j <= s.len(),
    ensures
        j <= i ==> find_delimiter(s.take(j as int), x) is None,
        j > i ==> find_delimiter(s.take(j as int), x) == Some(i),
    decreases MAX_HEADER_BYTES - x,
{
    let p = s.take(j as int);
    if x < MAX_HEADER_BYTES && x < s.len() && s[x as int] != DELIMITER {
        lemma_find_prefix(s, j, x + 1, i);
    }
    if x < j {
        assert(p[x as int] == s[x as int]);
    }
}

/// On a stream that starts with a whole frame, reading after any part of it
/// exactly the bytes that `bytes_wanted` asks for never goes past the end of
/// the frame, and asks for more until the whole frame is there.
pub proof fn lemma_wanted_within_frame(full: Seq<u8>, j: nat)
    requires
        frame_of(full) is Ok,
        j <= (frame_of(full)->Ok_0).2,
    ensures
        j + wanted_of(full.take(j as int)) <= (frame_of(full)->Ok_0).2,
        j < (frame_of(full)->Ok_0).2 ==> wanted_of(full.take(j as int)) >= 1,
{
    let k = (frame_of(full)->Ok_0).2;
    let s = full.take(j as int);
    let i = find_delimiter(full, 0)->0;
    lemma_find_prefix(full, j, 0, i);
    lemma_find_bound(full, 0);
    if j > i {
        assert(s.take(i as int) =~= full.take(i as int));
        let v = full.skip(i + 1 as int);
        let q = (j - i - 1) as nat;
        assert(s.skip(i + 1 as int) =~= v.take(q as int));
        lemma_varnum_prefix(v, q);
        let u = v.take(q as int);
        if q < (parse_varnum(v)->0).1 {
            assert forall|x: int| 0 <= x < u.len() implies u[x] >= 128 by {
                assert(u[x] == v[x]);
            }
            assert(varnum_unfinished(s.skip(i + 1 as int)));
        }
    }
}

} // verus!
