use compress_framing::{
    decode_payload, parse_frame, read_varnum, unpack, write_varnum, Compression,
    CompressionResult, FrameError, RawBytes,
};

fn encode(c: Compression, data: &[u8]) -> (Vec<u8>, CompressionResult) {
    let mut out = Vec::new();
    let res = c.compress(data, &mut out).expect("compression succeeds");
    (out, res)
}

fn sample() -> Vec<u8> {
    let mut v = Vec::new();
    for i in 0..2000u32 {
        v.push((i % 7) as u8 + b'a');
        if i % 13 == 0 {
            v.push((i % 251) as u8);
        }
    }
    v
}

#[test]
fn hello_identity_frame() {
    let (out, res) = encode(Compression::Identity, b"hello");
    let mut expected = b"identity;".to_vec();
    expected.push(5);
    expected.extend_from_slice(b"hello");
    assert_eq!(out, expected);
    assert_eq!(res, CompressionResult { before: 5, after: 5 });
    let back = Compression::decompress(&out, &RawBytes).unwrap();
    assert_eq!(back, b"hello".to_vec());
}

#[test]
fn round_trip_every_algorithm() {
    let data = sample();
    for c in Compression::values() {
        let (out, res) = encode(c, &data);
        assert_eq!(res.before, data.len());
        let back = Compression::decompress(&out, &RawBytes).unwrap();
        assert_eq!(back, data, "{:?}", c);
    }
}

#[test]
fn round_trip_empty_input() {
    for c in Compression::values() {
        let (out, res) = encode(c, b"");
        assert_eq!(res.before, 0);
        assert_eq!(decode_payload(&out), Ok(Vec::new()), "{:?}", c);
    }
}

#[test]
fn round_trip_short_input() {
    for c in Compression::values() {
        let (out, _) = encode(c, b"abracadabra abracadabra");
        assert_eq!(decode_payload(&out), Ok(b"abracadabra abracadabra".to_vec()), "{:?}", c);
    }
}

#[test]
fn declared_length_matches_body() {
    let data = sample();
    for c in Compression::values() {
        let (mut out, res) = encode(c, &data);
        let frame_len = out.len();
        out.extend_from_slice(b"trailing bytes");
        let frame = parse_frame(&out).unwrap();
        assert_eq!(frame.compression, c);
        assert_eq!(frame.body.len(), res.after);
        assert_eq!(frame.consumed, frame_len);
        assert_eq!(&out[frame_len - res.after..frame_len], &frame.body[..]);
    }
}

#[test]
fn compressors_transform_the_input() {
    let data = sample();
    let (gz, gz_res) = encode(Compression::Gzip, &data);
    let gz_frame = parse_frame(&gz).unwrap();
    assert_eq!(&gz_frame.body[..2], &[0x1f, 0x8b]);
    assert!(gz_res.after < data.len());
    let (zl, zl_res) = encode(Compression::Deflate, &data);
    let zl_frame = parse_frame(&zl).unwrap();
    assert_eq!(zl_frame.body[0], 0x78);
    assert!(zl_res.after < data.len());
    for c in [Compression::Brotli, Compression::Lzw] {
        let (out, res) = encode(c, &data);
        let frame = parse_frame(&out).unwrap();
        assert_ne!(frame.body, data);
        assert!(res.after < data.len(), "{:?}", c);
    }
}

#[test]
fn tokens_are_exact() {
    assert_eq!(Compression::Identity.token(), b"identity".to_vec());
    assert_eq!(Compression::Gzip.token(), b"gzip".to_vec());
    assert_eq!(Compression::Deflate.token(), b"deflate".to_vec());
    assert_eq!(Compression::Brotli.token(), b"br".to_vec());
    assert_eq!(Compression::Lzw.token(), b"compress".to_vec());
    assert_eq!(Compression::from_token(b"br"), Some(Compression::Brotli));
    assert_eq!(Compression::from_token(b"compress"), Some(Compression::Lzw));
    assert_eq!(Compression::from_token(b"Gzip"), None);
    assert_eq!(Compression::from_token(b"gzi"), None);
    assert_eq!(Compression::from_token(b" gzip"), None);
    assert_eq!(Compression::from_token(b""), None);
}

#[test]
fn values_lists_each_algorithm() {
    assert_eq!(
        Compression::values(),
        vec![
            Compression::Identity,
            Compression::Gzip,
            Compression::Deflate,
            Compression::Brotli,
            Compression::Lzw
        ]
    );
}

#[test]
fn unknown_token_is_invalid_header() {
    for header in [&b"zip;"[..], b"Identity;", b"gz;", b"identity ;", b";", b"brotli;"] {
        let mut input = header.to_vec();
        input.extend_from_slice(&[1, 0]);
        assert_eq!(decode_payload(&input), Err(FrameError::InvalidHeader));
    }
}

#[test]
fn long_header_is_invalid() {
    let mut input = vec![b'a'; 40];
    input.push(b';');
    assert_eq!(parse_frame(&input).unwrap_err(), FrameError::InvalidHeader);
    let mut input = vec![b'x'; 31];
    input.push(b';');
    input.push(0);
    assert_eq!(parse_frame(&input).unwrap_err(), FrameError::InvalidHeader);
}

#[test]
fn missing_delimiter_is_invalid_header() {
    assert_eq!(parse_frame(b"identity").unwrap_err(), FrameError::InvalidHeader);
    assert_eq!(parse_frame(b"").unwrap_err(), FrameError::InvalidHeader);
}

#[test]
fn truncated_body_fails() {
    let mut input = b"identity;".to_vec();
    input.push(10);
    input.extend_from_slice(b"abc");
    assert_eq!(decode_payload(&input), Err(FrameError::TruncatedBody));
    let (out, _) = encode(Compression::Gzip, &sample());
    assert_eq!(decode_payload(&out[..out.len() - 1]), Err(FrameError::TruncatedBody));
}

#[test]
fn malformed_length_fails() {
    let mut input = b"gzip;".to_vec();
    input.push(0x80);
    assert_eq!(parse_frame(&input).unwrap_err(), FrameError::MalformedLength);
    let mut input = b"br;".to_vec();
    input.extend_from_slice(&[0x80, 0x80, 0x80, 0x80, 0x80, 0x01]);
    assert_eq!(parse_frame(&input).unwrap_err(), FrameError::MalformedLength);
}

#[test]
fn corrupt_body_fails_to_decompress() {
    for c in [Compression::Gzip, Compression::Deflate, Compression::Brotli] {
        let mut input = c.token();
        input.push(b';');
        input.push(4);
        input.extend_from_slice(&[0xde, 0xad, 0xbe, 0xef]);
        assert_eq!(decode_payload(&input), Err(FrameError::DecompressionFailure), "{:?}", c);
    }
    assert_eq!(unpack(Compression::Lzw, &[0xff, 0xff, 0xff]), Err(FrameError::DecompressionFailure));
}

#[test]
fn identity_unpack_is_pass_through() {
    assert_eq!(unpack(Compression::Identity, b"\x00\x01\xff"), Ok(vec![0, 1, 255]));
}

#[test]
fn varnum_boundaries_round_trip() {
    let cases: [(u32, &[u8]); 6] = [
        (0, &[0x00]),
        (127, &[0x7f]),
        (128, &[0x80, 0x01]),
        (16383, &[0xff, 0x7f]),
        (16384, &[0x80, 0x80, 0x01]),
        (u32::MAX, &[0xff, 0xff, 0xff, 0xff, 0x0f]),
    ];
    for (n, bytes) in cases {
        let mut out = vec![0xaa];
        write_varnum(&mut out, n);
        assert_eq!(&out[1..], bytes);
        out.push(0x55);
        assert_eq!(read_varnum(&out, 1), Some((n, bytes.len())));
    }
}

#[test]
fn varnum_rejects_bad_input() {
    assert_eq!(read_varnum(&[], 0), None);
    assert_eq!(read_varnum(&[0x80, 0x80], 0), None);
    assert_eq!(read_varnum(&[0x80, 0x80, 0x80, 0x80, 0x80, 0x00], 0), None);
    assert_eq!(read_varnum(&[0xff, 0xff, 0xff, 0xff, 0x1f], 0), None);
    assert_eq!(read_varnum(&[0x85, 0x00], 0), Some((5, 2)));
}

fn pseudo_random(len: usize, alphabet: u32) -> Vec<u8> {
    let mut state: u32 = 12345;
    let mut v = Vec::with_capacity(len);
    for _ in 0..len {
        state = state.wrapping_mul(1103515245).wrapping_add(12345);
        v.push(((state >> 16) % alphabet) as u8);
    }
    v
}

#[test]
fn round_trip_large_inputs() {
    for data in [pseudo_random(300_000, 256), pseudo_random(300_000, 5)] {
        for c in Compression::values() {
            let (out, res) = encode(c, &data);
            let frame = parse_frame(&out).unwrap();
            assert_eq!(frame.consumed, out.len());
            assert_eq!(frame.body.len(), res.after);
            assert_eq!(decode_payload(&out), Ok(data.clone()), "{:?}", c);
        }
    }
}
