use compress_framing::compress::bytes_wanted;
use compress_framing::{parse_frame, Compression};

/// Takes bytes off `stream` as `bytes_wanted` asks, and returns what was taken.
fn take_frame(stream: &[u8]) -> Vec<u8> {
    let mut buf = Vec::new();
    loop {
        let wanted = bytes_wanted(&buf) as usize;
        if wanted == 0 || buf.len() == stream.len() {
            return buf;
        }
        let end = std::cmp::min(buf.len() + wanted, stream.len());
        buf.extend_from_slice(&stream[buf.len()..end]);
    }
}

#[test]
fn stream_reading_stops_at_frame_end() {
    let data: Vec<u8> = (0..600u32).map(|i| (i % 17) as u8).collect();
    for c in Compression::values() {
        let mut stream = Vec::new();
        c.compress(&data, &mut stream).unwrap();
        let frame_len = stream.len();
        c.compress(b"next frame", &mut stream).unwrap();
        let taken = take_frame(&stream);
        assert_eq!(taken.len(), frame_len, "{:?}", c);
        assert_eq!(parse_frame(&taken).unwrap().consumed, frame_len);
    }
}

#[test]
fn wanted_counts_along_a_frame() {
    assert_eq!(bytes_wanted(b""), 1);
    assert_eq!(bytes_wanted(b"iden"), 1);
    assert_eq!(bytes_wanted(b"identity;"), 1);
    assert_eq!(bytes_wanted(b"identity;\x80"), 1);
    assert_eq!(bytes_wanted(b"identity;\x80\x01"), 128);
    assert_eq!(bytes_wanted(b"identity;\x05he"), 3);
    assert_eq!(bytes_wanted(b"identity;\x05hello"), 0);
    assert_eq!(bytes_wanted(b"identity;\x05hello, world"), 0);
}

#[test]
fn wanted_is_zero_once_failed() {
    assert_eq!(bytes_wanted(b"xyz;"), 0);
    assert_eq!(bytes_wanted(&[b'a'; 32]), 0);
    assert_eq!(bytes_wanted(&[b'a'; 31]), 1);
    assert_eq!(bytes_wanted(b"gzip;\x80\x80\x80\x80\x80"), 0);
    assert_eq!(bytes_wanted(b"gzip;\xff\xff\xff\xff\x1f"), 0);
}
