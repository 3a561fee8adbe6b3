use flate2::write::GzEncoder;
use flate2::Compression;
use kv::{decode_frame, decode_header, encode_frame, header_of, KvError, COMPRESSION_LIMIT, LEN_LEN};
use std::io::Write;

fn is_compressed(data: &[u8]) -> bool {
    data[0] >> 7 == 1
}

fn body_of(n: usize) -> Vec<u8> {
    (0..n).map(|i| (i % 7) as u8).collect()
}

#[test]
fn small_body_frame_round_trip() {
    let body = b"hello data".to_vec();
    let frame = encode_frame(&body).unwrap();
    assert_eq!(is_compressed(&frame), false);
    assert_eq!(&frame[..4], &[0, 0, 0, 10]);
    assert_eq!(&frame[4..], &body[..]);
    let (decoded, used) = decode_frame(&frame).unwrap();
    assert_eq!(decoded, body);
    assert_eq!(used, frame.len());
}

#[test]
fn empty_body_frame_round_trip() {
    let frame = encode_frame(&Vec::new()).unwrap();
    assert_eq!(frame, vec![0, 0, 0, 0]);
    let (decoded, used) = decode_frame(&frame).unwrap();
    assert!(decoded.is_empty());
    assert_eq!(used, LEN_LEN);
}

#[test]
fn body_at_limit_is_not_compressed() {
    let body = body_of(COMPRESSION_LIMIT);
    let frame = encode_frame(&body).unwrap();
    assert_eq!(is_compressed(&frame), false);
    assert_eq!(frame.len(), COMPRESSION_LIMIT + LEN_LEN);
    assert_eq!(decode_frame(&frame).unwrap().0, body);
}

#[test]
fn body_over_limit_is_compressed() {
    let body = vec![0u8; COMPRESSION_LIMIT + 1];
    let frame = encode_frame(&body).unwrap();
    assert_eq!(is_compressed(&frame), true);
    // the payload is a gzip stream, not the body itself
    assert_eq!(&frame[4..6], &[0x1f, 0x8b]);
    assert!(frame.len() < body.len());
    let (len, compressed) = decode_header(header_of(&frame));
    assert!(compressed);
    assert_eq!(len as usize, frame.len() - LEN_LEN);
    let (decoded, used) = decode_frame(&frame).unwrap();
    assert_eq!(decoded, body);
    assert_eq!(used, frame.len());
}

#[test]
fn compressed_frame_from_outside_decodes() {
    let body = body_of(3000);
    let mut encoder = GzEncoder::new(Vec::new(), Compression::best());
    encoder.write_all(&body).unwrap();
    let payload = encoder.finish().unwrap();
    let header = (payload.len() as u32) | 0x8000_0000;
    let mut frame = header.to_be_bytes().to_vec();
    frame.extend_from_slice(&payload);
    let (decoded, used) = decode_frame(&frame).unwrap();
    assert_eq!(decoded, body);
    assert_eq!(used, frame.len());
}

#[test]
fn corrupt_compressed_frame_is_internal_error() {
    let mut frame = vec![0x80, 0, 0, 3];
    frame.extend_from_slice(&[1, 2, 3]);
    assert!(matches!(decode_frame(&frame), Err(KvError::Internal(_))));
}

#[test]
fn decode_stops_at_frame_end() {
    let first = encode_frame(&b"first".to_vec()).unwrap();
    let second = encode_frame(&body_of(2000)).unwrap();
    let mut stream = first.clone();
    stream.extend_from_slice(&second);
    let (a, used) = decode_frame(&stream).unwrap();
    assert_eq!(a, b"first".to_vec());
    assert_eq!(used, first.len());
    let (b, used2) = decode_frame(&stream[used..].to_vec()).unwrap();
    assert_eq!(b, body_of(2000));
    assert_eq!(used2, second.len());
}

#[test]
fn truncated_frame_is_rejected() {
    assert_eq!(decode_frame(&vec![0, 0]), Err(KvError::FrameTruncated));
    assert_eq!(decode_frame(&vec![0, 0, 0, 5, 1, 2]), Err(KvError::FrameTruncated));
}

#[test]
fn decode_header_splits_flag_and_length() {
    assert_eq!(decode_header(0x8000_0010), (16, true));
    assert_eq!(decode_header(0x0000_0010), (16, false));
    assert_eq!(decode_header(0xffff_ffff), (0x7fff_ffff, true));
    assert_eq!(header_of(&[0x12, 0x34, 0x56, 0x78]), 0x1234_5678);
}
