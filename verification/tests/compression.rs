use azalea::protocol::compression::{
    compress_body, decompress_body, is_compressed, read_data_length, seal_envelope,
    unseal_envelope,
};
use azalea::protocol::frame::{read_frame, write_frame};
use azalea::protocol::varint::ReadError;
use std::io::{Read, Write};

fn chat_payload(len: usize) -> Vec<u8> {
    (0..len).map(|i| b'a' + (i % 26) as u8).collect()
}

fn inflate(data: &[u8]) -> Vec<u8> {
    let mut out = Vec::new();
    flate2::read::ZlibDecoder::new(data).read_to_end(&mut out).unwrap();
    out
}

fn deflate(data: &[u8]) -> Vec<u8> {
    let mut encoder = flate2::write::ZlibEncoder::new(Vec::new(), flate2::Compression::default());
    encoder.write_all(data).unwrap();
    encoder.finish().unwrap()
}

#[test]
fn compression_boundary_below_threshold_travels_as_it_is() {
    let body = chat_payload(127);
    let inner = compress_body(&body, 128);
    assert_eq!(inner[0], 0x00);
    assert_eq!(&inner[1..], &body[..]);
    assert!(!is_compressed(&inner));
    let mut wire = Vec::new();
    write_frame(&inner, &mut wire).unwrap();
    // packet length 128 = 0x80 0x01, then data length 0, then the bytes
    assert_eq!(&wire[..3], &[0x80, 0x01, 0x00]);
    assert_eq!(&wire[3..], &body[..]);
    assert_eq!(decompress_body(&inner, 128), Ok(body));
}

#[test]
fn compression_boundary_at_threshold_travels_deflated() {
    let body = chat_payload(128);
    let inner = compress_body(&body, 128);
    // data length 128 = 0x80 0x01, then a zlib stream
    assert_eq!(&inner[..2], &[0x80, 0x01]);
    assert_eq!(inner[2], 0x78);
    assert_eq!(&inner[2..], &deflate(&body)[..]);
    assert_eq!(inflate(&inner[2..]), body);
    assert!(is_compressed(&inner));
    assert!(inner.len() < 2 + 128);
    let mut wire = Vec::new();
    write_frame(&inner, &mut wire).unwrap();
    assert_eq!(wire[0] as usize, inner.len());
    let (read_inner, consumed) = read_frame(&wire).unwrap().unwrap();
    assert_eq!(consumed, wire.len());
    assert_eq!(decompress_body(&read_inner, 128), Ok(body));
}

#[test]
fn compression_round_trip_for_several_thresholds() {
    for threshold in [0u32, 1, 64, 256, 1000] {
        for len in [1usize, 63, 64, 65, 255, 256, 257, 5000] {
            let body = chat_payload(len);
            let inner = compress_body(&body, threshold);
            assert_eq!(is_compressed(&inner), len as u32 >= threshold);
            assert_eq!(decompress_body(&inner, threshold), Ok(body));
        }
    }
}

#[test]
fn compression_changes_the_bytes() {
    let body = vec![7u8; 4000];
    let inner = compress_body(&body, 256);
    assert!(inner.len() < 100);
    assert_ne!(&inner[2..], &body[..]);
    assert_eq!(decompress_body(&inner, 256), Ok(body));
}

#[test]
fn envelope_with_a_length_below_the_threshold_is_refused() {
    let body = chat_payload(100);
    let inner = compress_body(&body, 50);
    assert!(is_compressed(&inner));
    assert_eq!(decompress_body(&inner, 200), Err(ReadError::DecompressError));
}

#[test]
fn envelope_with_a_wrong_length_is_refused() {
    let body = chat_payload(100);
    let mut inner = vec![101];
    inner.extend_from_slice(&deflate(&body));
    assert_eq!(decompress_body(&inner, 50), Err(ReadError::DecompressError));
    inner[0] = 100;
    assert_eq!(decompress_body(&inner, 50), Ok(body));
}

#[test]
fn envelope_with_no_zlib_stream_is_refused() {
    assert_eq!(decompress_body(&[5, 1, 2, 3, 4, 5], 0), Err(ReadError::DecompressError));
    assert_eq!(decompress_body(&[0xff, 0xff, 0xff, 0xff, 0x0f, 1], 0), Err(ReadError::DecompressError));
}

#[test]
fn envelope_without_a_length_is_refused() {
    assert_eq!(decompress_body(&[], 10), Err(ReadError::Eof));
    assert_eq!(decompress_body(&[0x80], 10), Err(ReadError::Eof));
    assert_eq!(
        decompress_body(&[0x80, 0x80, 0x80, 0x80, 0x80, 0x00], 10),
        Err(ReadError::BadVarInt)
    );
}

#[test]
fn envelope_sealed_by_hand() {
    let body = [1u8, 2, 3];
    assert_eq!(seal_envelope(&body, 10, None), vec![0, 1, 2, 3]);
    assert_eq!(seal_envelope(&body, 2, Some(vec![9, 9])), vec![3, 9, 9]);
    assert_eq!(unseal_envelope(&[0, 1, 2, 3], 10, None), Ok(vec![1, 2, 3]));
    assert_eq!(unseal_envelope(&[3, 9, 9], 2, Some(vec![1, 2, 3])), Ok(vec![1, 2, 3]));
    assert_eq!(unseal_envelope(&[3, 9, 9], 2, Some(vec![1, 2])), Err(ReadError::DecompressError));
    assert_eq!(unseal_envelope(&[3, 9, 9], 2, None), Err(ReadError::DecompressError));
    assert_eq!(unseal_envelope(&[3, 9, 9], 4, Some(vec![1, 2, 3])), Err(ReadError::DecompressError));
    assert_eq!(read_data_length(&[3, 9, 9]), Ok((3, 1)));
}
