use azalea::protocol::frame::{
    append_bytes, join_packet, read_frame, read_last_frame, split_packet, write_frame, WriteError,
    MAX_FRAME_LEN,
};
use azalea::protocol::varint::ReadError;

#[test]
fn frame_is_length_then_body() {
    let mut out = Vec::new();
    assert_eq!(write_frame(&[1, 2, 3], &mut out), Ok(()));
    assert_eq!(out, vec![3, 1, 2, 3]);
    assert_eq!(write_frame(&[], &mut out), Ok(()));
    assert_eq!(out, vec![3, 1, 2, 3, 0]);
}

#[test]
fn frame_round_trip_with_more_behind_it() {
    let body: Vec<u8> = (0..300u32).map(|i| (i % 251) as u8).collect();
    let mut wire = Vec::new();
    assert_eq!(write_frame(&body, &mut wire), Ok(()));
    let frame_len = wire.len();
    assert_eq!(frame_len, 2 + 300);
    wire.extend_from_slice(&[7, 7, 7]);
    assert_eq!(read_frame(&wire), Ok(Some((body, frame_len))));
}

#[test]
fn frame_that_is_not_all_there_waits() {
    assert_eq!(read_frame(&[]), Ok(None));
    assert_eq!(read_frame(&[0x80]), Ok(None));
    assert_eq!(read_frame(&[3, 1, 2]), Ok(None));
    assert_eq!(read_frame(&[3, 1, 2, 3]), Ok(Some((vec![1, 2, 3], 4))));
}

#[test]
fn frame_cut_off_by_the_end_of_the_stream_is_eof() {
    assert_eq!(read_last_frame(&[3, 1, 2]), Err(ReadError::Eof));
    assert_eq!(read_last_frame(&[]), Err(ReadError::Eof));
    assert_eq!(read_last_frame(&[1, 9]), Ok((vec![9], 2)));
}

#[test]
fn frame_above_the_cap_is_too_large() {
    // 2097153 as a length
    assert_eq!(read_frame(&[0x81, 0x80, 0x80, 0x01]), Err(ReadError::FrameTooLarge));
    // a negative length
    assert_eq!(read_frame(&[0xff, 0xff, 0xff, 0xff, 0x0f]), Err(ReadError::FrameTooLarge));
    // exactly the cap is a frame that is not all there yet
    assert_eq!(read_frame(&[0x80, 0x80, 0x80, 0x01]), Ok(None));
}

#[test]
fn frame_with_a_bad_length_is_a_bad_varint() {
    assert_eq!(read_frame(&[0x80, 0x80, 0x80, 0x80, 0x80, 0x00]), Err(ReadError::BadVarInt));
}

#[test]
fn frame_writer_refuses_what_no_reader_takes() {
    let body = vec![0u8; MAX_FRAME_LEN + 1];
    let mut out = vec![1, 2];
    assert_eq!(write_frame(&body, &mut out), Err(WriteError::FrameTooLarge));
    assert_eq!(out, vec![1, 2]);
    let body = vec![0u8; MAX_FRAME_LEN];
    let mut out = Vec::new();
    assert_eq!(write_frame(&body, &mut out), Ok(()));
    assert_eq!(read_frame(&out), Ok(Some((body, MAX_FRAME_LEN + 4))));
}

#[test]
fn packet_is_number_then_payload() {
    assert_eq!(join_packet(0x03, &[0x80, 0x02]), vec![0x03, 0x80, 0x02]);
    assert_eq!(join_packet(300, &[]), vec![0xac, 0x02]);
    assert_eq!(split_packet(&[0x03, 0x80, 0x02]), Ok((3, vec![0x80, 0x02])));
    assert_eq!(split_packet(&[0xac, 0x02]), Ok((300, vec![])));
    assert_eq!(split_packet(&[]), Err(ReadError::Eof));
}

#[test]
fn packet_round_trip_through_a_frame() {
    let payload = vec![5u8, 4, 3, 2, 1];
    let body = join_packet(0x27, &payload);
    let mut wire = Vec::new();
    assert_eq!(write_frame(&body, &mut wire), Ok(()));
    let (read_body, consumed) = read_frame(&wire).unwrap().unwrap();
    assert_eq!(consumed, wire.len());
    assert_eq!(split_packet(&read_body), Ok((0x27, payload)));
}

#[test]
fn append_bytes_appends() {
    let mut out = vec![1];
    append_bytes(&mut out, &[2, 3]);
    append_bytes(&mut out, &[]);
    assert_eq!(out, vec![1, 2, 3]);
}
