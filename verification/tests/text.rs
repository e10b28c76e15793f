use azalea::protocol::frame::WriteError;
use azalea::protocol::text::{append_text, read_text, write_text, MAX_TEXT_LEN};
use azalea::protocol::varint::{read_varlong, write_varlong, ReadError};

#[test]
fn text_is_length_in_bytes_then_utf8() {
    let mut out = vec![1];
    append_text("hé", &mut out);
    assert_eq!(out, vec![1, 3, b'h', 0xc3, 0xa9]);
    let mut out = Vec::new();
    assert_eq!(write_text("", 16, &mut out), Ok(()));
    assert_eq!(out, vec![0]);
    assert_eq!(MAX_TEXT_LEN, 32767);
}

#[test]
fn text_round_trip() {
    for text in ["", "bot", "héllo wörld", "日本語のテキスト", "🦀🦀🦀", "a\u{0}b"] {
        let mut wire = vec![0xee];
        assert_eq!(write_text(text, 16, &mut wire), Ok(()));
        let len = wire.len() - 1;
        wire.extend_from_slice(&[1, 2, 3]);
        assert_eq!(read_text(&wire, 1, 16), Ok((text.to_string(), len)));
    }
}

#[test]
fn text_that_is_too_long_is_refused() {
    let mut out = vec![5];
    assert_eq!(write_text("seventeen letters", 16, &mut out), Err(WriteError::TextTooLong));
    assert_eq!(out, vec![5]);
    assert_eq!(write_text("sixteen letters!", 16, &mut out), Ok(()));
    // four crabs are four characters and sixteen bytes
    let mut out = Vec::new();
    assert_eq!(write_text("🦀🦀🦀🦀", 4, &mut out), Ok(()));
    assert_eq!(out.len(), 17);
    assert_eq!(write_text("🦀🦀🦀🦀", 3, &mut out), Err(WriteError::TextTooLong));
}

#[test]
fn text_reader_enforces_the_limit() {
    let mut wire = Vec::new();
    append_text("seventeen letters", &mut wire);
    assert_eq!(read_text(&wire, 0, 17), Ok(("seventeen letters".to_string(), 18)));
    assert_eq!(read_text(&wire, 0, 16), Err(ReadError::MalformedPacket));
    // more bytes than four for each character allowed
    let mut wire = Vec::new();
    append_text("🦀🦀🦀🦀!", &mut wire);
    assert_eq!(read_text(&wire, 0, 4), Err(ReadError::MalformedPacket));
    assert_eq!(read_text(&[0xff, 0xff, 0xff, 0xff, 0x0f], 0, 16), Err(ReadError::MalformedPacket));
}

#[test]
fn text_that_is_cut_off_or_no_utf8() {
    assert_eq!(read_text(&[3, b'a', b'b'], 0, 16), Err(ReadError::Eof));
    assert_eq!(read_text(&[], 0, 16), Err(ReadError::Eof));
    assert_eq!(read_text(&[0x80], 0, 16), Err(ReadError::Eof));
    assert_eq!(read_text(&[2, 0xc3, 0x28], 0, 16), Err(ReadError::MalformedPacket));
    assert_eq!(read_text(&[1, 0xff], 0, 16), Err(ReadError::MalformedPacket));
    assert_eq!(read_text(&[3, 0xed, 0xa0, 0x80], 0, 16), Err(ReadError::MalformedPacket));
    assert_eq!(
        read_text(&[0x80, 0x80, 0x80, 0x80, 0x80, 0x00], 0, 16),
        Err(ReadError::BadVarInt)
    );
}

fn long_encoded(value: i64) -> Vec<u8> {
    let mut out = Vec::new();
    write_varlong(value, &mut out);
    out
}

#[test]
fn varlong_known_encodings() {
    assert_eq!(long_encoded(0), vec![0x00]);
    assert_eq!(long_encoded(127), vec![0x7f]);
    assert_eq!(long_encoded(128), vec![0x80, 0x01]);
    assert_eq!(long_encoded(2147483647), vec![0xff, 0xff, 0xff, 0xff, 0x07]);
    assert_eq!(
        long_encoded(i64::MAX),
        vec![0xff, 0xff, 0xff, 0xff, 0xff, 0xff, 0xff, 0xff, 0x7f]
    );
    assert_eq!(
        long_encoded(-1),
        vec![0xff, 0xff, 0xff, 0xff, 0xff, 0xff, 0xff, 0xff, 0xff, 0x01]
    );
    assert_eq!(
        long_encoded(i64::MIN),
        vec![0x80, 0x80, 0x80, 0x80, 0x80, 0x80, 0x80, 0x80, 0x80, 0x01]
    );
}

#[test]
fn varlong_round_trip_and_errors() {
    for value in [0, 1, -1, 300, i64::MAX, i64::MIN, 1 << 35, -(1 << 40)] {
        let mut wire = long_encoded(value);
        let len = wire.len();
        wire.push(0x55);
        assert_eq!(read_varlong(&wire, 0), Ok((value, len)));
    }
    assert_eq!(read_varlong(&[0x80, 0x80], 0), Err(ReadError::Eof));
    assert_eq!(read_varlong(&[0xff; 10], 0), Err(ReadError::BadVarInt));
    assert_eq!(
        read_varlong(&[0xff, 0xff, 0xff, 0xff, 0xff, 0xff, 0xff, 0xff, 0xff, 0x02], 0),
        Err(ReadError::BadVarInt)
    );
}
