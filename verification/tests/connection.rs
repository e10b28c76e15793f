use azalea::protocol::connection::{phase_rank, Connection};
use azalea::protocol::frame::{WriteError, MAX_FRAME_LEN};
use azalea::protocol::varint::ReadError;
use azalea::session::Phase;

const KEY: [u8; 16] = [3, 1, 4, 1, 5, 9, 2, 6, 5, 3, 5, 8, 9, 7, 9, 3];

fn payload(len: usize) -> Vec<u8> {
    (0..len).map(|i| (i % 7) as u8 + b'a').collect()
}

fn pair(compression: Option<u32>, encrypted: bool) -> (Connection, Connection) {
    let mut client = Connection::new();
    let mut server = Connection::new();
    if let Some(threshold) = compression {
        assert!(client.set_compression(threshold));
        assert!(server.set_compression(threshold));
    }
    if encrypted {
        assert!(client.set_encryption(&KEY));
        assert!(server.set_encryption(&KEY));
    }
    (client, server)
}

#[test]
fn packets_cross_the_wire_in_every_setting() {
    for compression in [None, Some(0), Some(64), Some(256)] {
        for encrypted in [false, true] {
            let (mut client, mut server) = pair(compression, encrypted);
            let sent = [(0x00, payload(0)), (0x05, payload(63)), (0x7f, payload(64)), (300, payload(1000))];
            let mut wire = Vec::new();
            for (id, data) in sent.iter() {
                wire.extend_from_slice(&client.write_packet(*id, data).unwrap());
            }
            // the bytes arrive in pieces that know nothing of frames
            for piece in wire.chunks(17) {
                server.receive(piece.to_vec());
            }
            for (id, data) in sent.iter() {
                assert_eq!(server.read_packet(), Ok(Some((*id, data.clone()))));
            }
            assert_eq!(server.read_packet(), Ok(None));
            assert!(server.inbound.is_empty());
        }
    }
}

#[test]
fn plain_packet_on_the_wire() {
    let mut connection = Connection::new();
    assert_eq!(connection.write_packet(0x03, &[0x80, 0x02]), Ok(vec![3, 0x03, 0x80, 0x02]));
    assert_eq!(connection.phase, Phase::Handshake);
}

#[test]
fn compressed_connection_keeps_small_packets_as_they_are() {
    let (mut client, _) = pair(Some(128), false);
    let small = client.write_packet(0x05, &payload(126)).unwrap();
    assert_eq!(&small[..4], &[0x80, 0x01, 0x00, 0x05]);
    assert_eq!(&small[4..], &payload(126)[..]);
    let large = client.write_packet(0x05, &payload(127)).unwrap();
    assert_eq!(&large[1..3], &[0x80, 0x01]);
    assert_eq!(large[3], 0x78);
    assert!(large.len() < 128);
}

#[test]
fn encrypted_bytes_differ_from_plain_ones() {
    let (mut plain, _) = pair(None, false);
    let (mut secret, mut reader) = pair(None, true);
    let a = plain.write_packet(1, &payload(40)).unwrap();
    let b = secret.write_packet(1, &payload(40)).unwrap();
    assert_eq!(a.len(), b.len());
    assert_ne!(a, b);
    // the same packet again looks different: the stream moved on
    let c = secret.write_packet(1, &payload(40)).unwrap();
    assert_ne!(b, c);
    reader.receive(b);
    reader.receive(c);
    assert_eq!(reader.read_packet(), Ok(Some((1, payload(40)))));
    assert_eq!(reader.read_packet(), Ok(Some((1, payload(40)))));
}

#[test]
fn settings_are_made_once() {
    let mut connection = Connection::new();
    assert!(connection.set_compression(256));
    assert!(!connection.set_compression(64));
    assert_eq!(connection.compression, Some(256));
    assert!(connection.set_encryption(&KEY));
    assert!(!connection.set_encryption(&[0; 16]));
    let (mut other, _) = pair(Some(256), true);
    assert_eq!(connection.write_packet(9, &payload(5)), other.write_packet(9, &payload(5)));
}

#[test]
fn phases_go_one_way() {
    let mut connection = Connection::new();
    assert!(!connection.switch_phase(Phase::Handshake));
    assert!(connection.switch_phase(Phase::Login));
    assert!(connection.switch_phase(Phase::Configuration));
    assert!(!connection.switch_phase(Phase::Login));
    assert_eq!(connection.phase, Phase::Configuration);
    assert!(connection.switch_phase(Phase::Play));
    assert!(connection.switch_phase(Phase::Closed));
    assert!(!connection.switch_phase(Phase::Play));
    assert_eq!(connection.phase, Phase::Closed);
    assert_eq!(phase_rank(Phase::Handshake), 0);
    assert_eq!(phase_rank(Phase::Closed), 4);
}

#[test]
fn packet_that_is_too_large_is_refused() {
    let mut connection = Connection::new();
    assert_eq!(
        connection.write_packet(0, &vec![0u8; MAX_FRAME_LEN]),
        Err(WriteError::FrameTooLarge)
    );
    assert_eq!(connection.write_packet(0, &vec![0u8; MAX_FRAME_LEN - 1]).map(|w| w.len()), Ok(MAX_FRAME_LEN + 4));
    // deflated, the same packet fits
    let (mut compressed, mut reader) = pair(Some(256), false);
    let wire = compressed.write_packet(0, &vec![0u8; MAX_FRAME_LEN]).unwrap();
    assert!(wire.len() < 10_000);
    reader.receive(wire);
    assert_eq!(reader.read_packet(), Ok(Some((0, vec![0u8; MAX_FRAME_LEN]))));
}

#[test]
fn reader_reports_what_is_wrong() {
    let mut connection = Connection::new();
    connection.receive(vec![0x81, 0x80, 0x80, 0x01]);
    assert_eq!(connection.read_packet(), Err(ReadError::FrameTooLarge));
    assert_eq!(connection.inbound, vec![0x81, 0x80, 0x80, 0x01]);

    let mut connection = Connection::new();
    connection.receive(vec![0x80, 0x80, 0x80, 0x80, 0x80, 0x00]);
    assert_eq!(connection.read_packet(), Err(ReadError::BadVarInt));

    // a frame without a packet number uses its bytes up
    let mut connection = Connection::new();
    connection.receive(vec![0, 1, 9]);
    assert_eq!(connection.read_packet(), Err(ReadError::Eof));
    assert_eq!(connection.read_packet(), Ok(Some((9, vec![]))));
    assert_eq!(connection.read_packet(), Ok(None));

    // an envelope that holds no zlib stream
    let (_, mut reader) = pair(Some(1), false);
    reader.receive(vec![4, 3, 1, 2, 3, 2, 0, 8]);
    assert_eq!(reader.read_packet(), Err(ReadError::DecompressError));
    assert_eq!(reader.read_packet(), Ok(Some((8, vec![]))));
}

#[test]
fn connection_soundness_can_be_tested() {
    let mut connection = Connection::new();
    assert!(connection.is_wf());
    connection.set_encryption(&KEY);
    assert!(connection.is_wf());
    assert!(connection.encryptor.as_ref().unwrap().is_wf());
    connection.decryptor = None;
    assert!(!connection.is_wf());
}
