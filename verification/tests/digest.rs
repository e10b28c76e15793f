use azalea::digest::{hex_digest, hex_digest_bytes, server_hash};
use sha1::Digest;

fn sha1_of(data: &[u8]) -> Vec<u8> {
    sha1::Sha1::digest(data).to_vec()
}

#[test]
fn hex_digest_of_known_names() {
    assert_eq!(hex_digest(&sha1_of(b"Notch")), "4ed1f46bbe04bc756bcb17c0c7ce3e4632f06a48");
    assert_eq!(hex_digest(&sha1_of(b"jeb_")), "-7c9d5b0044c130109a5d7b5fb5c317c02b4e28c1");
    assert_eq!(hex_digest(&sha1_of(b"simon")), "88e16a1019277b15d58faf0541e11910eb756f6");
}

#[test]
fn hex_digest_of_small_numbers() {
    assert_eq!(hex_digest(&[]), "0");
    assert_eq!(hex_digest(&[0, 0, 0]), "0");
    assert_eq!(hex_digest(&[0, 0, 0x0f]), "f");
    assert_eq!(hex_digest(&[0, 0x10, 0x00]), "1000");
    assert_eq!(hex_digest(&[0x7f, 0xff]), "7fff");
    assert_eq!(hex_digest(&[0x80, 0x00]), "-8000");
    assert_eq!(hex_digest(&[0xff, 0xff]), "-1");
    assert_eq!(hex_digest(&[0xff, 0x00]), "-100");
    assert_eq!(hex_digest(&[0xfe, 0xdc, 0xba]), "-12346");
    assert_eq!(hex_digest_bytes(&[0xff]), b"-1".to_vec());
}

#[test]
fn server_hash_is_the_digest_of_id_secret_and_key() {
    let secret = [1u8, 2, 3, 4, 5, 6, 7, 8, 9, 10, 11, 12, 13, 14, 15, 16];
    let public_key = [0x30u8, 0x81, 0x9f, 0x30, 0x0d];
    let mut input = Vec::new();
    input.extend_from_slice(b"serverid");
    input.extend_from_slice(&secret);
    input.extend_from_slice(&public_key);
    assert_eq!(server_hash("serverid", &secret, &public_key), hex_digest(&sha1_of(&input)));
    assert_eq!(server_hash("Notch", &[], &[]), "4ed1f46bbe04bc756bcb17c0c7ce3e4632f06a48");
    assert_eq!(server_hash("", b"je", b"b_"), "-7c9d5b0044c130109a5d7b5fb5c317c02b4e28c1");
}
