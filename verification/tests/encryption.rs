use azalea::protocol::encryption::Cfb8;
use cfb8::cipher::{AsyncStreamCipher, KeyIvInit};

const KEY: [u8; 16] = [
    0x2b, 0x7e, 0x15, 0x16, 0x28, 0xae, 0xd2, 0xa6, 0xab, 0xf7, 0x15, 0x88, 0x09, 0xcf, 0x4f, 0x3c,
];

fn reference_encrypt(key: &[u8; 16], data: &[u8]) -> Vec<u8> {
    let mut buf = data.to_vec();
    cfb8::Encryptor::<aes::Aes128>::new(key.into(), key.into()).encrypt(&mut buf);
    buf
}

fn reference_decrypt(key: &[u8; 16], data: &[u8]) -> Vec<u8> {
    let mut buf = data.to_vec();
    cfb8::Decryptor::<aes::Aes128>::new(key.into(), key.into()).decrypt(&mut buf);
    buf
}

fn sample(len: usize) -> Vec<u8> {
    (0..len).map(|i| (i * 31 % 256) as u8).collect()
}

#[test]
fn cfb8_round_trip() {
    for len in [0usize, 1, 15, 16, 17, 100, 1000] {
        let plain = sample(len);
        let mut data = plain.clone();
        Cfb8::new(&KEY).encrypt(&mut data);
        assert_eq!(data.len(), len);
        if len >= 16 {
            assert_ne!(data, plain);
        }
        Cfb8::new(&KEY).decrypt(&mut data);
        assert_eq!(data, plain);
    }
}

#[test]
fn cfb8_agrees_with_the_block_mode_crate() {
    let plain = sample(300);
    let mut data = plain.clone();
    Cfb8::new(&KEY).encrypt(&mut data);
    assert_eq!(data, reference_encrypt(&KEY, &plain));
    let wire = reference_encrypt(&KEY, &plain);
    let mut back = wire.clone();
    Cfb8::new(&KEY).decrypt(&mut back);
    assert_eq!(back, reference_decrypt(&KEY, &wire));
    assert_eq!(back, plain);
}

#[test]
fn cfb8_first_byte_is_the_plain_byte_mixed_with_the_encrypted_key() {
    // the register starts out as the key: the first byte of the stream is
    // combined with the first byte of the key encrypted under itself
    let mut zero = vec![0u8];
    Cfb8::new(&KEY).encrypt(&mut zero);
    let mut one = vec![0xffu8];
    Cfb8::new(&KEY).encrypt(&mut one);
    assert_eq!(zero[0] ^ 0xff, one[0]);
}

#[test]
fn cfb8_stream_may_be_cut_anywhere() {
    let plain = sample(100);
    let mut whole = plain.clone();
    Cfb8::new(&KEY).encrypt(&mut whole);
    let mut cipher = Cfb8::new(&KEY);
    let mut first = plain[..37].to_vec();
    let mut second = plain[37..].to_vec();
    cipher.encrypt(&mut first);
    cipher.encrypt(&mut second);
    first.extend_from_slice(&second);
    assert_eq!(first, whole);

    let mut decipher = Cfb8::new(&KEY);
    let mut head = whole[..5].to_vec();
    let mut tail = whole[5..].to_vec();
    decipher.decrypt(&mut head);
    decipher.decrypt(&mut tail);
    head.extend_from_slice(&tail);
    assert_eq!(head, plain);
}

#[test]
fn cfb8_keys_differ() {
    let plain = sample(32);
    let mut a = plain.clone();
    Cfb8::new(&KEY).encrypt(&mut a);
    let mut b = plain.clone();
    Cfb8::new(&[0u8; 16]).encrypt(&mut b);
    assert_ne!(a, b);
}
