//! The stream cipher: AES-128 in CFB8 mode. Each byte is combined with the
//! first byte of the encrypted register, and the byte that went over the
//! wire is then shifted into the register.

use vstd::prelude::*;

verus! {

/// The block that AES-128 makes of `block` under `key`.
pub uninterp spec fn aes128_encrypted_block(key: Seq<u8>, block: Seq<u8>) -> Seq<u8>;

/// Encrypts one block with `aes::Aes128`. Trusted: the result is a function
/// of key and block, and it is a block of 16 bytes.
#[verifier::external_body]
fn aes128_encrypt_block(key: &[u8], block: &[u8]) -> (out: Vec<u8>)
    requires
        key@.len() == 16,
        block@.len() == 16,
    ensures
        out@ == aes128_encrypted_block(key@, block@),
        out@.len() == 16,
{
    let cipher = <aes::Aes128 as aes::cipher::KeyInit>::new(
        aes::cipher::generic_array::GenericArray::from_slice(key),
    );
    let mut buf = aes::cipher::generic_array::GenericArray::clone_from_slice(block);
    aes::cipher::BlockEncrypt::encrypt_block(&cipher, &mut buf);
    buf.to_vec()
}

/// The byte that the next byte of the stream is combined with.
pub open spec fn keystream_byte(key: Seq<u8>, register: Seq<u8>) -> u8 {
    aes128_encrypted_block(key, register)[0]
}

/// The register after the bytes `wire` went over the wire, starting from
/// `iv`: the last 16 bytes of `iv` followed by `wire`.
pub open spec fn cfb8_register(iv: Seq<u8>, wire: Seq<u8>) -> Seq<u8> {
    (iv + wire).skip((iv + wire).len() - 16)
}

/// What `plain` is on the wire, under `key` and starting from the register
/// `iv`.
pub open spec fn cfb8_encrypted(key: Seq<u8>, iv: Seq<u8>, plain: Seq<u8>) -> Seq<u8>
    decreases plain.len(),
{
    if plain.len() == 0 {
        Seq::empty()
    } else {
        let before = cfb8_encrypted(key, iv, plain.drop_last());
        before.push(plain.last() ^ keystream_byte(key, cfb8_register(iv, before)))
    }
}

/// What the bytes `wire` stand for, under `key` and starting from the
/// register `iv`.
pub open spec fn cfb8_decrypted(key: Seq<u8>, iv: Seq<u8>, wire: Seq<u8>) -> Seq<u8>
    decreases wire.len(),
{
    if wire.len() == 0 {
        Seq::empty()
    } else {
        let before = wire.drop_last();
        cfb8_decrypted(key, iv, before).push(
            wire.last() ^ keystream_byte(key, cfb8_register(iv, before)),
        )
    }
}

/// One direction of an encrypted connection.
#[derive(Clone, Debug)]
pub struct Cfb8 {
    key: Vec<u8>,
    register: Vec<u8>,
}

impl Cfb8 {
    /// Key and register hold 16 bytes each.
    pub closed spec fn wf(self) -> bool {
        self.key@.len() == 16 && self.register@.len() == 16
    }

    pub closed spec fn key(self) -> Seq<u8> {
        self.key@
    }

    pub closed spec fn register(self) -> Seq<u8> {
        self.register@
    }

    /// Decides [`Cfb8::wf`].
    pub fn is_wf(&self) -> (sound: bool)
        ensures
            sound == self.wf(),
    {
        self.key.len() == 16 && self.register.len() == 16
    }

    /// A cipher at the start of a stream: the register starts out as the
    /// key.
    pub fn new(key: &[u8; 16]) -> (cipher: Cfb8)
        ensures
            cipher.wf(),
            cipher.key() == key@,
            cipher.register() == key@,
    {
        let mut k: Vec<u8> = Vec::new();
        let mut r: Vec<u8> = Vec::new();
        let mut i: usize = 0;
        while i < 16
            invariant
                i <= 16,
                k@ == key@.take(i as int),
                r@ == key@.take(i as int),
            decreases 16 - i,
        {
            k.push(key[i]);
            r.push(key[i]);
            i += 1;
            assert(key@.take(i as int) == key@.take(i - 1).push(key@[i - 1]));
        }
        assert(key@.take(16) == key@);
        Cfb8 { key: k, register: r }
    }

    /// Shifts the byte `sent` into the register.
    fn shift(&mut self, sent: u8, Ghost(iv): Ghost<Seq<u8>>, Ghost(wire): Ghost<Seq<u8>>)
        requires
            old(self).wf(),
            iv.len() == 16,
            old(self).register() == cfb8_register(iv, wire),
        ensures
            final(self).wf(),
            final(self).key() == old(self).key(),
            final(self).register() == cfb8_register(iv, wire.push(sent)),
    {
        self.register.remove(0);
        self.register.push(sent);
        assert(self.register@ == cfb8_register(iv, wire.push(sent)));
    }

    /// Encrypts `data` in place and moves the register on.
    pub fn encrypt(&mut self, data: &mut Vec<u8>)
        requires
            old(self).wf(),
        ensures
            final(self).wf(),
            final(self).key() == old(self).key(),
            final(data)@ == cfb8_encrypted(old(self).key(), old(self).register(), old(data)@),
            final(self).register() == cfb8_register(old(self).register(), final(data)@),
    {
        let ghost iv = self.register@;
        let ghost plain = data@;
        let mut i: usize = 0;
        assert(cfb8_register(iv, data@.take(0)) == iv);
        while i < data.len()
            invariant
                self.wf(),
                self.key() == old(self).key(),
                iv == old(self).register(),
                iv.len() == 16,
                plain == old(data)@,
                i <= data@.len(),
                data@.len() == plain.len(),
                data@.take(i as int) == cfb8_encrypted(self.key(), iv, plain.take(i as int)),
                data@.skip(i as int) == plain.skip(i as int),
                self.register() == cfb8_register(iv, data@.take(i as int)),
            decreases data@.len() - i,
        {
            let block = aes128_encrypt_block(self.key.as_slice(), self.register.as_slice());
            let ghost before = data@;
            let sent: u8 = data[i] ^ block[0];
            data[i] = sent;
            self.shift(sent, Ghost(iv), Ghost(before.take(i as int)));
            proof {
                assert(before[i as int] == plain[i as int]) by {
                    assert(before.skip(i as int)[0] == plain.skip(i as int)[0]);
                }
                assert(plain.take(i + 1).drop_last() == plain.take(i as int));
                assert(data@.take(i + 1) == before.take(i as int).push(sent));
                assert(data@.skip(i + 1) == plain.skip(i + 1)) by {
                    assert(data@.skip(i + 1) == before.skip(i as int).skip(1));
                    assert(plain.skip(i + 1) == plain.skip(i as int).skip(1));
                }
            }
            i += 1;
        }
        assert(data@.take(i as int) == data@);
        assert(plain.take(i as int) == plain);
    }

    /// Decrypts `data` in place and moves the register on.
    pub fn decrypt(&mut self, data: &mut Vec<u8>)
        requires
            old(self).wf(),
        ensures
            final(self).wf(),
            final(self).key() == old(self).key(),
            final(data)@ == cfb8_decrypted(old(self).key(), old(self).register(), old(data)@),
            final(self).register() == cfb8_register(old(self).register(), old(data)@),
    {
        let ghost iv = self.register@;
        let ghost wire = data@;
        let mut i: usize = 0;
        assert(cfb8_register(iv, wire.take(0)) == iv);
        while i < data.len()
            invariant
                self.wf(),
                self.key() == old(self).key(),
                iv == old(self).register(),
                iv.len() == 16,
                wire == old(data)@,
                i <= data@.len(),
                data@.len() == wire.len(),
                data@.take(i as int) == cfb8_decrypted(self.key(), iv, wire.take(i as int)),
                data@.skip(i as int) == wire.skip(i as int),
                self.register() == cfb8_register(iv, wire.take(i as int)),
            decreases data@.len() - i,
        {
            let block = aes128_encrypt_block(self.key.as_slice(), self.register.as_slice());
            let ghost before = data@;
            let received: u8 = data[i];
            data[i] = received ^ block[0];
            self.shift(received, Ghost(iv), Ghost(wire.take(i as int)));
            proof {
                assert(before[i as int] == wire[i as int]) by {
                    assert(before.skip(i as int)[0] == wire.skip(i as int)[0]);
                }
                assert(wire.take(i + 1).drop_last() == wire.take(i as int));
                assert(wire.take(i + 1) == wire.take(i as int).push(received));
                assert(data@.take(i + 1) == before.take(i as int).push(received ^ block[0]));
                assert(data@.skip(i + 1) == wire.skip(i + 1)) by {
                    assert(data@.skip(i + 1) == before.skip(i as int).skip(1));
                    assert(wire.skip(i + 1) == wire.skip(i as int).skip(1));
                }
            }
            i += 1;
        }
        assert(data@.take(i as int) == data@);
        assert(wire.take(i as int) == wire);
    }
}

/// Encrypting keeps the length.
pub proof fn lemma_cfb8_encrypted_len(key: Seq<u8>, iv: Seq<u8>, plain: Seq<u8>)
    ensures
        cfb8_encrypted(key, iv, plain).len() == plain.len(),
    decreases plain.len(),
{
    if plain.len() > 0 {
        lemma_cfb8_encrypted_len(key, iv, plain.drop_last());
    }
}

/// Decryption undoes encryption: for every key, every starting register and
/// every stream of bytes, what was encrypted decrypts to what it was.
pub proof fn lemma_cfb8_round_trip(key: Seq<u8>, iv: Seq<u8>, plain: Seq<u8>)
    ensures
        cfb8_decrypted(key, iv, cfb8_encrypted(key, iv, plain)) == plain,
    decreases plain.len(),
{
    if plain.len() > 0 {
        let before = cfb8_encrypted(key, iv, plain.drop_last());
        let mask = keystream_byte(key, cfb8_register(iv, before));
        let byte = plain.last();
        let wire = cfb8_encrypted(key, iv, plain);
        lemma_cfb8_round_trip(key, iv, plain.drop_last());
        assert(wire == before.push(byte ^ mask));
        assert(wire.drop_last() == before);
        assert((byte ^ mask) ^ mask == byte) by (bit_vector);
        assert(plain.drop_last().push(byte) == plain);
    }
}

/// The register after two runs of bytes is the register after the first run,
/// moved on by the second.
pub proof fn lemma_cfb8_register_moves_on(iv: Seq<u8>, first: Seq<u8>, second: Seq<u8>)
    requires
        iv.len() == 16,
    ensures
        cfb8_register(cfb8_register(iv, first), second) == cfb8_register(iv, first + second),
        cfb8_register(iv, first).len() == 16,
{
    assert(cfb8_register(cfb8_register(iv, first), second) =~= cfb8_register(iv, first + second));
}

/// A stream may be cut anywhere: encrypting two runs of bytes one after the
/// other, the second from the register that the first left, gives what
/// encrypting them in one go gives.
pub proof fn lemma_cfb8_encrypts_in_pieces(
    key: Seq<u8>,
    iv: Seq<u8>,
    first: Seq<u8>,
    second: Seq<u8>,
)
    requires
        iv.len() == 16,
    ensures
        cfb8_encrypted(key, iv, first + second) == cfb8_encrypted(key, iv, first) + cfb8_encrypted(
            key,
            cfb8_register(iv, cfb8_encrypted(key, iv, first)),
            second,
        ),
    decreases second.len(),
{
    let head = cfb8_encrypted(key, iv, first);
    let middle = cfb8_register(iv, head);
    if second.len() == 0 {
        assert(first + second == first);
        assert(head + Seq::<u8>::empty() == head);
    } else {
        let shorter = second.drop_last();
        lemma_cfb8_encrypts_in_pieces(key, iv, first, shorter);
        let tail = cfb8_encrypted(key, middle, shorter);
        assert((first + second).drop_last() == first + shorter);
        assert((first + second).last() == second.last());
        lemma_cfb8_register_moves_on(iv, head, tail);
        assert(cfb8_encrypted(key, iv, first + second) == (head + tail).push(
            second.last() ^ keystream_byte(key, cfb8_register(iv, head + tail)),
        ));
        assert((head + tail).push(
            second.last() ^ keystream_byte(key, cfb8_register(middle, tail)),
        ) == head + tail.push(second.last() ^ keystream_byte(key, cfb8_register(middle, tail))));
    }
}

/// Decrypting two runs of bytes one after the other, the second from the
/// register that the first left, gives what decrypting them in one go
/// gives.
pub proof fn lemma_cfb8_decrypts_in_pieces(
    key: Seq<u8>,
    iv: Seq<u8>,
    first: Seq<u8>,
    second: Seq<u8>,
)
    requires
        iv.len() == 16,
    ensures
        cfb8_decrypted(key, iv, first + second) == cfb8_decrypted(key, iv, first) + cfb8_decrypted(
            key,
            cfb8_register(iv, first),
            second,
        ),
    decreases second.len(),
{
    let middle = cfb8_register(iv, first);
    if second.len() == 0 {
        assert(first + second == first);
        assert(cfb8_decrypted(key, iv, first) + Seq::<u8>::empty() == cfb8_decrypted(
            key,
            iv,
            first,
        ));
    } else {
        let shorter = second.drop_last();
        lemma_cfb8_decrypts_in_pieces(key, iv, first, shorter);
        let head = cfb8_decrypted(key, iv, first);
        let tail = cfb8_decrypted(key, middle, shorter);
        assert((first + second).drop_last() == first + shorter);
        assert((first + second).last() == second.last());
        lemma_cfb8_register_moves_on(iv, first, shorter);
        let byte = second.last() ^ keystream_byte(key, cfb8_register(middle, shorter));
        assert((head + tail).push(byte) == head + tail.push(byte));
    }
}

} // verus!
