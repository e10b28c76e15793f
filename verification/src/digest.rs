//! The hash that names a login to the session server: a SHA-1 digest read
//! as a signed number and written in hexadecimal.

use crate::protocol::buffer::{be_value, lemma_be_value_bound, pow256};
use crate::protocol::frame::append_bytes;
use crate::protocol::text::{ascii_text, string_from_ascii};
use vstd::prelude::*;
use vstd::string::StringSliceAdditionalSpecFns;

verus! {

/// The SHA-1 digest of `data`.
pub uninterp spec fn sha1_digest(data: Seq<u8>) -> Seq<u8>;

/// Hashes `data` with `sha1::Sha1`. Trusted: the result is a function of
/// `data`, and it has 20 bytes.
#[verifier::external_body]
fn sha1(data: &[u8]) -> (out: Vec<u8>)
    ensures
        out@ == sha1_digest(data@),
        out@.len() == 20,
{
    <sha1::Sha1 as sha1::Digest>::digest(data).to_vec()
}

/// The number that `bytes` spell in two's complement, highest byte first.
pub open spec fn signed_be_value(bytes: Seq<u8>) -> int {
    if bytes.len() > 0 && bytes[0] >= 128 {
        be_value(bytes) - pow256(bytes.len())
    } else {
        be_value(bytes) as int
    }
}

/// The ASCII code of the hexadecimal digit for `d`, in lower case.
pub open spec fn hex_digit(d: nat) -> u8 {
    if d < 10 {
        (48 + d) as u8
    } else {
        (87 + d) as u8
    }
}

/// `n` in hexadecimal, without leading zeros.
pub open spec fn hex_digits(n: nat) -> Seq<u8>
    decreases n,
{
    if n < 16 {
        seq![hex_digit(n)]
    } else {
        hex_digits(n / 16).push(hex_digit(n % 16))
    }
}

/// `v` in hexadecimal, with a minus sign in front where it is negative.
pub open spec fn signed_hex(v: int) -> Seq<u8> {
    if v < 0 {
        seq![45u8] + hex_digits((-v) as nat)
    } else {
        hex_digits(v as nat)
    }
}

/// The digits of `n`, or nothing for zero: what has been written when the
/// leading zeros were skipped.
spec fn digits_so_far(n: nat) -> Seq<u8> {
    if n == 0 {
        Seq::empty()
    } else {
        hex_digits(n)
    }
}

fn digit_code(d: u8) -> (code: u8)
    requires
        d < 16,
    ensures
        code == hex_digit(d as nat),
        code < 128,
{
    if d < 10 {
        48 + d
    } else {
        87 + d
    }
}

/// Appends the digit `d` unless it would be a leading zero.
fn push_digit(out: &mut Vec<u8>, d: u8, Ghost(n): Ghost<nat>)
    requires
        d < 16,
        old(out)@ == digits_so_far(n),
        forall|i: int| 0 <= i < old(out)@.len() ==> old(out)@[i] < 128,
    ensures
        final(out)@ == digits_so_far(n * 16 + d as nat),
        forall|i: int| 0 <= i < final(out)@.len() ==> final(out)@[i] < 128,
{
    if out.len() > 0 || d > 0 {
        out.push(digit_code(d));
    }
    proof {
        let m = n * 16 + d as nat;
        if n > 0 {
            assert(m >= 16 && m / 16 == n && m % 16 == d);
        } else {
            assert(m == d);
        }
        assert(hex_digits(n).len() > 0);
    }
}

/// An integer written in hexadecimal must have a digit.
proof fn lemma_hex_digits_nonempty(n: nat)
    ensures
        hex_digits(n).len() > 0,
{
}

/// The magnitude of the negative number that `hash` spells in two's
/// complement: every byte before the last byte that is not zero is
/// inverted, and that byte is taken from 256.
fn negate(hash: &[u8]) -> (magnitude: Vec<u8>)
    requires
        hash@.len() > 0,
        hash@[0] >= 128,
    ensures
        magnitude@.len() == hash@.len(),
        be_value(magnitude@) == pow256(hash@.len()) - be_value(hash@),
{
    let mut last: usize = hash.len() - 1;
    while hash[last] == 0
        invariant
            last < hash@.len(),
            hash@[0] >= 128,
            forall|i: int| last < i < hash@.len() ==> hash@[i] == 0,
        decreases last,
    {
        last -= 1;
    }
    let mut magnitude: Vec<u8> = Vec::new();
    let mut i: usize = 0;
    while i < hash.len()
        invariant
            i <= hash@.len(),
            last < hash@.len(),
            hash@[last as int] != 0,
            forall|k: int| last < k < hash@.len() ==> hash@[k] == 0,
            magnitude@.len() == i,
            i <= last ==> be_value(magnitude@) == pow256(i as nat) - 1 - be_value(
                hash@.take(i as int),
            ),
            i > last ==> be_value(magnitude@) == pow256(i as nat) - be_value(hash@.take(i as int)),
        decreases hash@.len() - i,
    {
        let byte: u8 = hash[i];
        let ghost before = magnitude@;
        if i < last {
            magnitude.push(255 - byte);
        } else if i == last {
            magnitude.push((256 - byte as u16) as u8);
        } else {
            magnitude.push(0);
        }
        proof {
            assert(magnitude@.drop_last() == before);
            assert(hash@.take(i + 1).drop_last() == hash@.take(i as int));
            assert(hash@.take(i + 1).last() == byte);
            assert(pow256((i + 1) as nat) == 256 * pow256(i as nat));
        }
        i += 1;
    }
    assert(hash@.take(i as int) == hash@);
    magnitude
}

/// Writes the number that `bytes` spell in hexadecimal.
fn write_hex(bytes: &[u8], out: &mut Vec<u8>)
    requires
        old(out)@.len() == 0 || old(out)@ == seq![45u8],
    ensures
        final(out)@ == old(out)@ + hex_digits(be_value(bytes@)),
        forall|i: int| 0 <= i < final(out)@.len() ==> final(out)@[i] < 128,
{
    let mut digits: Vec<u8> = Vec::new();
    let mut i: usize = 0;
    while i < bytes.len()
        invariant
            i <= bytes@.len(),
            digits@ == digits_so_far(be_value(bytes@.take(i as int))),
            forall|k: int| 0 <= k < digits@.len() ==> digits@[k] < 128,
        decreases bytes@.len() - i,
    {
        let byte: u8 = bytes[i];
        let ghost n = be_value(bytes@.take(i as int));
        push_digit(&mut digits, byte / 16, Ghost(n));
        push_digit(&mut digits, byte % 16, Ghost(n * 16 + (byte / 16) as nat));
        proof {
            assert(bytes@.take(i + 1).drop_last() == bytes@.take(i as int));
            assert(bytes@.take(i + 1).last() == byte);
            assert((n * 16 + (byte / 16) as nat) * 16 + (byte % 16) as nat == n * 256 + byte);
        }
        i += 1;
    }
    assert(bytes@.take(i as int) == bytes@);
    if digits.len() == 0 {
        digits.push(digit_code(0));
        proof {
            lemma_hex_digits_nonempty(be_value(bytes@));
        }
    }
    append_bytes(out, digits.as_slice());
}

/// The ASCII codes of [`hex_digest`].
pub fn hex_digest_bytes(hash: &[u8]) -> (text: Vec<u8>)
    ensures
        text@ == signed_hex(signed_be_value(hash@)),
        forall|i: int| 0 <= i < text@.len() ==> text@[i] < 128,
{
    let mut text: Vec<u8> = Vec::new();
    if hash.len() > 0 && hash[0] >= 128 {
        let magnitude = negate(hash);
        text.push(45);
        write_hex(magnitude.as_slice(), &mut text);
        proof {
            lemma_be_value_bound(hash@);
        }
    } else {
        write_hex(hash, &mut text);
    }
    text
}

/// A digest as the session server wants it: read as a signed number,
/// highest byte first, and written in hexadecimal without leading zeros,
/// with a minus sign where the highest bit is set.
pub fn hex_digest(hash: &[u8]) -> (text: String)
    ensures
        text@ == ascii_text(signed_hex(signed_be_value(hash@))),
{
    string_from_ascii(hex_digest_bytes(hash))
}

/// What is hashed to name a login: the server's id, the shared secret and
/// the server's public key, one after the other.
pub open spec fn server_hash_input(
    server_id: Seq<u8>,
    shared_secret: Seq<u8>,
    public_key: Seq<u8>,
) -> Seq<u8> {
    server_id + shared_secret + public_key
}

/// The hash that names a login to the session server.
pub fn server_hash(server_id: &str, shared_secret: &[u8], public_key: &[u8]) -> (text: String)
    ensures
        text@ == ascii_text(
            signed_hex(
                signed_be_value(
                    sha1_digest(
                        server_hash_input(server_id.spec_bytes(), shared_secret@, public_key@),
                    ),
                ),
            ),
        ),
{
    let mut input: Vec<u8> = Vec::new();
    append_bytes(&mut input, server_id.as_bytes());
    append_bytes(&mut input, shared_secret);
    append_bytes(&mut input, public_key);
    let hash = sha1(input.as_slice());
    hex_digest(hash.as_slice())
}

} // verus!
