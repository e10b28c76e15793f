//! Who logs in: a name, and for an online account an identity and a token.

use crate::protocol::buffer::{be_value, lemma_be_value_bound, lemma_pow256_grows, pow256};
use crate::protocol::frame::append_bytes;
use vstd::prelude::*;
use vstd::string::StringSliceAdditionalSpecFns;

verus! {

/// The MD5 digest of `data`.
pub uninterp spec fn md5_digest(data: Seq<u8>) -> Seq<u8>;

/// Hashes `data` with `md5::Md5`. Trusted: the result is a function of
/// `data`, and it has 16 bytes.
#[verifier::external_body]
fn md5(data: &[u8]) -> (out: Vec<u8>)
    ensures
        out@ == md5_digest(data@),
        out@.len() == 16,
{
    <md5::Md5 as md5::Digest>::digest(data).to_vec()
}

/// The bytes of the name-based identity made of `digest`: the high four
/// bits of byte 6 say version three, the high two bits of byte 8 say the
/// standard variant, and every other bit is the digest's.
pub open spec fn name_based_uuid_bytes(digest: Seq<u8>) -> Seq<u8> {
    digest.update(6, (digest[6] % 16 + 0x30) as u8).update(8, (digest[8] % 64 + 0x80) as u8)
}

/// What is hashed for the identity of an offline player.
pub open spec fn offline_uuid_input(username: Seq<u8>) -> Seq<u8> {
    "OfflinePlayer:".spec_bytes() + username
}

/// The identity of the offline player `username`, as a number of 128 bits.
pub open spec fn offline_uuid_of(username: Seq<u8>) -> nat {
    be_value(name_based_uuid_bytes(md5_digest(offline_uuid_input(username))))
}

/// The identity that a digest of 16 bytes gives.
pub fn uuid_from_md5(digest: &[u8]) -> (uuid: u128)
    requires
        digest@.len() == 16,
    ensures
        uuid == be_value(name_based_uuid_bytes(digest@)),
{
    let ghost bytes = name_based_uuid_bytes(digest@);
    let mut uuid: u128 = 0;
    let mut i: usize = 0;
    while i < 16
        invariant
            i <= 16,
            digest@.len() == 16,
            bytes == name_based_uuid_bytes(digest@),
            uuid == be_value(bytes.take(i as int)),
        decreases 16 - i,
    {
        let byte: u8 = if i == 6 {
            digest[i] % 16 + 0x30
        } else if i == 8 {
            digest[i] % 64 + 0x80
        } else {
            digest[i]
        };
        proof {
            assert(bytes.take(i + 1).drop_last() == bytes.take(i as int));
            assert(bytes.take(i + 1).last() == byte);
            lemma_be_value_bound(bytes.take(i as int));
            lemma_be_value_bound(bytes.take(i + 1));
            lemma_pow256_grows(i as nat, 15);
            lemma_pow256_grows((i + 1) as nat, 16);
            assert(pow256(15) == 0x1_00_0000_0000_0000_0000_0000_0000_0000) by {
                reveal_with_fuel(pow256, 16);
            }
            assert(pow256(16) == 0x1_0000_0000_0000_0000_0000_0000_0000_0000) by {
                reveal_with_fuel(pow256, 17);
            }
        }
        uuid = uuid * 256 + byte as u128;
        i += 1;
    }
    assert(bytes.take(16) == bytes);
    uuid
}

/// The identity of the offline player `username`: the digest of
/// `OfflinePlayer:` and the name, marked as a name-based identity.
pub fn offline_uuid(username: &str) -> (uuid: u128)
    ensures
        uuid == offline_uuid_of(username.spec_bytes()),
{
    let mut input: Vec<u8> = Vec::new();
    append_bytes(&mut input, "OfflinePlayer:".as_bytes());
    append_bytes(&mut input, username.as_bytes());
    let digest = md5(input.as_slice());
    uuid_from_md5(digest.as_slice())
}

/// An account: the name, the identity where it is known, and the token that
/// proves the identity to the session server.
#[derive(Clone, Debug, PartialEq, Eq)]
pub struct Account {
    pub username: String,
    pub uuid: Option<u128>,
    pub access_token: Option<String>,
}

impl Account {
    /// An account with a token has an identity.
    pub open spec fn wf(self) -> bool {
        self.access_token.is_some() ==> self.uuid.is_some()
    }

    /// Decides [`Account::wf`].
    pub fn is_wf(&self) -> (sound: bool)
        ensures
            sound == self.wf(),
    {
        self.access_token.is_none() || self.uuid.is_some()
    }

    /// An account for a server that does not ask the session server. Its
    /// identity is derived from the name.
    pub fn offline(username: &str) -> (account: Account)
        ensures
            account.wf(),
            account.username@ == username@,
            account.uuid == Some(offline_uuid_of(username.spec_bytes()) as u128),
            account.access_token.is_none(),
    {
        Account {
            username: username.to_owned(),
            uuid: Some(offline_uuid(username)),
            access_token: None,
        }
    }

    /// An account whose identity the session server knows.
    pub fn with_access_token(username: &str, uuid: u128, access_token: String) -> (account:
        Account)
        ensures
            account.wf(),
            account.username@ == username@,
            account.uuid == Some(uuid),
            account.access_token == Some(access_token),
    {
        Account { username: username.to_owned(), uuid: Some(uuid), access_token: Some(access_token) }
    }

    /// The identity of the account: the one that it holds, or where it holds
    /// none the identity of the offline player of its name.
    pub open spec fn identity(self) -> u128 {
        match self.uuid {
            Some(uuid) => uuid,
            None => offline_uuid_of(vstd::utf8::encode_utf8(self.username@)) as u128,
        }
    }

    /// The identity sent with the first login packet: the account's, or
    /// where it has none the one derived from its name.
    pub fn profile_id(&self) -> (id: u128)
        ensures
            id == self.identity(),
    {
        match self.uuid {
            Some(uuid) => uuid,
            None => offline_uuid(self.username.as_str()),
        }
    }

    /// Puts a fresh token in the place of the old one.
    pub fn set_access_token(&mut self, access_token: String)
        requires
            old(self).wf(),
            old(self).uuid.is_some(),
        ensures
            final(self).wf(),
            final(self).username == old(self).username,
            final(self).uuid == old(self).uuid,
            final(self).access_token == Some(access_token),
    {
        self.access_token = Some(access_token);
    }
}

} // verus!
