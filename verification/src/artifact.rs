//! Artifacts: a payload with a description and the secret that authenticates
//! messages about it with HMAC-SHA256.

use vstd::prelude::*;
use vstd::slice::slice_to_vec;
use crate::sized_objects::SizedObjectsBytes;

verus! {

/// Upper bound (exclusive) on the number of bytes that SHA-256 hashes: it counts
/// its input in bits with a `u64`. Secrets at or above it cannot be hashed into keys.
pub const HMAC_INPUT_LIMIT: u64 = 0x2000_0000_0000_0000u64;

/// Bytes of the key block that HMAC-SHA256 hashes in front of a message.
pub const HMAC_BLOCK_LEN: u64 = 64u64;

/// Bytes of an HMAC-SHA256 tag (the output length of SHA-256).
pub const HMAC_TAG_LEN: u64 = 32u64;

/// The HMAC-SHA256 tag of `msg` under the secret `key`.
pub uninterp spec fn hmac_sha256(key: Seq<u8>, msg: Seq<u8>) -> Seq<u8>;

/// `tag` authenticates `msg` under `key`: the message is short enough for
/// SHA-256 to hash behind the key block, and `tag` is its HMAC-SHA256 tag.
pub open spec fn hmac_accepts(key: Seq<u8>, msg: Seq<u8>, tag: Seq<u8>) -> bool {
    &&& msg.len() + HMAC_BLOCK_LEN < HMAC_INPUT_LIMIT
    &&& tag.len() == HMAC_TAG_LEN
    &&& tag == hmac_sha256(key, msg)
}

/// For every message short enough for SHA-256, whatever its length, the tag
/// that HMAC-SHA256 computes is accepted, and it is the only tag accepted.
pub proof fn lemma_genuine_tag_accepted(key: Seq<u8>, msg: Seq<u8>, tag: Seq<u8>)
    requires
        msg.len() + HMAC_BLOCK_LEN < HMAC_INPUT_LIMIT,
        hmac_sha256(key, msg).len() == HMAC_TAG_LEN,
    ensures
        hmac_accepts(key, msg, hmac_sha256(key, msg)),
        hmac_accepts(key, msg, tag) <==> tag == hmac_sha256(key, msg),
{
}

/// Calls `ring::hmac::verify` with the key that `ring::hmac::Key::new(HMAC_SHA256, key)`
/// builds. Trusted claim: the call succeeds exactly when `tag` equals the HMAC-SHA256
/// tag of `msg` under `key`, which is 32 bytes long (ring recomputes the tag and
/// compares it in constant time, lengths first), and fails when the key block and the message together are too
/// long for SHA-256 to hash. `Key::new` panics on keys too long to hash, hence the
/// `requires`.
#[verifier::external_body]
fn hmac_sha256_verify(key: &[u8], msg: &[u8], tag: &[u8]) -> (ok: bool)
    requires
        key@.len() < HMAC_INPUT_LIMIT,
    ensures
        ok == (msg@.len() + HMAC_BLOCK_LEN < HMAC_INPUT_LIMIT && tag@.len() == HMAC_TAG_LEN
            && tag@ == hmac_sha256(key@, msg@)),
{
    let key = ring::hmac::Key::new(ring::hmac::HMAC_SHA256, key);
    ring::hmac::verify(&key, msg, tag).is_ok()
}

/// A stored payload, its description, and the secret that authenticates requests on it.
pub struct Artifact<T> {
    pub data: T,
    pub description: String,
    pub secret: Vec<u8>,
}

impl<T> Artifact<T> {
    /// An artifact holding `data`, `description` and a copy of `secret`.
    pub fn new(data: T, description: String, secret: &[u8]) -> (a: Self)
        requires
            secret@.len() < HMAC_INPUT_LIMIT,
        ensures
            a.data == data,
            a.description@ == description@,
            a.secret@ == secret@,
    {
        Artifact { data, description, secret: slice_to_vec(secret) }
    }

    /// Whether `tag` is the HMAC-SHA256 tag of `msg` under the artifact's secret
    /// (never for messages too long for SHA-256 to hash).
    pub fn verify(&self, msg: &[u8], tag: &[u8]) -> (ok: bool)
        requires
            self.secret@.len() < HMAC_INPUT_LIMIT,
        ensures
            ok == hmac_accepts(self.secret@, msg@, tag@),
            tag@.len() != HMAC_TAG_LEN ==> !ok,
            msg@.len() + HMAC_BLOCK_LEN < HMAC_INPUT_LIMIT ==> (ok <==> (tag@.len() == HMAC_TAG_LEN
                && tag@ == hmac_sha256(self.secret@, msg@))),
            msg@.len() + HMAC_BLOCK_LEN >= HMAC_INPUT_LIMIT ==> !ok,
    {
        hmac_sha256_verify(self.secret.as_slice(), msg, tag)
    }

    /// The same artifact with its payload turned into bytes by `to_bytes`;
    /// the error of `to_bytes`, if it fails.
    pub fn serialize<E, F>(&self, to_bytes: F) -> (r: Result<Artifact<SizedObjectsBytes>, E>) where
        F: FnOnce(&T) -> Result<SizedObjectsBytes, E>,

        requires
            to_bytes.requires((&self.data,)),
        ensures
            match r {
                Ok(a) => {
                    &&& to_bytes.ensures((&self.data,), Ok::<SizedObjectsBytes, E>(a.data))
                    &&& a.description@ == self.description@
                    &&& a.secret@ == self.secret@
                },
                Err(e) => to_bytes.ensures((&self.data,), Err::<SizedObjectsBytes, E>(e)),
            },
    {
        match to_bytes(&self.data) {
            Ok(data) => {
                let description = self.description.clone();
                let secret = self.secret.clone();
                assert(secret@ =~= self.secret@);
                Ok(Artifact { data, description, secret })
            },
            Err(e) => Err(e),
        }
    }
}

impl Artifact<SizedObjectsBytes> {
    /// The same artifact with its payload rebuilt from bytes by `from_bytes`;
    /// the error of `from_bytes`, if it fails.
    pub fn deserialize<T, E, F>(self, from_bytes: F) -> (r: Result<Artifact<T>, E>) where
        F: FnOnce(SizedObjectsBytes) -> Result<T, E>,

        requires
            from_bytes.requires((self.data,)),
        ensures
            match r {
                Ok(a) => {
                    &&& from_bytes.ensures((self.data,), Ok::<T, E>(a.data))
                    &&& a.description@ == self.description@
                    &&& a.secret@ == self.secret@
                },
                Err(e) => from_bytes.ensures((self.data,), Err::<T, E>(e)),
            },
    {
        let Artifact { data, description, secret } = self;
        match from_bytes(data) {
            Ok(data) => Ok(Artifact { data, description, secret }),
            Err(e) => Err(e),
        }
    }
}

} // verus!
