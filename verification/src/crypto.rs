//! The hashing and signature capabilities the validator consumes.
//!
//! Hashing is SHA-256; its 32-byte result is named `digest_of` and every
//! contract of the library speaks of that name. Signature verification is an
//! injected capability: the validator is generic over a [`SignatureVerifier`],
//! so the environment decides the signature scheme while the consensus rules
//! stay verified for every such scheme.

use vstd::prelude::*;
use sha2::Digest;
use crate::bytes::{bytes_eq, concat_bytes};

verus! {

/// The SHA-256 digest of a byte string; 32 bytes.
pub uninterp spec fn digest_of(b: Seq<u8>) -> Seq<u8>;

/// Relies on sha2's Sha256: the digest is 32 bytes and depends on the input
/// bytes alone.
#[verifier::external_body]
pub fn sha256_digest(b: &Vec<u8>) -> (r: Vec<u8>)
    ensures
        r@ == digest_of(b@),
        r@.len() == 32,
{
    sha2::Sha256::digest(b.as_slice()).to_vec()
}

/// The proof-of-work gate: the first `difficulty` bytes of the header's
/// digest are zero.
pub open spec fn spec_difficulty_ok(header: Seq<u8>, difficulty: nat) -> bool {
    forall|i: int| 0 <= i < difficulty ==> digest_of(header)[i] == 0u8
}

/// Whether `header` satisfies the difficulty predicate.
pub fn check_difficulty(header: &Vec<u8>, difficulty: usize) -> (r: bool)
    requires
        difficulty <= 32,
    ensures
        r == spec_difficulty_ok(header@, difficulty as nat),
{
    let d = sha256_digest(header);
    let mut i: usize = 0;
    while i < difficulty
        invariant
            i <= difficulty <= 32,
            d@ == digest_of(header@),
            d@.len() == 32,
            forall|j: int| 0 <= j < i ==> digest_of(header@)[j] == 0u8,
        decreases difficulty - i,
    {
        if d[i] != 0 {
            return false;
        }
        i += 1;
    }
    true
}

/// The signature-verification capability consumed by the transaction
/// validator. An implementation fixes what it means for `signature` to be
/// valid for `message` under the owner key `owner`, both as a predicate for
/// contracts and as the executable check that decides it.
pub trait SignatureVerifier: Sized {
    /// Whether `signature` is valid for `message` under `owner`.
    spec fn sig_ok(&self, owner: Seq<u8>, signature: Seq<u8>, message: Seq<u8>) -> bool;

    /// Decides `sig_ok` on concrete bytes.
    fn verify_signature(&self, owner: &Vec<u8>, signature: &Vec<u8>, message: &Vec<u8>) -> (r:
        bool)
        ensures
            r == self.sig_ok(owner@, signature@, message@),
    ;
}

/// A keyed-digest scheme: a signature is valid when it equals the digest of
/// the owner key followed by the message.
pub struct DigestSignatures {}

impl SignatureVerifier for DigestSignatures {
    open spec fn sig_ok(&self, owner: Seq<u8>, signature: Seq<u8>, message: Seq<u8>) -> bool {
        signature == digest_of(owner + message)
    }

    fn verify_signature(&self, owner: &Vec<u8>, signature: &Vec<u8>, message: &Vec<u8>) -> (r:
        bool) {
        let joined = concat_bytes(owner, message);
        let expected = sha256_digest(&joined);
        bytes_eq(signature, &expected)
    }
}

} // verus!
