//! The fingerprint of a certificate (RFC 8122, section 5): its SHA-256 digest.

use sha2::{Digest, Sha256};

use vstd::prelude::*;

verus! {

/// The SHA-256 digest of some bytes.
pub uninterp spec fn sha256(data: Seq<u8>) -> Seq<u8>;

/// `Sha256::digest` of the `sha2` crate: the digest of the bytes. That it depends on
/// the bytes alone is claimed; which it is, is not.
#[verifier::external_body]
fn sha256_digest(data: &[u8]) -> (digest: [u8; 32])
    ensures
        digest@ == sha256(data@),
{
    Sha256::digest(data).into()
}

/// The fingerprint of a certificate in DER.
pub fn fingerprint(certificate: &[u8]) -> (digest: Vec<u8>)
    ensures
        digest@ == sha256(certificate@),
{
    let bytes: [u8; 32] = sha256_digest(certificate);
    let mut digest: Vec<u8> = Vec::new();
    digest.extend_from_slice(bytes.as_slice());
    assert(digest@ =~= bytes@);
    digest
}

} // verus!
