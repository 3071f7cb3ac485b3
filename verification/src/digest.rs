//! Hashes of byte strings.
use crate::hex::{encode, hex_text};
use crate::peer_id::BlobHash;
use vstd::prelude::*;

verus! {

/// The 32 bytes of `blake3::hash`.
pub uninterp spec fn blake3_digest(bytes: Seq<u8>) -> Seq<u8>;

/// The 32 bytes of `iroh_blobs::Hash::new`.
pub uninterp spec fn blob_digest(bytes: Seq<u8>) -> Seq<u8>;

/// Calls `blake3::hash`. Claims that the digest depends on the bytes alone.
#[verifier::external_body]
pub(crate) fn blake3_hash(bytes: &[u8]) -> (r: [u8; 32])
    ensures
        r@ == blake3_digest(bytes@),
{
    *blake3::hash(bytes).as_bytes()
}

/// Calls `iroh_blobs::Hash::new`. Claims that the hash depends on the bytes alone.
#[verifier::external_body]
fn blob_hash(bytes: &[u8]) -> (r: BlobHash)
    ensures
        r@ == blob_digest(bytes@),
{
    BlobHash { bytes: *iroh_blobs::Hash::new(bytes).as_bytes() }
}

/// The hash under which the contents of a file are known.
pub fn hash_contents(bytes: &[u8]) -> (r: BlobHash)
    ensures
        r@ == blob_digest(bytes@),
{
    blob_hash(bytes)
}

/// The first `n` bytes of a digest, in lower-case hexadecimal.
pub fn digest_prefix(digest: &[u8; 32], n: usize) -> (r: String)
    requires
        n <= 32,
    ensures
        r@ == hex_text(digest@.subrange(0, n as int)),
{
    let bytes: &[u8] = digest;
    encode(&bytes[0..n])
}

} // verus!
