use vstd::prelude::*;

verus! {

/// A value that can report its own digest.
pub trait Hashable {
    fn hash(&self) -> Vec<u8>;
}

/// A pluggable one-way function from byte sequences to digests.
///
/// The whole library is generic over this trait: it assumes only that
/// equal inputs give equal digests (`spec_hash` is a function) and that
/// digests can be concatenated to form new input.
pub trait Hasher {
    /// The mathematical digest function that `hash` computes.
    spec fn spec_hash(data: Seq<u8>) -> Seq<u8>;

    fn hash(data: &[u8]) -> (r: Vec<u8>)
        ensures
            r@ == Self::spec_hash(data@),
    ;
}

/// The SHA-256 digest of a byte sequence, as computed by the `sha2` crate.
pub uninterp spec fn sha256_of(data: Seq<u8>) -> Seq<u8>;

/// Relies on `sha2::Sha256::digest` (through the `sha2::Digest` trait):
/// the digest is a pure function of the input bytes alone.
#[verifier::external_body]
fn sha256_digest(data: &[u8]) -> (r: Vec<u8>)
    ensures
        r@ == sha256_of(data@),
{
    <sha2::Sha256 as sha2::Digest>::digest(data).to_vec()
}

/// The SHA-256 hash function, usable wherever a `Hasher` is expected.
pub struct Sha256;

impl Hasher for Sha256 {
    open spec fn spec_hash(data: Seq<u8>) -> Seq<u8> {
        sha256_of(data)
    }

    fn hash(data: &[u8]) -> (r: Vec<u8>) {
        sha256_digest(data)
    }
}

} // verus!
