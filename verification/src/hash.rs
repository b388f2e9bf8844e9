use vstd::prelude::*;

verus! {

/// The fixed-size content digest this crate commits to: an opaque
/// 32-byte value produced by the content-hash function.
#[derive(Clone, PartialEq, Eq)]
pub struct CryptoHash {
    pub bytes: Vec<u8>,
}

impl View for CryptoHash {
    type V = Seq<u8>;

    open spec fn view(&self) -> Seq<u8> {
        self.bytes@
    }
}

/// A digest is well formed when it has exactly 32 bytes.
pub open spec fn hash_wf(h: Seq<u8>) -> bool {
    h.len() == 32
}

/// The content-hash function, named but deliberately left uninterpreted:
/// the digest of a byte string depends on those bytes alone.
pub uninterp spec fn digest_of(bytes: Seq<u8>) -> Seq<u8>;

/// Relies on sha2's SHA-256 one-shot digest: the result is a pure
/// function of the input bytes and is always 32 bytes long.
#[verifier::external_body]
fn sha256_of(bytes: &Vec<u8>) -> (r: Vec<u8>)
    ensures
        r@ == digest_of(bytes@),
        r@.len() == 32,
{
    let d = <sha2::Sha256 as sha2::Digest>::digest(bytes.as_slice());
    d.to_vec()
}

/// The content hash of a canonical encoding.
pub fn content_hash(bytes: &Vec<u8>) -> (r: CryptoHash)
    ensures
        r@ == digest_of(bytes@),
        hash_wf(r@),
{
    CryptoHash { bytes: sha256_of(bytes) }
}

impl CryptoHash {
    /// Wraps an existing 32-byte digest.
    pub fn new(bytes: Vec<u8>) -> (r: CryptoHash)
        requires
            hash_wf(bytes@),
        ensures
            r@ == bytes@,
    {
        CryptoHash { bytes }
    }

    pub fn as_bytes(&self) -> (r: &Vec<u8>)
        ensures
            r@ == self@,
    {
        &self.bytes
    }
}

} // verus!
