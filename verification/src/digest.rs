use vstd::prelude::*;

verus! {

/// The SHA-256 digest of a byte string. The algorithm itself is not written
/// out here: every fact this crate knows about a digest flows through the
/// contract of [`sha256`] alone.
pub uninterp spec fn sha256_of(bytes: Seq<u8>) -> Seq<u8>;

/// Relies on sha2's `Sha256` hasher (through the `Digest` trait): the digest
/// is a function of the input bytes alone, and is always 32 bytes long.
#[verifier::external_body]
pub(crate) fn sha256(bytes: &[u8]) -> (r: Vec<u8>)
    ensures
        r@ == sha256_of(bytes@),
        r@.len() == 32,
{
    let digest = <sha2::Sha256 as sha2::Digest>::digest(bytes);
    digest.as_slice().to_vec()
}

} // verus!
