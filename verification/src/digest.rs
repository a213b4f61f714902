//! SHA-256, through the `sha2` crate.

use vstd::prelude::*;

verus! {

/// What `sha2::Sha256::digest` gives for `data`.
pub uninterp spec fn sha256_of(data: Seq<u8>) -> Seq<u8>;

/// The SHA-256 digest of `data` (`sha2::Sha256::digest`).
///
/// Claims of the outside call: the bytes are the named digest of `data`, and
/// a SHA-256 digest is 32 bytes long.
#[verifier::external_body]
pub(crate) fn sha256(data: &[u8]) -> (r: Vec<u8>)
    ensures
        r@ == sha256_of(data@),
        r@.len() == 32,
{
    <sha2::Sha256 as sha2::Digest>::digest(data).to_vec()
}

/// Lower-case hex of the SHA-256 digest of `data`.
pub fn hex_sha256(data: &[u8]) -> (s: String)
    ensures
        s@ == crate::text::hex(sha256_of(data@)),
{
    let d = sha256(data);
    crate::text::hex_lower(d.as_slice())
}

} // verus!
