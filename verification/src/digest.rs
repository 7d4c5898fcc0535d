//! The MD5 digest that identicons are usually drawn from.

use md5::{Digest, Md5};
use vstd::prelude::*;

verus! {

/// The MD5 digest of `data`.
pub uninterp spec fn md5_digest(data: Seq<u8>) -> Seq<u8>;

/// `<Md5 as Digest>::digest`: the 16-byte MD5 digest of `data`. The
/// contract only says that the digest is a function of `data` alone; the
/// MD5 algorithm itself is not described.
#[verifier::external_body]
fn md5_of(data: &[u8]) -> (digest: [u8; 16])
    ensures
        digest@ == md5_digest(data@),
{
    Md5::digest(data).into()
}

/// Hashes `data` with MD5. Equal inputs give equal hashes.
pub fn calculate_md5(data: &[u8]) -> (hash: [u8; 16])
    ensures
        hash@ == md5_digest(data@),
{
    md5_of(data)
}

} // verus!
