//! SHA-1, as the `sha1` crate computes it.

use sha1::{Digest, Sha1};
use vstd::prelude::*;

verus! {

/// The SHA-1 digest of `data`: twenty bytes.
pub uninterp spec fn sha1_digest(data: Seq<u8>) -> Seq<u8>;

/// `Sha1::digest`: the SHA-1 digest of `data`. Nothing is proved of it; the
/// contract gives the result its name.
#[verifier::external_body]
pub(crate) fn sha1_of(data: &[u8]) -> (digest: [u8; 20])
    ensures
        digest@ == sha1_digest(data@),
{
    Sha1::digest(data).into()
}

} // verus!
