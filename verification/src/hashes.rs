//! The digests of the pieces of a torrent.

use crate::common::array_at;
use crate::error::Error;
use crate::ser::append_bytes;
use vstd::prelude::*;

verus! {

/// The number of bytes of a digest.
pub const SIZE: usize = 20;

/// The digests of the pieces, one for each piece, in the order of the pieces.
#[derive(Debug, Clone, PartialEq, Eq)]
pub struct Hashes(pub Vec<[u8; 20]>);

/// The digests `hashes`, one after the other, as one byte string.
pub open spec fn concat_hashes(hashes: Seq<[u8; 20]>) -> Seq<u8>
    decreases hashes.len(),
{
    if hashes.len() == 0 {
        Seq::empty()
    } else {
        concat_hashes(hashes.drop_last()) + hashes.last()@
    }
}

/// The byte string of `hashes` has twenty bytes for each digest, and holds
/// the digest of piece `i` from byte `20 * i` on.
pub proof fn lemma_concat_hashes(hashes: Seq<[u8; 20]>)
    ensures
        concat_hashes(hashes).len() == 20 * hashes.len(),
        forall|i: int|
            0 <= i < hashes.len() ==> concat_hashes(hashes).subrange(20 * i, 20 * i + 20)
                == (#[trigger] hashes[i])@,
    decreases hashes.len(),
{
    if hashes.len() > 0 {
        let init = hashes.drop_last();
        lemma_concat_hashes(init);
        let all = concat_hashes(hashes);
        assert forall|i: int| 0 <= i < hashes.len() implies all.subrange(20 * i, 20 * i + 20)
            == (#[trigger] hashes[i])@ by {
            if i < init.len() {
                assert(init[i] == hashes[i]);
                assert(all.subrange(20 * i, 20 * i + 20) =~= concat_hashes(init).subrange(
                    20 * i,
                    20 * i + 20,
                ));
            }
        }
    }
}

/// Reads the byte string that holds the digests of the pieces.
pub struct HashStrVisitor;

impl HashStrVisitor {
    /// The digests that the byte string `v` holds: one for each twenty bytes,
    /// in their order. A byte string whose length is no multiple of twenty is
    /// malformed.
    pub fn visit_bytes(&self, v: &[u8]) -> (r: Result<Hashes, Error>)
        ensures
            v@.len() % 20 != 0 ==> (r matches Err(e) && e == Error::MalformedBencode),
            v@.len() % 20 == 0 ==> (r matches Ok(hashes) && hashes.0@.len() * 20 == v@.len()
                && concat_hashes(hashes.0@) == v@ && forall|i: int|
                0 <= i < hashes.0@.len() ==> (#[trigger] hashes.0@[i])@ == v@.subrange(
                    20 * i,
                    20 * i + 20,
                )),
    {
        if v.len() % SIZE != 0 {
            return Err(Error::MalformedBencode);
        }
        let mut hashes: Vec<[u8; 20]> = Vec::new();
        let mut at: usize = 0;
        while at < v.len()
            invariant
                at <= v.len(),
                v@.len() % 20 == 0,
                at % 20 == 0,
                hashes@.len() * 20 == at,
                concat_hashes(hashes@) == v@.take(at as int),
                forall|i: int|
                    0 <= i < hashes@.len() ==> (#[trigger] hashes@[i])@ == v@.subrange(
                        20 * i,
                        20 * i + 20,
                    ),
            decreases v.len() - at,
        {
            let hash = array_at::<20>(v, at);
            proof {
                assert(hashes@.push(hash).drop_last() =~= hashes@);
            }
            hashes.push(hash);
            at += 20;
        }
        Ok(Hashes(hashes))
    }
}

impl Hashes {
    /// The digests as one byte string.
    pub fn to_bytes(&self) -> (out: Vec<u8>)
        ensures
            out@ == concat_hashes(self.0@),
    {
        let mut out: Vec<u8> = Vec::new();
        let mut i: usize = 0;
        while i < self.0.len()
            invariant
                i <= self.0.len(),
                out@ == concat_hashes(self.0@.take(i as int)),
            decreases self.0.len() - i,
        {
            proof {
                assert(self.0@.take(i + 1).drop_last() =~= self.0@.take(i as int));
            }
            append_bytes(&mut out, self.0[i].as_slice());
            i += 1;
        }
        assert(self.0@.take(i as int) =~= self.0@);
        out
    }
}

/// Digests with the same byte string are the same digests: reading the
/// byte string of digests gives the digests back.
pub proof fn lemma_concat_hashes_injective(a: Seq<[u8; 20]>, b: Seq<[u8; 20]>)
    requires
        concat_hashes(a) == concat_hashes(b),
    ensures
        a == b,
{
    lemma_concat_hashes(a);
    lemma_concat_hashes(b);
    assert forall|i: int| 0 <= i < a.len() implies a[i] == b[i] by {}
}

} // verus!
