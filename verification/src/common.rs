//! Fixed-layout records as bytes, and big-endian numbers.

use vstd::arithmetic::div_mod::lemma_fundamental_div_mod_converse;
use vstd::prelude::*;

verus! {

/// The four bytes of `x`, most significant first.
pub open spec fn be32(x: u32) -> Seq<u8> {
    seq![
        (x / 0x100_0000) as u8,
        ((x / 0x1_0000) % 0x100) as u8,
        ((x / 0x100) % 0x100) as u8,
        (x % 0x100) as u8,
    ]
}

/// The number whose four bytes, most significant first, `b` starts with.
pub open spec fn be32_value(b: Seq<u8>) -> nat
    recommends
        b.len() >= 4,
{
    (b[0] * 0x100_0000 + b[1] * 0x1_0000 + b[2] * 0x100 + b[3]) as nat
}

/// The two bytes of `x`, most significant first.
pub open spec fn be16(x: u16) -> Seq<u8> {
    seq![(x / 0x100) as u8, (x % 0x100) as u8]
}

/// The number whose two bytes, most significant first, `b` starts with.
pub open spec fn be16_value(b: Seq<u8>) -> nat
    recommends
        b.len() >= 2,
{
    (b[0] * 0x100 + b[1]) as nat
}

/// Reading the four bytes of a number gives the number back.
pub proof fn lemma_be32_value_of_be32(x: u32)
    ensures
        be32(x).len() == 4,
        be32_value(be32(x)) == x,
{
}

/// Writing the number that four bytes denote gives the four bytes back.
pub proof fn lemma_be32_of_be32_value(b: Seq<u8>)
    requires
        b.len() == 4,
    ensures
        be32_value(b) <= u32::MAX,
        be32(be32_value(b) as u32) == b,
{
    let b0 = b[0] as int;
    let b1 = b[1] as int;
    let b2 = b[2] as int;
    let b3 = b[3] as int;
    let x = b0 * 0x100_0000 + b1 * 0x1_0000 + b2 * 0x100 + b3;
    lemma_fundamental_div_mod_converse(x, 0x100_0000, b0, b1 * 0x1_0000 + b2 * 0x100 + b3);
    lemma_fundamental_div_mod_converse(x, 0x1_0000, b0 * 0x100 + b1, b2 * 0x100 + b3);
    lemma_fundamental_div_mod_converse(b0 * 0x100 + b1, 0x100, b0, b1);
    lemma_fundamental_div_mod_converse(x, 0x100, b0 * 0x1_0000 + b1 * 0x100 + b2, b3);
    lemma_fundamental_div_mod_converse(b0 * 0x1_0000 + b1 * 0x100 + b2, 0x100, b0 * 0x100 + b1, b2);
}

/// Reading the two bytes of a number gives the number back.
pub proof fn lemma_be16_value_of_be16(x: u16)
    ensures
        be16(x).len() == 2,
        be16_value(be16(x)) == x,
{
}

/// Writing the number that two bytes denote gives the two bytes back.
pub proof fn lemma_be16_of_be16_value(b: Seq<u8>)
    requires
        b.len() == 2,
    ensures
        be16_value(b) <= u16::MAX,
        be16(be16_value(b) as u16) == b,
{
}

/// Appends the four bytes of `x`, most significant first, to `out`.
pub fn put_be32(x: u32, out: &mut Vec<u8>)
    ensures
        final(out)@ == old(out)@ + be32(x),
{
    out.push((x / 0x100_0000) as u8);
    out.push(((x / 0x1_0000) % 0x100) as u8);
    out.push(((x / 0x100) % 0x100) as u8);
    out.push((x % 0x100) as u8);
}

/// The number whose four bytes, most significant first, stand at `at`.
pub fn get_be32(bytes: &[u8], at: usize) -> (x: u32)
    requires
        at + 4 <= bytes.len(),
    ensures
        x == be32_value(bytes@.skip(at as int)),
        be32(x) == bytes@.subrange(at as int, at + 4),
{
    let b0: u32 = bytes[at] as u32;
    let b1: u32 = bytes[at + 1] as u32;
    let b2: u32 = bytes[at + 2] as u32;
    let b3: u32 = bytes[at + 3] as u32;
    let x: u32 = b0 * 0x100_0000 + b1 * 0x1_0000 + b2 * 0x100 + b3;
    proof {
        let four = bytes@.subrange(at as int, at + 4);
        assert(four[0] == bytes@[at as int] && four[1] == bytes@[at + 1] && four[2] == bytes@[at
            + 2] && four[3] == bytes@[at + 3]);
        lemma_be32_of_be32_value(four);
    }
    x
}

/// Appends the two bytes of `x`, most significant first, to `out`.
pub fn put_be16(x: u16, out: &mut Vec<u8>)
    ensures
        final(out)@ == old(out)@ + be16(x),
{
    out.push((x / 0x100) as u8);
    out.push((x % 0x100) as u8);
}

/// The number whose two bytes, most significant first, stand at `at`.
pub fn get_be16(bytes: &[u8], at: usize) -> (x: u16)
    requires
        at + 2 <= bytes.len(),
    ensures
        x == be16_value(bytes@.skip(at as int)),
        be16(x) == bytes@.subrange(at as int, at + 2),
{
    let b0: u16 = bytes[at] as u16;
    let b1: u16 = bytes[at + 1] as u16;
    let x: u16 = b0 * 0x100 + b1;
    proof {
        let two = bytes@.subrange(at as int, at + 2);
        lemma_be16_of_be16_value(two);
    }
    x
}

/// Whether two byte strings are the same.
pub fn bytes_equal(a: &[u8], b: &[u8]) -> (same: bool)
    ensures
        same == (a@ == b@),
{
    if a.len() != b.len() {
        return false;
    }
    let mut i: usize = 0;
    while i < a.len()
        invariant
            i <= a.len(),
            a.len() == b.len(),
            forall|j: int| 0 <= j < i ==> a@[j] == b@[j],
        decreases a.len() - i,
    {
        if a[i] != b[i] {
            return false;
        }
        i += 1;
    }
    assert(a@ =~= b@);
    true
}

/// The `N` bytes of `bytes` from `at` on, as an array.
pub fn array_at<const N: usize>(bytes: &[u8], at: usize) -> (a: [u8; N])
    requires
        at + N <= bytes.len(),
    ensures
        a@ == bytes@.subrange(at as int, at + N),
{
    let mut a: [u8; N] = [0u8; N];
    let mut i: usize = 0;
    while i < N
        invariant
            i <= N,
            at + N <= bytes.len(),
            forall|j: int| 0 <= j < i ==> a@[j] == bytes@[at + j],
        decreases N - i,
    {
        a[i] = bytes[at + i];
        i += 1;
    }
    a
}

/// Whether two arrays of bytes hold the same bytes.
pub fn arrays_equal<const N: usize>(a: &[u8; N], b: &[u8; N]) -> (same: bool)
    ensures
        same == (a@ == b@),
{
    let mut i: usize = 0;
    while i < N
        invariant
            i <= N,
            forall|j: int| 0 <= j < i ==> a@[j] == b@[j],
        decreases N - i,
    {
        if a[i] != b[i] {
            return false;
        }
        i += 1;
    }
    assert(a@ =~= b@);
    true
}

/// A record with a fixed layout on the wire.
pub trait AsBytes: Sized {
    /// The bytes of the record as they go over the wire.
    spec fn byte_image(&self) -> Seq<u8>;

    /// The number of bytes that every record of this type takes.
    spec fn mem_size() -> nat;

    /// The bytes of the record as they go over the wire.
    fn as_bytes(&self) -> (bytes: Vec<u8>)
        ensures
            bytes@ == self.byte_image(),
            bytes@.len() == Self::mem_size(),
    ;

    /// The record that `bytes` hold, where they are as many as a record
    /// takes, and nothing else.
    fn from_bytes(bytes: &[u8]) -> (record: Option<Self>)
        ensures
            bytes@.len() == Self::mem_size() ==> record is Some && record.unwrap().byte_image()
                == bytes@,
            bytes@.len() != Self::mem_size() ==> record is None,
    ;
}

} // verus!
