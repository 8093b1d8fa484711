//! Big-endian integers and byte copying, with their mathematical meaning.

use vstd::prelude::*;

verus! {

/// The two bytes of `v`, most significant first.
pub open spec fn be16(v: u16) -> Seq<u8> {
    seq![(v / 256) as u8, (v % 256) as u8]
}

/// The number that two big-endian bytes stand for.
pub open spec fn from_be16(b: Seq<u8>) -> u16
    recommends
        b.len() == 2,
{
    (b[0] as int * 256 + b[1] as int) as u16
}

/// The four bytes of `v`, most significant first.
pub open spec fn be32(v: u32) -> Seq<u8> {
    seq![
        (v / 0x100_0000) as u8,
        ((v / 0x1_0000) % 256) as u8,
        ((v / 0x100) % 256) as u8,
        (v % 256) as u8,
    ]
}

/// The number that four big-endian bytes stand for.
pub open spec fn from_be32(b: Seq<u8>) -> u32
    recommends
        b.len() == 4,
{
    (b[0] as int * 0x100_0000 + b[1] as int * 0x1_0000 + b[2] as int * 0x100 + b[3] as int) as u32
}

/// The eight bytes of `v`, most significant first.
pub open spec fn be64(v: u64) -> Seq<u8> {
    be32((v / 0x1_0000_0000) as u32) + be32((v % 0x1_0000_0000) as u32)
}

/// The number that eight big-endian bytes stand for.
pub open spec fn from_be64(b: Seq<u8>) -> u64
    recommends
        b.len() == 8,
{
    (from_be32(b.subrange(0, 4)) as int * 0x1_0000_0000 + from_be32(b.subrange(4, 8)) as int) as u64
}

/// Reading back what `be16` wrote gives the number again.
pub proof fn lemma_be16_roundtrip(v: u16)
    ensures
        be16(v).len() == 2,
        from_be16(be16(v)) == v,
{
}

/// Writing what `from_be16` read gives the bytes again.
pub proof fn lemma_be16_bytes(b: Seq<u8>)
    requires
        b.len() == 2,
    ensures
        be16(from_be16(b)) == b,
{
}

/// Reading back what `be32` wrote gives the number again.
pub proof fn lemma_be32_roundtrip(v: u32)
    ensures
        be32(v).len() == 4,
        from_be32(be32(v)) == v,
{
}

/// Writing what `from_be32` read gives the bytes again.
pub proof fn lemma_be32_bytes(b: Seq<u8>)
    requires
        b.len() == 4,
    ensures
        be32(from_be32(b)) == b,
{
    let b0 = b[0] as int;
    let b1 = b[1] as int;
    let b2 = b[2] as int;
    let b3 = b[3] as int;
    let x = b0 * 0x100_0000 + b1 * 0x1_0000 + b2 * 0x100 + b3;
    assert(x / 0x1_0000 == b0 * 0x100 + b1);
    assert(x / 0x100_0000 == b0);
}

/// Reading back what `be64` wrote gives the number again.
pub proof fn lemma_be64_roundtrip(v: u64)
    ensures
        be64(v).len() == 8,
        from_be64(be64(v)) == v,
{
    let hi = (v / 0x1_0000_0000) as u32;
    let lo = (v % 0x1_0000_0000) as u32;
    lemma_be32_roundtrip(hi);
    lemma_be32_roundtrip(lo);
    assert(be64(v).subrange(0, 4) =~= be32(hi));
}

/// Writing what `from_be64` read gives the bytes again.
pub proof fn lemma_be64_bytes(b: Seq<u8>)
    requires
        b.len() == 8,
    ensures
        be64(from_be64(b)) == b,
{
    let hi = from_be32(b.subrange(0, 4));
    lemma_be32_bytes(b.subrange(0, 4));
    lemma_be32_bytes(b.subrange(4, 8));
    let v = from_be64(b);
    assert((v / 0x1_0000_0000) as u32 == hi);
}

/// Appends the bytes of `src` to `dst`.
pub fn append(dst: &mut Vec<u8>, src: &[u8])
    ensures
        final(dst)@ == old(dst)@ + src@,
{
    let mut i: usize = 0;
    while i < src.len()
        invariant
            i <= src@.len(),
            dst@ == old(dst)@ + src@.subrange(0, i as int),
        decreases src@.len() - i,
    {
        dst.push(src[i]);
        i += 1;
        assert(dst@ =~= old(dst)@ + src@.subrange(0, i as int));
    }
}

/// A copy of the bytes of `src` from `start` up to `end`.
pub fn copy_range(src: &[u8], start: usize, end: usize) -> (out: Vec<u8>)
    requires
        start <= end <= src@.len(),
    ensures
        out@ == src@.subrange(start as int, end as int),
{
    let mut out: Vec<u8> = Vec::new();
    let mut i: usize = start;
    while i < end
        invariant
            start <= i <= end <= src@.len(),
            out@ == src@.subrange(start as int, i as int),
        decreases end - i,
    {
        out.push(src[i]);
        i += 1;
    }
    out
}

/// Appends the two big-endian bytes of `v`.
pub fn put_be16(dst: &mut Vec<u8>, v: u16)
    ensures
        final(dst)@ == old(dst)@ + be16(v),
{
    dst.push((v / 256) as u8);
    dst.push((v % 256) as u8);
    assert(dst@ =~= old(dst)@ + be16(v));
}

/// Appends the four big-endian bytes of `v`.
pub fn put_be32(dst: &mut Vec<u8>, v: u32)
    ensures
        final(dst)@ == old(dst)@ + be32(v),
{
    dst.push((v / 0x100_0000) as u8);
    dst.push(((v / 0x1_0000) % 256) as u8);
    dst.push(((v / 0x100) % 256) as u8);
    dst.push((v % 256) as u8);
}

/// Appends the eight big-endian bytes of `v`.
pub fn put_be64(dst: &mut Vec<u8>, v: u64)
    ensures
        final(dst)@ == old(dst)@ + be64(v),
{
    put_be32(dst, (v / 0x1_0000_0000) as u32);
    put_be32(dst, (v % 0x1_0000_0000) as u32);
}

/// The number in the two bytes of `src` at `at`.
pub fn get_be16(src: &[u8], at: usize) -> (v: u16)
    requires
        at + 2 <= src@.len(),
    ensures
        v == from_be16(src@.subrange(at as int, at + 2)),
{
    let v: u16 = (src[at] as u16) * 256 + (src[at + 1] as u16);
    v
}

/// The number in the four bytes of `src` at `at`.
pub fn get_be32(src: &[u8], at: usize) -> (v: u32)
    requires
        at + 4 <= src@.len(),
    ensures
        v == from_be32(src@.subrange(at as int, at + 4)),
{
    let v: u32 = (src[at] as u32) * 0x100_0000 + (src[at + 1] as u32) * 0x1_0000 + (src[at
        + 2] as u32) * 0x100 + (src[at + 3] as u32);
    v
}

/// The number in the eight bytes of `src` at `at`.
pub fn get_be64(src: &[u8], at: usize) -> (v: u64)
    requires
        at + 8 <= src@.len(),
        at + 8 <= usize::MAX,
    ensures
        v == from_be64(src@.subrange(at as int, at + 8)),
{
    let hi: u32 = get_be32(src, at);
    let lo: u32 = get_be32(src, at + 4);
    let v: u64 = (hi as u64) * 0x1_0000_0000 + (lo as u64);
    v
}

} // verus!
