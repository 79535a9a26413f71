//! Big-endian integers on the wire.
use vstd::prelude::*;

verus! {

/// The 16-bit big-endian value stored at `b[i]`, `b[i + 1]`.
pub open spec fn be16(b: Seq<u8>, i: int) -> int {
    b[i] * 256 + b[i + 1]
}

/// The 32-bit big-endian value stored at `b[i]` .. `b[i + 3]`.
pub open spec fn be32(b: Seq<u8>, i: int) -> int {
    be16(b, i) * 65536 + be16(b, i + 2)
}

/// The two big-endian bytes of `v`.
pub open spec fn u16_bytes(v: u16) -> Seq<u8> {
    seq![(v / 256) as u8, (v % 256) as u8]
}

/// The four big-endian bytes of `v`.
pub open spec fn u32_bytes(v: u32) -> Seq<u8> {
    u16_bytes((v / 65536) as u16) + u16_bytes((v % 65536) as u16)
}

pub fn read_u16(buf: &[u8], i: usize) -> (r: u16)
    requires
        i + 1 < buf@.len(),
    ensures
        r == be16(buf@, i as int),
{
    (buf[i] as u16) * 256 + (buf[i + 1] as u16)
}

pub fn read_u32(buf: &[u8], i: usize) -> (r: u32)
    requires
        i + 3 < buf.len(),
    ensures
        r == be32(buf@, i as int),
{
    let hi = read_u16(buf, i);
    let lo = read_u16(buf, i + 2);
    (hi as u32) * 65536 + (lo as u32)
}

pub fn push_u16(out: &mut Vec<u8>, v: u16)
    ensures
        final(out)@ == old(out)@ + u16_bytes(v),
{
    out.push((v / 256) as u8);
    out.push((v % 256) as u8);
    assert(final(out)@ =~= old(out)@ + u16_bytes(v));
}

pub fn push_u32(out: &mut Vec<u8>, v: u32)
    ensures
        final(out)@ == old(out)@ + u32_bytes(v),
{
    push_u16(out, (v / 65536) as u16);
    push_u16(out, (v % 65536) as u16);
    assert(final(out)@ =~= old(out)@ + u32_bytes(v));
}

/// Appends the bytes of `src` to `out`.
pub fn push_bytes(out: &mut Vec<u8>, src: &[u8])
    ensures
        final(out)@ == old(out)@ + src@,
{
    let ghost start = out@;
    let mut i: usize = 0;
    while i < src.len()
        invariant
            i <= src@.len(),
            out@ == start + src@.subrange(0, i as int),
        decreases src@.len() - i,
    {
        out.push(src[i]);
        i = i + 1;
        assert(out@ =~= start + src@.subrange(0, i as int));
    }
    assert(src@.subrange(0, i as int) =~= src@);
}

/// Reading back the two bytes of `v` gives `v`.
pub proof fn lemma_be16_of_bytes(b: Seq<u8>, i: int, v: u16)
    requires
        0 <= i,
        i + 2 <= b.len(),
        b.subrange(i, i + 2) == u16_bytes(v),
    ensures
        be16(b, i) == v,
{
    assert(b[i] == b.subrange(i, i + 2)[0]);
    assert(b[i + 1] == b.subrange(i, i + 2)[1]);
}

/// Reading back the four bytes of `v` gives `v`.
pub proof fn lemma_be32_of_bytes(b: Seq<u8>, i: int, v: u32)
    requires
        0 <= i,
        i + 4 <= b.len(),
        b.subrange(i, i + 4) == u32_bytes(v),
    ensures
        be32(b, i) == v,
{
    let hi = u16_bytes((v / 65536) as u16);
    let lo = u16_bytes((v % 65536) as u16);
    assert(b.subrange(i, i + 2) =~= b.subrange(i, i + 4).subrange(0, 2));
    assert(b.subrange(i + 2, i + 4) =~= b.subrange(i, i + 4).subrange(2, 4));
    assert((hi + lo).subrange(0, 2) =~= hi);
    assert((hi + lo).subrange(2, 4) =~= lo);
    lemma_be16_of_bytes(b, i, (v / 65536) as u16);
    lemma_be16_of_bytes(b, i + 2, (v % 65536) as u16);
}

} // verus!
