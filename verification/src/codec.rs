//! Fixed-width integer encodings used by the wire formats.

use vstd::prelude::*;

verus! {

/// Little-endian value of a 2-byte sequence.
pub open spec fn le16(b: Seq<u8>) -> int {
    b[0] + b[1] * 0x100
}

/// Little-endian value of a 4-byte sequence.
pub open spec fn le32(b: Seq<u8>) -> int {
    b[0] + b[1] * 0x100 + b[2] * 0x10000 + b[3] * 0x1000000
}

/// Little-endian value of an 8-byte sequence.
pub open spec fn le64(b: Seq<u8>) -> int {
    le32(b.subrange(0, 4)) + le32(b.subrange(4, 8)) * 0x1_0000_0000
}

/// Big-endian value of a 2-byte sequence.
pub open spec fn be16(b: Seq<u8>) -> int {
    b[0] * 0x100 + b[1]
}

/// Big-endian value of a 4-byte sequence.
pub open spec fn be32(b: Seq<u8>) -> int {
    b[0] * 0x1000000 + b[1] * 0x10000 + b[2] * 0x100 + b[3]
}

/// The 2 little-endian bytes of `x`.
pub open spec fn le16_bytes(x: u16) -> Seq<u8> {
    seq![(x % 0x100) as u8, (x / 0x100) as u8]
}

/// The 4 little-endian bytes of `x`.
pub open spec fn le32_bytes(x: u32) -> Seq<u8> {
    seq![
        (x % 0x100) as u8,
        ((x / 0x100) % 0x100) as u8,
        ((x / 0x10000) % 0x100) as u8,
        (x / 0x1000000) as u8,
    ]
}

/// The 8 little-endian bytes of `x`.
pub open spec fn le64_bytes(x: u64) -> Seq<u8> {
    le32_bytes((x % 0x1_0000_0000) as u32) + le32_bytes((x / 0x1_0000_0000) as u32)
}

/// The 2 big-endian bytes of `x`.
pub open spec fn be16_bytes(x: u16) -> Seq<u8> {
    seq![(x / 0x100) as u8, (x % 0x100) as u8]
}

/// The 4 big-endian bytes of `x`.
pub open spec fn be32_bytes(x: u32) -> Seq<u8> {
    seq![
        (x / 0x1000000) as u8,
        ((x / 0x10000) % 0x100) as u8,
        ((x / 0x100) % 0x100) as u8,
        (x % 0x100) as u8,
    ]
}

/// Decoding the encoding of a 16-bit value gives the value back.
pub proof fn lemma_roundtrip_16(x: u16)
    ensures
        le16(le16_bytes(x)) == x,
        be16(be16_bytes(x)) == x,
        le16_bytes(x).len() == 2,
        be16_bytes(x).len() == 2,
{
}

/// Decoding the encoding of a 32-bit value gives the value back.
pub proof fn lemma_roundtrip_32(x: u32)
    ensures
        le32(le32_bytes(x)) == x,
        be32(be32_bytes(x)) == x,
        le32_bytes(x).len() == 4,
        be32_bytes(x).len() == 4,
{
}

/// Decoding the encoding of a 64-bit value gives the value back.
pub proof fn lemma_roundtrip_64(x: u64)
    ensures
        le64(le64_bytes(x)) == x,
        le64_bytes(x).len() == 8,
{
    let lo = (x % 0x1_0000_0000) as u32;
    let hi = (x / 0x1_0000_0000) as u32;
    lemma_roundtrip_32(lo);
    lemma_roundtrip_32(hi);
    assert(le64_bytes(x).subrange(0, 4) =~= le32_bytes(lo));
    assert(le64_bytes(x).subrange(4, 8) =~= le32_bytes(hi));
}

/// Appends the little-endian bytes of `x`.
pub fn push_u16_le(out: &mut Vec<u8>, x: u16)
    ensures
        final(out)@ == old(out)@ + le16_bytes(x),
{
    let b0 = (x & 0xff) as u8;
    let b1 = (x >> 8) as u8;
    assert(b0 == (x % 0x100) as u8 && b1 == (x / 0x100) as u8) by (bit_vector)
        requires b0 == (x & 0xff) as u8, b1 == (x >> 8) as u8;
    out.push(b0);
    out.push(b1);
    assert(out@ =~= old(out)@ + le16_bytes(x));
}

/// Appends the big-endian bytes of `x`.
pub fn push_u16_be(out: &mut Vec<u8>, x: u16)
    ensures
        final(out)@ == old(out)@ + be16_bytes(x),
{
    let b0 = (x >> 8) as u8;
    let b1 = (x & 0xff) as u8;
    assert(b1 == (x % 0x100) as u8 && b0 == (x / 0x100) as u8) by (bit_vector)
        requires b1 == (x & 0xff) as u8, b0 == (x >> 8) as u8;
    out.push(b0);
    out.push(b1);
    assert(out@ =~= old(out)@ + be16_bytes(x));
}

/// Appends the little-endian bytes of `x`.
pub fn push_u32_le(out: &mut Vec<u8>, x: u32)
    ensures
        final(out)@ == old(out)@ + le32_bytes(x),
{
    let b0 = (x & 0xff) as u8;
    let b1 = ((x >> 8) & 0xff) as u8;
    let b2 = ((x >> 16) & 0xff) as u8;
    let b3 = (x >> 24) as u8;
    assert(b0 == (x % 0x100) as u8 && b1 == ((x / 0x100) % 0x100) as u8 && b2 == ((x / 0x10000)
        % 0x100) as u8 && b3 == (x / 0x1000000) as u8) by (bit_vector)
        requires
            b0 == (x & 0xff) as u8,
            b1 == ((x >> 8) & 0xff) as u8,
            b2 == ((x >> 16) & 0xff) as u8,
            b3 == (x >> 24) as u8,
    ;
    out.push(b0);
    out.push(b1);
    out.push(b2);
    out.push(b3);
    assert(out@ =~= old(out)@ + le32_bytes(x));
}

/// Appends the big-endian bytes of `x`.
pub fn push_u32_be(out: &mut Vec<u8>, x: u32)
    ensures
        final(out)@ == old(out)@ + be32_bytes(x),
{
    let b3 = (x & 0xff) as u8;
    let b2 = ((x >> 8) & 0xff) as u8;
    let b1 = ((x >> 16) & 0xff) as u8;
    let b0 = (x >> 24) as u8;
    assert(b3 == (x % 0x100) as u8 && b2 == ((x / 0x100) % 0x100) as u8 && b1 == ((x / 0x10000)
        % 0x100) as u8 && b0 == (x / 0x1000000) as u8) by (bit_vector)
        requires
            b3 == (x & 0xff) as u8,
            b2 == ((x >> 8) & 0xff) as u8,
            b1 == ((x >> 16) & 0xff) as u8,
            b0 == (x >> 24) as u8,
    ;
    out.push(b0);
    out.push(b1);
    out.push(b2);
    out.push(b3);
    assert(out@ =~= old(out)@ + be32_bytes(x));
}

/// Appends the little-endian bytes of `x`.
pub fn push_u64_le(out: &mut Vec<u8>, x: u64)
    ensures
        final(out)@ == old(out)@ + le64_bytes(x),
{
    let lo = (x & 0xffff_ffff) as u32;
    let hi = (x >> 32) as u32;
    assert(lo == (x % 0x1_0000_0000) as u32 && hi == (x / 0x1_0000_0000) as u32) by (bit_vector)
        requires lo == (x & 0xffff_ffff) as u32, hi == (x >> 32) as u32;
    push_u32_le(out, lo);
    push_u32_le(out, hi);
    assert(out@ =~= old(out)@ + le64_bytes(x));
}

/// Appends all of `src`.
pub fn push_all(out: &mut Vec<u8>, src: &[u8])
    ensures
        final(out)@ == old(out)@ + src@,
{
    let mut i: usize = 0;
    while i < src.len()
        invariant
            i <= src@.len(),
            out@ == old(out)@ + src@.take(i as int),
        decreases src.len() - i,
    {
        out.push(src[i]);
        i = i + 1;
        assert(out@ =~= old(out)@ + src@.take(i as int));
    }
    assert(src@.take(src@.len() as int) =~= src@);
}

/// The little-endian value of `b[at..at + 2]`.
pub fn read_u16_le(b: &[u8], at: usize) -> (r: u16)
    requires
        at + 2 <= b@.len(),
    ensures
        r == le16(b@.subrange(at as int, at + 2)),
{
    let b0 = b[at];
    let b1 = b[at + 1];
    let r = (b0 as u16) | ((b1 as u16) << 8);
    assert(r == b0 + b1 * 0x100) by (bit_vector)
        requires r == (b0 as u16) | ((b1 as u16) << 8);
    r
}

/// The big-endian value of `b[at..at + 2]`.
pub fn read_u16_be(b: &[u8], at: usize) -> (r: u16)
    requires
        at + 2 <= b@.len(),
    ensures
        r == be16(b@.subrange(at as int, at + 2)),
{
    let b0 = b[at];
    let b1 = b[at + 1];
    let r = ((b0 as u16) << 8) | (b1 as u16);
    assert(r == b0 * 0x100 + b1) by (bit_vector)
        requires r == ((b0 as u16) << 8) | (b1 as u16);
    r
}

/// The little-endian value of `b[at..at + 4]`.
pub fn read_u32_le(b: &[u8], at: usize) -> (r: u32)
    requires
        at + 4 <= b@.len(),
    ensures
        r == le32(b@.subrange(at as int, at + 4)),
{
    let b0 = b[at];
    let b1 = b[at + 1];
    let b2 = b[at + 2];
    let b3 = b[at + 3];
    let r = (b0 as u32) | ((b1 as u32) << 8) | ((b2 as u32) << 16) | ((b3 as u32) << 24);
    assert(r == b0 + b1 * 0x100 + b2 * 0x10000 + b3 * 0x1000000) by (bit_vector)
        requires r == (b0 as u32) | ((b1 as u32) << 8) | ((b2 as u32) << 16) | ((b3 as u32) << 24);
    r
}

/// The big-endian value of `b[at..at + 4]`.
pub fn read_u32_be(b: &[u8], at: usize) -> (r: u32)
    requires
        at + 4 <= b@.len(),
    ensures
        r == be32(b@.subrange(at as int, at + 4)),
{
    let b0 = b[at];
    let b1 = b[at + 1];
    let b2 = b[at + 2];
    let b3 = b[at + 3];
    let r = ((b0 as u32) << 24) | ((b1 as u32) << 16) | ((b2 as u32) << 8) | (b3 as u32);
    assert(r == b0 * 0x1000000 + b1 * 0x10000 + b2 * 0x100 + b3) by (bit_vector)
        requires r == ((b0 as u32) << 24) | ((b1 as u32) << 16) | ((b2 as u32) << 8) | (b3 as u32);
    r
}

/// The little-endian value of `b[at..at + 8]`.
pub fn read_u64_le(b: &[u8], at: usize) -> (r: u64)
    requires
        at + 8 <= b@.len(),
    ensures
        r == le64(b@.subrange(at as int, at + 8)),
{
    let _n = b.len();
    let lo = read_u32_le(b, at);
    let hi = read_u32_le(b, at + 4);
    let r = (lo as u64) | ((hi as u64) << 32);
    assert(r == lo + hi * 0x1_0000_0000) by (bit_vector)
        requires r == (lo as u64) | ((hi as u64) << 32);
    assert(b@.subrange(at as int, at + 8).subrange(0, 4) =~= b@.subrange(at as int, at + 4));
    assert(b@.subrange(at as int, at + 8).subrange(4, 8) =~= b@.subrange(at + 4, at + 8));
    r
}

/// The bytes `b[a..b_end]`.
pub fn copy_range(b: &[u8], a: usize, b_end: usize) -> (r: Vec<u8>)
    requires
        a <= b_end <= b@.len(),
    ensures
        r@ == b@.subrange(a as int, b_end as int),
{
    let mut r: Vec<u8> = Vec::new();
    let mut i = a;
    while i < b_end
        invariant
            a <= i <= b_end <= b@.len(),
            r@ == b@.subrange(a as int, i as int),
        decreases b_end - i,
    {
        r.push(b[i]);
        i = i + 1;
    }
    r
}


/// Big-endian value of an 8-byte sequence.
pub open spec fn be64(b: Seq<u8>) -> int {
    be32(b.subrange(0, 4)) * 0x1_0000_0000 + be32(b.subrange(4, 8))
}

/// The big-endian value of `b[at..at + 8]`.
pub fn read_u64_be(b: &[u8], at: usize) -> (r: u64)
    requires
        at + 8 <= b@.len(),
    ensures
        r == be64(b@.subrange(at as int, at + 8)),
{
    let _n = b.len();
    let hi = read_u32_be(b, at);
    let lo = read_u32_be(b, at + 4);
    let r = ((hi as u64) << 32) | (lo as u64);
    assert(r == hi * 0x1_0000_0000 + lo) by (bit_vector)
        requires r == ((hi as u64) << 32) | (lo as u64);
    assert(b@.subrange(at as int, at + 8).subrange(0, 4) =~= b@.subrange(at as int, at + 4));
    assert(b@.subrange(at as int, at + 8).subrange(4, 8) =~= b@.subrange(at + 4, at + 8));
    r
}

/// The signed value of a 16-bit pattern.
pub open spec fn signed16(raw: int) -> int {
    if raw >= 0x8000 { raw - 0x10000 } else { raw }
}

/// The big-endian signed value of `b[at..at + 2]`.
pub fn read_i16_be(b: &[u8], at: usize) -> (r: i16)
    requires
        at + 2 <= b@.len(),
    ensures
        r == signed16(be16(b@.subrange(at as int, at + 2))),
{
    let raw = read_u16_be(b, at);
    if raw >= 0x8000 {
        (raw as i32 - 0x10000) as i16
    } else {
        raw as i16
    }
}

} // verus!
