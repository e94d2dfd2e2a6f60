//! CRC-32 (IEEE 802.3, reflected polynomial `0xEDB88320`), the checksum of
//! the `.fbc` file header and of the datalog body.

use vstd::prelude::*;

verus! {

/// Reflected CRC-32 polynomial.
pub const CRC32_POLY: u32 = 0xEDB8_8320;

/// One bit step of the reflected CRC register.
pub open spec fn crc_shift(c: u32) -> u32 {
    if c & 1 != 0 {
        (c >> 1) ^ CRC32_POLY
    } else {
        c >> 1
    }
}

/// `n` bit steps of the CRC register.
pub open spec fn crc_bits(c: u32, n: nat) -> u32
    decreases n,
{
    if n == 0 {
        c
    } else {
        crc_shift(crc_bits(c, (n - 1) as nat))
    }
}

/// The CRC register after absorbing one byte.
pub open spec fn crc_byte(c: u32, b: u8) -> u32 {
    crc_bits(c ^ (b as u32), 8)
}

/// The CRC register after absorbing `data` (no pre- or post-inversion).
pub open spec fn crc_fold(c: u32, data: Seq<u8>) -> u32
    decreases data.len(),
{
    if data.len() == 0 {
        c
    } else {
        crc_byte(crc_fold(c, data.drop_last()), data.last())
    }
}

/// The CRC-32 of `data` continued from a previous CRC value `crc`.
pub open spec fn crc32_continue(crc: u32, data: Seq<u8>) -> u32 {
    !crc_fold(!crc, data)
}

/// The CRC-32 of `data`.
pub open spec fn crc32(data: Seq<u8>) -> u32 {
    crc32_continue(0, data)
}

/// Continues the CRC-32 value `crc` over `data`.
pub fn crc32_update(crc: u32, data: &[u8]) -> (r: u32)
    ensures
        r == crc32_continue(crc, data@),
{
    let mut c: u32 = !crc;
    let mut i: usize = 0;
    while i < data.len()
        invariant
            i <= data@.len(),
            c == crc_fold(!crc, data@.take(i as int)),
        decreases data.len() - i,
    {
        let start = c ^ (data[i] as u32);
        c = start;
        let mut j: u32 = 0;
        while j < 8
            invariant
                j <= 8,
                c == crc_bits(start, j as nat),
            decreases 8 - j,
        {
            if c & 1 != 0 {
                c = (c >> 1) ^ CRC32_POLY;
            } else {
                c = c >> 1;
            }
            j = j + 1;
        }
        assert(data@.take(i + 1).drop_last() =~= data@.take(i as int));
        i = i + 1;
    }
    assert(data@.take(data@.len() as int) =~= data@);
    !c
}

proof fn lemma_crc_fold_concat(c: u32, a: Seq<u8>, b: Seq<u8>)
    ensures
        crc_fold(crc_fold(c, a), b) == crc_fold(c, a + b),
    decreases b.len(),
{
    if b.len() == 0 {
        assert(a + b =~= a);
    } else {
        lemma_crc_fold_concat(c, a, b.drop_last());
        assert((a + b).drop_last() =~= a + b.drop_last());
    }
}

/// Continuing a CRC over `a` and then over `b` is the CRC over `a + b`.
pub proof fn lemma_crc32_continue_concat(crc: u32, a: Seq<u8>, b: Seq<u8>)
    ensures
        crc32_continue(crc32_continue(crc, a), b) == crc32_continue(crc, a + b),
{
    lemma_crc_fold_concat(!crc, a, b);
    let x = crc_fold(!crc, a);
    assert(!(!x) == x) by (bit_vector);
}

/// The CRC-32 of `data`, computed by the `crc32fast` crate.
///
/// Calls `crc32fast::hash`, which runs the standard CRC-32 (initial value 0,
/// reflected polynomial `0xEDB88320`, final inversion) over the buffer; the
/// contract states that it equals `crc32`.
#[verifier::external_body]
pub(crate) fn crc32fast_hash(data: &[u8]) -> (r: u32)
    ensures
        r == crc32(data@),
{
    crc32fast::hash(data)
}

} // verus!
