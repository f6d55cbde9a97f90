//! Content digests: the SHA-256 digest used for attachment integrity and the
//! CRC-32 checksum stored in archive entry headers.

use vstd::prelude::*;
use sha2::Digest;

verus! {

/// The SHA-256 digest of a byte string, as a 32-byte sequence.  The digest is
/// a function of the input bytes alone; its value is not axiomatised here.
pub uninterp spec fn sha256_of(b: Seq<u8>) -> Seq<u8>;

/// Relies on `sha2::Sha256::digest`: a 32-byte digest computed from the input
/// bytes alone.
#[verifier::external_body]
pub fn sha256(v: &[u8]) -> (r: Vec<u8>)
    ensures
        r@ == sha256_of(v@),
        r@.len() == 32,
{
    sha2::Sha256::digest(v).to_vec()
}

// ---------------------------------------------------------------------------
// CRC-32 (the reflected polynomial used by the archive format)
// ---------------------------------------------------------------------------

/// One shift step of the bitwise CRC-32 computation.
pub open spec fn crc32_shift(c: u32) -> u32 {
    if c & 1 == 1 {
        (c >> 1) ^ 0xEDB88320u32
    } else {
        c >> 1
    }
}

/// `k` shift steps.
pub open spec fn crc32_shifts(c: u32, k: nat) -> u32
    decreases k,
{
    if k == 0 {
        c
    } else {
        crc32_shifts(crc32_shift(c), (k - 1) as nat)
    }
}

/// Feed one byte into the running CRC-32 state.
pub open spec fn crc32_update(c: u32, b: u8) -> u32 {
    crc32_shifts(c ^ (b as u32), 8)
}

/// Running CRC-32 state after feeding a whole byte string.
pub open spec fn crc32_fold(s: Seq<u8>) -> u32
    decreases s.len(),
{
    if s.len() == 0 {
        0xFFFFFFFFu32
    } else {
        crc32_update(crc32_fold(s.drop_last()), s.last())
    }
}

/// The CRC-32 checksum of a byte string.
pub open spec fn crc32_of(s: Seq<u8>) -> u32 {
    crc32_fold(s) ^ 0xFFFFFFFFu32
}

/// Compute the CRC-32 checksum of a byte string.
pub fn crc32(v: &[u8]) -> (r: u32)
    ensures
        r == crc32_of(v@),
{
    let mut c: u32 = 0xFFFFFFFF;
    let mut i: usize = 0;
    while i < v.len()
        invariant
            i <= v@.len(),
            c == crc32_fold(v@.take(i as int)),
        decreases v@.len() - i,
    {
        let b: u8 = v[i];
        let start: u32 = c ^ (b as u32);
        let mut x: u32 = start;
        let mut k: usize = 0;
        while k < 8
            invariant
                k <= 8,
                x == crc32_shifts(start, k as nat),
            decreases 8 - k,
        {
            proof {
                lemma_crc32_shifts_snoc(start, k as nat);
            }
            if x & 1 == 1 {
                x = (x >> 1) ^ 0xEDB88320;
            } else {
                x = x >> 1;
            }
            k = k + 1;
        }
        c = x;
        proof {
            let t1 = v@.take(i + 1);
            assert(t1.drop_last() =~= v@.take(i as int));
            assert(t1.last() == v@[i as int]);
        }
        i = i + 1;
    }
    proof {
        assert(v@.take(v@.len() as int) =~= v@);
    }
    c ^ 0xFFFFFFFF
}

/// Unroll one shift step at the end: `k + 1` steps are `k` steps followed by
/// one more.
proof fn lemma_crc32_shifts_snoc(c: u32, k: nat)
    ensures
        crc32_shifts(c, k + 1) == crc32_shift(crc32_shifts(c, k)),
    decreases k,
{
    if k == 0 {
        assert(crc32_shifts(c, 1) == crc32_shifts(crc32_shift(c), 0));
    } else {
        lemma_crc32_shifts_snoc(crc32_shift(c), (k - 1) as nat);
        assert(crc32_shifts(c, k + 1) == crc32_shifts(crc32_shift(c), k));
        assert(crc32_shifts(c, k) == crc32_shifts(crc32_shift(c), (k - 1) as nat));
    }
}

} // verus!
