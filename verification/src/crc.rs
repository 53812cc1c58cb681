//! The CRC-32 used throughout the PST format: the reflected polynomial
//! 0xEDB88320, seeded by the caller, with no final complement. Every page
//! and block trailer stores the CRC of the bytes it protects.

use vstd::prelude::*;

verus! {

/// One shift step of the reflected CRC-32.
pub open spec fn crc_step(c: u32) -> u32 {
    if c & 1 == 1 {
        (c >> 1) ^ 0xEDB8_8320
    } else {
        c >> 1
    }
}

/// `n` shift steps applied to `c`.
pub open spec fn crc_steps(c: u32, n: nat) -> u32
    decreases n,
{
    if n == 0 {
        c
    } else {
        crc_step(crc_steps(c, (n - 1) as nat))
    }
}

/// Folding one byte into the running CRC: mix it into the low byte, then
/// eight shift steps.
pub open spec fn crc_push_byte(c: u32, b: u8) -> u32 {
    crc_steps(c ^ (b as u32), 8)
}

/// The CRC of `s` starting from `seed`.
pub open spec fn spec_crc(seed: u32, s: Seq<u8>) -> u32
    decreases s.len(),
{
    if s.len() == 0 {
        seed
    } else {
        crc_push_byte(spec_crc(seed, s.drop_last()), s.last())
    }
}

/// Extending the protected bytes by one byte folds that byte in.
pub proof fn lemma_crc_snoc(seed: u32, s: Seq<u8>, b: u8)
    ensures
        spec_crc(seed, s.push(b)) == crc_push_byte(spec_crc(seed, s), b),
{
    assert(s.push(b).drop_last() =~= s);
    assert(s.push(b).last() == b);
}

/// Computes the CRC of `data` starting from `seed`.
pub fn compute_crc(seed: u32, data: &[u8]) -> (r: u32)
    ensures
        r == spec_crc(seed, data@),
{
    let mut c = seed;
    let mut i: usize = 0;
    while i < data.len()
        invariant
            i <= data@.len(),
            c == spec_crc(seed, data@.subrange(0, i as int)),
        decreases data@.len() - i,
    {
        let b = *vstd::slice::slice_index_get(data, i);
        c = c ^ (b as u32);
        let mut k: usize = 0;
        while k < 8
            invariant
                k <= 8,
                c == crc_steps(spec_crc(seed, data@.subrange(0, i as int)) ^ (b as u32), k as nat),
        decreases 8 - k,
        {
            if c & 1 == 1 {
                c = (c >> 1u32) ^ 0xEDB8_8320;
            } else {
                c = c >> 1u32;
            }
            k = k + 1;
        }
        proof {
            assert(data@.subrange(0, i as int).push(data@[i as int])
                =~= data@.subrange(0, i + 1 as int));
            lemma_crc_snoc(seed, data@.subrange(0, i as int), data@[i as int]);
        }
        i = i + 1;
    }
    proof {
        assert(data@.subrange(0, data@.len() as int) =~= data@);
    }
    c
}

} // verus!
