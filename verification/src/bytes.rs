//! Little-endian integer fields: reading them out of a byte buffer,
//! appending them to one, and the round-trip facts the format proofs use.

use vstd::prelude::*;

verus! {

broadcast use vstd::slice::group_slice_axioms;

pub open spec fn u16_le(b0: u8, b1: u8) -> u16 {
    (b0 as u16) | ((b1 as u16) << 8)
}

pub open spec fn u32_le(b0: u8, b1: u8, b2: u8, b3: u8) -> u32 {
    (b0 as u32) | ((b1 as u32) << 8) | ((b2 as u32) << 16) | ((b3 as u32) << 24)
}

#[verifier::inline]
pub open spec fn u64_le(b0: u8, b1: u8, b2: u8, b3: u8, b4: u8, b5: u8, b6: u8, b7: u8) -> u64 {
    (b0 as u64) | ((b1 as u64) << 8) | ((b2 as u64) << 16) | ((b3 as u64) << 24)
        | ((b4 as u64) << 32) | ((b5 as u64) << 40) | ((b6 as u64) << 48) | ((b7 as u64) << 56)
}

/// The 16-bit little-endian field at byte offset `i` of `s`.
pub open spec fn spec_u16_at(s: Seq<u8>, i: int) -> u16
    recommends
        0 <= i,
        i + 2 <= s.len(),
{
    u16_le(s[i], s[i + 1])
}

/// The 32-bit little-endian field at byte offset `i` of `s`.
pub open spec fn spec_u32_at(s: Seq<u8>, i: int) -> u32
    recommends
        0 <= i,
        i + 4 <= s.len(),
{
    u32_le(s[i], s[i + 1], s[i + 2], s[i + 3])
}

/// The 64-bit little-endian field at byte offset `i` of `s`.
pub open spec fn spec_u64_at(s: Seq<u8>, i: int) -> u64
    recommends
        0 <= i,
        i + 8 <= s.len(),
{
    u64_le(s[i], s[i + 1], s[i + 2], s[i + 3], s[i + 4], s[i + 5], s[i + 6], s[i + 7])
}

/// The two bytes of `x`, least significant first.
pub open spec fn spec_u16_bytes(x: u16) -> Seq<u8> {
    seq![(x & 0xFF) as u8, ((x >> 8) & 0xFF) as u8]
}

/// The four bytes of `x`, least significant first.
pub open spec fn spec_u32_bytes(x: u32) -> Seq<u8> {
    seq![
        (x & 0xFF) as u8,
        ((x >> 8) & 0xFF) as u8,
        ((x >> 16) & 0xFF) as u8,
        ((x >> 24) & 0xFF) as u8,
    ]
}

/// The eight bytes of `x`, least significant first.
pub open spec fn spec_u64_bytes(x: u64) -> Seq<u8> {
    seq![
        (x & 0xFF) as u8,
        ((x >> 8) & 0xFF) as u8,
        ((x >> 16) & 0xFF) as u8,
        ((x >> 24) & 0xFF) as u8,
        ((x >> 32) & 0xFF) as u8,
        ((x >> 40) & 0xFF) as u8,
        ((x >> 48) & 0xFF) as u8,
        ((x >> 56) & 0xFF) as u8,
    ]
}

pub fn read_u8(b: &[u8], off: usize) -> (r: u8)
    requires
        off < b@.len(),
    ensures
        r == b@[off as int],
{
    *vstd::slice::slice_index_get(b, off)
}

pub fn read_u16(b: &[u8], off: usize) -> (r: u16)
    requires
        off + 2 <= b@.len(),
    ensures
        r == spec_u16_at(b@, off as int),
{
    let n: usize = b.len();
    let b0 = *vstd::slice::slice_index_get(b, off);
    let b1 = *vstd::slice::slice_index_get(b, off + 1);
    (b0 as u16) | ((b1 as u16) << 8)
}

pub fn read_u32(b: &[u8], off: usize) -> (r: u32)
    requires
        off + 4 <= b@.len(),
    ensures
        r == spec_u32_at(b@, off as int),
{
    let n: usize = b.len();
    let b0 = *vstd::slice::slice_index_get(b, off);
    let b1 = *vstd::slice::slice_index_get(b, off + 1);
    let b2 = *vstd::slice::slice_index_get(b, off + 2);
    let b3 = *vstd::slice::slice_index_get(b, off + 3);
    (b0 as u32) | ((b1 as u32) << 8) | ((b2 as u32) << 16) | ((b3 as u32) << 24)
}

pub fn read_u64(b: &[u8], off: usize) -> (r: u64)
    requires
        off + 8 <= b@.len(),
    ensures
        r == spec_u64_at(b@, off as int),
{
    let n: usize = b.len();
    let b0 = *vstd::slice::slice_index_get(b, off);
    let b1 = *vstd::slice::slice_index_get(b, off + 1);
    let b2 = *vstd::slice::slice_index_get(b, off + 2);
    let b3 = *vstd::slice::slice_index_get(b, off + 3);
    let b4 = *vstd::slice::slice_index_get(b, off + 4);
    let b5 = *vstd::slice::slice_index_get(b, off + 5);
    let b6 = *vstd::slice::slice_index_get(b, off + 6);
    let b7 = *vstd::slice::slice_index_get(b, off + 7);
    (b0 as u64) | ((b1 as u64) << 8) | ((b2 as u64) << 16) | ((b3 as u64) << 24)
        | ((b4 as u64) << 32) | ((b5 as u64) << 40) | ((b6 as u64) << 48) | ((b7 as u64) << 56)
}

pub fn write_u8(out: &mut Vec<u8>, x: u8)
    ensures
        final(out)@ == old(out)@ + seq![x],
{
    out.push(x);
    proof {
        assert(out@ =~= old(out)@ + seq![x]);
    }
}

pub fn write_u16(out: &mut Vec<u8>, x: u16)
    ensures
        final(out)@ == old(out)@ + spec_u16_bytes(x),
{
    out.push((x & 0xFF) as u8);
    out.push(((x >> 8) & 0xFF) as u8);
    proof {
        assert(out@ =~= old(out)@ + spec_u16_bytes(x));
    }
}

pub fn write_u32(out: &mut Vec<u8>, x: u32)
    ensures
        final(out)@ == old(out)@ + spec_u32_bytes(x),
{
    out.push((x & 0xFF) as u8);
    out.push(((x >> 8) & 0xFF) as u8);
    out.push(((x >> 16) & 0xFF) as u8);
    out.push(((x >> 24) & 0xFF) as u8);
    proof {
        assert(out@ =~= old(out)@ + spec_u32_bytes(x));
    }
}

pub fn write_u64(out: &mut Vec<u8>, x: u64)
    ensures
        final(out)@ == old(out)@ + spec_u64_bytes(x),
{
    out.push((x & 0xFF) as u8);
    out.push(((x >> 8) & 0xFF) as u8);
    out.push(((x >> 16) & 0xFF) as u8);
    out.push(((x >> 24) & 0xFF) as u8);
    out.push(((x >> 32) & 0xFF) as u8);
    out.push(((x >> 40) & 0xFF) as u8);
    out.push(((x >> 48) & 0xFF) as u8);
    out.push(((x >> 56) & 0xFF) as u8);
    proof {
        assert(out@ =~= old(out)@ + spec_u64_bytes(x));
    }
}

/// `n` zero bytes: the padding between a block's payload and its trailer.
pub open spec fn zero_bytes(n: int) -> Seq<u8> {
    Seq::new(n as nat, |i: int| 0u8)
}

pub fn write_zeros(out: &mut Vec<u8>, n: usize)
    ensures
        final(out)@ == old(out)@ + zero_bytes(n as int),
{
    let mut i: usize = 0;
    while i < n
        invariant
            i <= n,
            out@ == old(out)@ + zero_bytes(i as int),
        decreases n - i,
    {
        out.push(0u8);
        proof {
            assert(out@ =~= old(out)@ + zero_bytes(i + 1 as int));
        }
        i = i + 1;
    }
}

/// Overwrites `v[off .. off + repl.len())` with `repl`, leaving every
/// other byte alone.
pub fn splice(v: &mut Vec<u8>, off: usize, repl: &[u8])
    requires
        off + repl@.len() <= old(v)@.len(),
    ensures
        final(v)@.len() == old(v)@.len(),
        forall|j: int|
            0 <= j < old(v)@.len() ==> final(v)@[j] == if off <= j < off + repl@.len() {
                repl@[j - off]
            } else {
                old(v)@[j]
            },
{
    let n: usize = repl.len();
    let mut i: usize = 0;
    while i < n
        invariant
            i <= n,
            n == repl@.len(),
            off + n <= v@.len(),
            v@.len() == old(v)@.len(),
            forall|j: int|
                0 <= j < v@.len() ==> v@[j] == if off <= j < off + i {
                    repl@[j - off]
                } else {
                    old(v)@[j]
                },
        decreases n - i,
    {
        let vn: usize = v.len();
        let b = *vstd::slice::slice_index_get(repl, i);
        v[off + i] = b;
        i = i + 1;
    }
}

/// Overwrites the 32-bit little-endian field at `off` with `x`, leaving
/// every other byte alone.
pub fn splice_u32(v: &mut Vec<u8>, off: usize, x: u32)
    requires
        off + 4 <= old(v)@.len(),
    ensures
        final(v)@.len() == old(v)@.len(),
        forall|j: int|
            0 <= j < old(v)@.len() ==> final(v)@[j] == if off <= j < off + 4 {
                spec_u32_bytes(x)[j - off]
            } else {
                old(v)@[j]
            },
        spec_u32_at(final(v)@, off as int) == x,
{
    let vn: usize = v.len();
    v[off] = (x & 0xFF) as u8;
    v[off + 1] = ((x >> 8) & 0xFF) as u8;
    v[off + 2] = ((x >> 16) & 0xFF) as u8;
    v[off + 3] = ((x >> 24) & 0xFF) as u8;
    proof {
        lemma_u32_round_trip(x);
    }
}

/// Overwrites the 16-bit little-endian field at `off` with `x`, leaving
/// every other byte alone.
pub fn splice_u16(v: &mut Vec<u8>, off: usize, x: u16)
    requires
        off + 2 <= old(v)@.len(),
    ensures
        final(v)@.len() == old(v)@.len(),
        forall|j: int|
            0 <= j < old(v)@.len() ==> final(v)@[j] == if off <= j < off + 2 {
                spec_u16_bytes(x)[j - off]
            } else {
                old(v)@[j]
            },
        spec_u16_at(final(v)@, off as int) == x,
{
    let vn: usize = v.len();
    v[off] = (x & 0xFF) as u8;
    v[off + 1] = ((x >> 8) & 0xFF) as u8;
    proof {
        lemma_u16_round_trip(x);
    }
}

/// Reading back the two bytes of `x` gives `x` again.
pub proof fn lemma_u16_round_trip(x: u16)
    ensures
        u16_le((x & 0xFF) as u8, ((x >> 8) & 0xFF) as u8) == x,
{
    assert(((((x & 0xFF) as u8) as u16) | ((((x >> 8) & 0xFF) as u8) as u16) << 8) == x)
        by (bit_vector);
}

/// Serializing the value read from two bytes gives the same bytes.
pub proof fn lemma_u16_bytes_inverse(b0: u8, b1: u8)
    ensures
        spec_u16_bytes(u16_le(b0, b1)) == seq![b0, b1],
{
    let x = u16_le(b0, b1);
    assert((((b0 as u16) | ((b1 as u16) << 8)) & 0xFF) as u8 == b0) by (bit_vector);
    assert(((((b0 as u16) | ((b1 as u16) << 8)) >> 8) & 0xFF) as u8 == b1) by (bit_vector);
    assert(spec_u16_bytes(x) =~= seq![b0, b1]);
}

/// Reading back the four bytes of `x` gives `x` again.
pub proof fn lemma_u32_round_trip(x: u32)
    ensures
        u32_le(
            (x & 0xFF) as u8,
            ((x >> 8) & 0xFF) as u8,
            ((x >> 16) & 0xFF) as u8,
            ((x >> 24) & 0xFF) as u8,
        ) == x,
{
    assert(((((x & 0xFF) as u8) as u32) | ((((x >> 8) & 0xFF) as u8) as u32) << 8
        | ((((x >> 16) & 0xFF) as u8) as u32) << 16 | ((((x >> 24) & 0xFF) as u8) as u32) << 24)
        == x) by (bit_vector);
}

/// Serializing the value read from four bytes gives the same bytes.
pub proof fn lemma_u32_bytes_inverse(b0: u8, b1: u8, b2: u8, b3: u8)
    ensures
        spec_u32_bytes(u32_le(b0, b1, b2, b3)) == seq![b0, b1, b2, b3],
{
    let x = u32_le(b0, b1, b2, b3);
    assert({
        let y = (b0 as u32) | ((b1 as u32) << 8) | ((b2 as u32) << 16) | ((b3 as u32) << 24);
        (y & 0xFF) as u8 == b0 && ((y >> 8) & 0xFF) as u8 == b1 && ((y >> 16) & 0xFF) as u8 == b2
            && ((y >> 24) & 0xFF) as u8 == b3
    }) by (bit_vector);
    assert(spec_u32_bytes(x) =~= seq![b0, b1, b2, b3]);
}

/// Reading back the eight bytes of `x` gives `x` again.
pub proof fn lemma_u64_round_trip(x: u64)
    ensures
        u64_le(
            (x & 0xFF) as u8,
            ((x >> 8) & 0xFF) as u8,
            ((x >> 16) & 0xFF) as u8,
            ((x >> 24) & 0xFF) as u8,
            ((x >> 32) & 0xFF) as u8,
            ((x >> 40) & 0xFF) as u8,
            ((x >> 48) & 0xFF) as u8,
            ((x >> 56) & 0xFF) as u8,
        ) == x,
{
    assert(((((x & 0xFF) as u8) as u64) | ((((x >> 8) & 0xFF) as u8) as u64) << 8
        | ((((x >> 16) & 0xFF) as u8) as u64) << 16 | ((((x >> 24) & 0xFF) as u8) as u64) << 24
        | ((((x >> 32) & 0xFF) as u8) as u64) << 32 | ((((x >> 40) & 0xFF) as u8) as u64) << 40
        | ((((x >> 48) & 0xFF) as u8) as u64) << 48 | ((((x >> 56) & 0xFF) as u8) as u64) << 56)
        == x) by (bit_vector);
}

/// Serializing the value read from eight bytes gives the same bytes.
pub proof fn lemma_u64_bytes_inverse(b0: u8, b1: u8, b2: u8, b3: u8, b4: u8, b5: u8, b6: u8, b7: u8)
    ensures
        spec_u64_bytes(u64_le(b0, b1, b2, b3, b4, b5, b6, b7)) == seq![b0, b1, b2, b3, b4, b5, b6, b7],
{
    let x = u64_le(b0, b1, b2, b3, b4, b5, b6, b7);
    assert({
        let y = (b0 as u64) | ((b1 as u64) << 8) | ((b2 as u64) << 16) | ((b3 as u64) << 24)
            | ((b4 as u64) << 32) | ((b5 as u64) << 40) | ((b6 as u64) << 48) | ((b7 as u64) << 56);
        (y & 0xFF) as u8 == b0 && ((y >> 8) & 0xFF) as u8 == b1 && ((y >> 16) & 0xFF) as u8 == b2
            && ((y >> 24) & 0xFF) as u8 == b3 && ((y >> 32) & 0xFF) as u8 == b4
            && ((y >> 40) & 0xFF) as u8 == b5 && ((y >> 48) & 0xFF) as u8 == b6
            && ((y >> 56) & 0xFF) as u8 == b7
    }) by (bit_vector);
    assert(spec_u64_bytes(x) =~= seq![b0, b1, b2, b3, b4, b5, b6, b7]);
}

} // verus!
