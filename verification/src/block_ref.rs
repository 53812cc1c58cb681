//! BREF (Block Reference): a block id paired with the absolute byte offset
//! where the block or page lives in the file.

use vstd::prelude::*;
use crate::bytes::{
    read_u32, read_u64, write_u32, write_u64, spec_u32_at, spec_u64_at, spec_u32_bytes,
    spec_u64_bytes, lemma_u32_round_trip, lemma_u64_round_trip,
};
use crate::block_id::{UnicodeBlockId, AnsiBlockId};

verus! {

broadcast use vstd::slice::group_slice_axioms;

/// A 64-bit block reference: 16 bytes on disk, block id then byte index.
#[derive(Clone, Copy, Debug, Default, PartialEq, Eq, Structural)]
pub struct UnicodeBlockRef {
    pub block: UnicodeBlockId,
    pub index: u64,
}

impl UnicodeBlockRef {
    pub fn new(block: UnicodeBlockId, index: u64) -> (r: Self)
        ensures
            r == (UnicodeBlockRef { block, index }),
    {
        UnicodeBlockRef { block, index }
    }

    pub fn block(&self) -> (r: UnicodeBlockId)
        ensures
            r == self.block,
    {
        self.block
    }

    pub fn index(&self) -> (r: u64)
        ensures
            r == self.index,
    {
        self.index
    }
}

/// The block reference held in 16 bytes at offset `i` of `s`.
pub open spec fn spec_parse_unicode_block_ref(s: Seq<u8>, i: int) -> UnicodeBlockRef
    recommends
        0 <= i,
        i + 16 <= s.len(),
{
    UnicodeBlockRef { block: UnicodeBlockId(spec_u64_at(s, i)), index: spec_u64_at(s, i + 8) }
}

pub open spec fn spec_unicode_block_ref_bytes(r: UnicodeBlockRef) -> Seq<u8> {
    spec_u64_bytes(r.block.raw_spec()) + spec_u64_bytes(r.index)
}

pub fn parse_unicode_block_ref(b: &[u8], off: usize) -> (r: UnicodeBlockRef)
    requires
        off + 16 <= b@.len(),
    ensures
        r == spec_parse_unicode_block_ref(b@, off as int),
{
    let n: usize = b.len();
    let block = UnicodeBlockId::from_raw(read_u64(b, off));
    let index = read_u64(b, off + 8);
    UnicodeBlockRef { block, index }
}

pub fn serialize_unicode_block_ref(r: &UnicodeBlockRef, out: &mut Vec<u8>)
    ensures
        final(out)@ == old(out)@ + spec_unicode_block_ref_bytes(*r),
{
    write_u64(out, r.block.to_raw());
    write_u64(out, r.index);
    proof {
        assert(out@ =~= old(out)@ + spec_unicode_block_ref_bytes(*r));
    }
}

/// Parsing the serialized bytes of a block reference restores it.
pub proof fn lemma_unicode_block_ref_round_trip(r: UnicodeBlockRef)
    ensures
        spec_parse_unicode_block_ref(spec_unicode_block_ref_bytes(r), 0) == r,
{
    let s = spec_unicode_block_ref_bytes(r);
    lemma_u64_round_trip(r.block.raw_spec());
    lemma_u64_round_trip(r.index);
    assert(spec_u64_at(s, 0) == r.block.raw_spec());
    assert(spec_u64_at(s, 8) == r.index);
}

/// A 32-bit block reference: 8 bytes on disk.
#[derive(Clone, Copy, Debug, Default, PartialEq, Eq, Structural)]
pub struct AnsiBlockRef {
    pub block: AnsiBlockId,
    pub index: u32,
}

impl AnsiBlockRef {
    pub fn new(block: AnsiBlockId, index: u32) -> (r: Self)
        ensures
            r == (AnsiBlockRef { block, index }),
    {
        AnsiBlockRef { block, index }
    }

    pub fn block(&self) -> (r: AnsiBlockId)
        ensures
            r == self.block,
    {
        self.block
    }

    pub fn index(&self) -> (r: u32)
        ensures
            r == self.index,
    {
        self.index
    }
}

/// The block reference held in 8 bytes at offset `i` of `s`.
pub open spec fn spec_parse_ansi_block_ref(s: Seq<u8>, i: int) -> AnsiBlockRef
    recommends
        0 <= i,
        i + 8 <= s.len(),
{
    AnsiBlockRef { block: AnsiBlockId(spec_u32_at(s, i)), index: spec_u32_at(s, i + 4) }
}

pub open spec fn spec_ansi_block_ref_bytes(r: AnsiBlockRef) -> Seq<u8> {
    spec_u32_bytes(r.block.raw_spec()) + spec_u32_bytes(r.index)
}

pub fn parse_ansi_block_ref(b: &[u8], off: usize) -> (r: AnsiBlockRef)
    requires
        off + 8 <= b@.len(),
    ensures
        r == spec_parse_ansi_block_ref(b@, off as int),
{
    let n: usize = b.len();
    let block = AnsiBlockId::from_raw(read_u32(b, off));
    let index = read_u32(b, off + 4);
    AnsiBlockRef { block, index }
}

pub fn serialize_ansi_block_ref(r: &AnsiBlockRef, out: &mut Vec<u8>)
    ensures
        final(out)@ == old(out)@ + spec_ansi_block_ref_bytes(*r),
{
    write_u32(out, r.block.to_raw());
    write_u32(out, r.index);
    proof {
        assert(out@ =~= old(out)@ + spec_ansi_block_ref_bytes(*r));
    }
}

/// Parsing the serialized bytes of a block reference restores it.
pub proof fn lemma_ansi_block_ref_round_trip(r: AnsiBlockRef)
    ensures
        spec_parse_ansi_block_ref(spec_ansi_block_ref_bytes(r), 0) == r,
{
    let s = spec_ansi_block_ref_bytes(r);
    lemma_u32_round_trip(r.block.raw_spec());
    lemma_u32_round_trip(r.index);
    assert(spec_u32_at(s, 0) == r.block.raw_spec());
    assert(spec_u32_at(s, 4) == r.index);
}

} // verus!
