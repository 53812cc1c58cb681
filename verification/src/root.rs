//! The ROOT structure inside the header: file size, allocation-map
//! bookkeeping, the references of the node and block B-trees, and the
//! allocation-map validity flag that drives crash recovery.

use vstd::prelude::*;
use crate::bytes::{
    read_u8, read_u16, read_u32, read_u64, write_u8, write_u16, write_u32, write_u64, spec_u16_at,
    spec_u32_at, spec_u64_at, spec_u16_bytes, spec_u32_bytes, spec_u64_bytes, lemma_u16_round_trip,
    lemma_u32_round_trip, lemma_u64_round_trip,
};
use crate::block_ref::{
    UnicodeBlockRef, AnsiBlockRef, spec_parse_unicode_block_ref, spec_parse_ansi_block_ref,
    spec_unicode_block_ref_bytes, spec_ansi_block_ref_bytes, parse_unicode_block_ref,
    parse_ansi_block_ref, serialize_unicode_block_ref, serialize_ansi_block_ref,
};

verus! {

broadcast use vstd::slice::group_slice_axioms;

/// Whether the allocation maps can be trusted. `Invalid` on open means a
/// rebuild is required before any allocation.
#[derive(Clone, Copy, Debug, PartialEq, Eq, Structural)]
pub enum AmapStatus {
    Invalid,
    PartiallyValid,
    Valid,
}

impl AmapStatus {
    pub open spec fn to_u8_spec(&self) -> u8 {
        match self {
            AmapStatus::Invalid => 0,
            AmapStatus::PartiallyValid => 1,
            AmapStatus::Valid => 2,
        }
    }

    /// Any byte that names no status reads as `Invalid`.
    pub open spec fn spec_from_u8(value: u8) -> AmapStatus {
        if value == 1 {
            AmapStatus::PartiallyValid
        } else if value == 2 {
            AmapStatus::Valid
        } else {
            AmapStatus::Invalid
        }
    }

    pub fn to_u8(&self) -> (r: u8)
        ensures
            r == self.to_u8_spec(),
    {
        match self {
            AmapStatus::Invalid => 0,
            AmapStatus::PartiallyValid => 1,
            AmapStatus::Valid => 2,
        }
    }

    pub fn from_u8(value: u8) -> (r: AmapStatus)
        ensures
            r == Self::spec_from_u8(value),
    {
        if value == 1 {
            AmapStatus::PartiallyValid
        } else if value == 2 {
            AmapStatus::Valid
        } else {
            AmapStatus::Invalid
        }
    }
}

pub const UNICODE_ROOT_SIZE: usize = 72;

pub const ANSI_ROOT_SIZE: usize = 40;

/// ROOT, 64-bit width: 72 bytes on disk.
#[derive(Clone, Copy, Debug, PartialEq, Eq, Structural)]
pub struct UnicodeRoot {
    pub reserved1: u32,
    pub file_eof_index: u64,
    pub amap_last_index: u64,
    pub amap_free_size: u64,
    pub pmap_free_size: u64,
    pub node_btree: UnicodeBlockRef,
    pub block_btree: UnicodeBlockRef,
    pub amap_is_valid: AmapStatus,
    pub reserved2: u8,
    pub reserved3: u16,
}

impl UnicodeRoot {
    pub fn new(
        file_eof_index: u64,
        amap_last_index: u64,
        amap_free_size: u64,
        pmap_free_size: u64,
        node_btree: UnicodeBlockRef,
        block_btree: UnicodeBlockRef,
        amap_is_valid: AmapStatus,
    ) -> (r: Self)
        ensures
            r == (UnicodeRoot {
                reserved1: 0u32,
                file_eof_index,
                amap_last_index,
                amap_free_size,
                pmap_free_size,
                node_btree,
                block_btree,
                amap_is_valid,
                reserved2: 0u8,
                reserved3: 0u16,
            }),
    {
        UnicodeRoot {
            reserved1: 0,
            file_eof_index,
            amap_last_index,
            amap_free_size,
            pmap_free_size,
            node_btree,
            block_btree,
            amap_is_valid,
            reserved2: 0,
            reserved3: 0,
        }
    }

    pub fn file_eof_index(&self) -> (r: u64)
        ensures
            r == self.file_eof_index,
    {
        self.file_eof_index
    }

    pub fn amap_free_size(&self) -> (r: u64)
        ensures
            r == self.amap_free_size,
    {
        self.amap_free_size
    }

    pub fn node_btree(&self) -> (r: UnicodeBlockRef)
        ensures
            r == self.node_btree,
    {
        self.node_btree
    }

    pub fn block_btree(&self) -> (r: UnicodeBlockRef)
        ensures
            r == self.block_btree,
    {
        self.block_btree
    }

    pub fn amap_is_valid(&self) -> (r: AmapStatus)
        ensures
            r == self.amap_is_valid,
    {
        self.amap_is_valid
    }

    /// After a successful rebuild: the recomputed free total is recorded
    /// and the allocation maps are marked valid again.
    pub fn reset_free_size(&mut self, free_bytes: u64)
        ensures
            *final(self) == (UnicodeRoot {
                amap_free_size: free_bytes,
                amap_is_valid: AmapStatus::Valid,
                ..*old(self)
            }),
    {
        self.amap_free_size = free_bytes;
        self.amap_is_valid = AmapStatus::Valid;
    }
}

/// The root held in 72 bytes at offset `i` of `s`. Every field is total:
/// an unknown validity byte reads as `Invalid`.
pub open spec fn spec_parse_unicode_root(s: Seq<u8>, i: int) -> UnicodeRoot
    recommends
        0 <= i,
        i + 72 <= s.len(),
{
    UnicodeRoot {
        reserved1: spec_u32_at(s, i),
        file_eof_index: spec_u64_at(s, i + 4),
        amap_last_index: spec_u64_at(s, i + 12),
        amap_free_size: spec_u64_at(s, i + 20),
        pmap_free_size: spec_u64_at(s, i + 28),
        node_btree: spec_parse_unicode_block_ref(s, i + 36),
        block_btree: spec_parse_unicode_block_ref(s, i + 52),
        amap_is_valid: AmapStatus::spec_from_u8(s[i + 68]),
        reserved2: s[i + 69],
        reserved3: spec_u16_at(s, i + 70),
    }
}

pub open spec fn spec_unicode_root_bytes(r: UnicodeRoot) -> Seq<u8> {
    spec_u32_bytes(r.reserved1) + spec_u64_bytes(r.file_eof_index) + spec_u64_bytes(
        r.amap_last_index,
    ) + spec_u64_bytes(r.amap_free_size) + spec_u64_bytes(r.pmap_free_size)
        + spec_unicode_block_ref_bytes(r.node_btree) + spec_unicode_block_ref_bytes(r.block_btree)
        + seq![r.amap_is_valid.to_u8_spec(), r.reserved2] + spec_u16_bytes(r.reserved3)
}

pub fn parse_unicode_root(b: &[u8], off: usize) -> (r: UnicodeRoot)
    requires
        off + 72 <= b@.len(),
    ensures
        r == spec_parse_unicode_root(b@, off as int),
{
    let n: usize = b.len();
    UnicodeRoot {
        reserved1: read_u32(b, off),
        file_eof_index: read_u64(b, off + 4),
        amap_last_index: read_u64(b, off + 12),
        amap_free_size: read_u64(b, off + 20),
        pmap_free_size: read_u64(b, off + 28),
        node_btree: parse_unicode_block_ref(b, off + 36),
        block_btree: parse_unicode_block_ref(b, off + 52),
        amap_is_valid: AmapStatus::from_u8(read_u8(b, off + 68)),
        reserved2: read_u8(b, off + 69),
        reserved3: read_u16(b, off + 70),
    }
}

pub fn serialize_unicode_root(r: &UnicodeRoot, out: &mut Vec<u8>)
    ensures
        final(out)@ == old(out)@ + spec_unicode_root_bytes(*r),
        (final(out)@).len() == old(out)@.len() + UNICODE_ROOT_SIZE,
{
    write_u32(out, r.reserved1);
    write_u64(out, r.file_eof_index);
    write_u64(out, r.amap_last_index);
    write_u64(out, r.amap_free_size);
    write_u64(out, r.pmap_free_size);
    serialize_unicode_block_ref(&r.node_btree, out);
    serialize_unicode_block_ref(&r.block_btree, out);
    write_u8(out, r.amap_is_valid.to_u8());
    write_u8(out, r.reserved2);
    write_u16(out, r.reserved3);
    proof {
        assert(out@ =~= old(out)@ + spec_unicode_root_bytes(*r));
    }
}

/// Parsing the serialized bytes of a root restores it.
#[verifier::rlimit(60)]
pub proof fn lemma_unicode_root_round_trip(r: UnicodeRoot)
    ensures
        spec_parse_unicode_root(spec_unicode_root_bytes(r), 0) == r,
{
    let s = spec_unicode_root_bytes(r);
    assert(s.len() == 72);
    lemma_u32_round_trip(r.reserved1);
    lemma_u64_round_trip(r.file_eof_index);
    lemma_u64_round_trip(r.amap_last_index);
    lemma_u64_round_trip(r.amap_free_size);
    lemma_u64_round_trip(r.pmap_free_size);
    lemma_u64_round_trip(r.node_btree.block.raw_spec());
    lemma_u64_round_trip(r.node_btree.index);
    lemma_u64_round_trip(r.block_btree.block.raw_spec());
    lemma_u64_round_trip(r.block_btree.index);
    lemma_u16_round_trip(r.reserved3);
    assert(spec_u32_at(s, 0) == r.reserved1);
    assert(spec_u64_at(s, 4) == r.file_eof_index);
    assert(spec_u64_at(s, 12) == r.amap_last_index);
    assert(spec_u64_at(s, 20) == r.amap_free_size);
    assert(spec_u64_at(s, 28) == r.pmap_free_size);
    assert(spec_u64_at(s, 36) == r.node_btree.block.raw_spec());
    assert(spec_u64_at(s, 44) == r.node_btree.index);
    assert(spec_u64_at(s, 52) == r.block_btree.block.raw_spec());
    assert(spec_u64_at(s, 60) == r.block_btree.index);
    assert(s[68] == r.amap_is_valid.to_u8_spec());
    assert(s[69] == r.reserved2);
    assert(spec_u16_at(s, 70) == r.reserved3);
}

/// The root parse reads nothing outside its 72-byte window.
#[verifier::rlimit(60)]
pub proof fn lemma_unicode_root_parse_window(s: Seq<u8>, i: int)
    requires
        0 <= i,
        i + 72 <= s.len(),
    ensures
        spec_parse_unicode_root(s, i) == spec_parse_unicode_root(s.subrange(i, i + 72), 0),
{
    let w = s.subrange(i, i + 72);
    assert(spec_u32_at(w, 0) == spec_u32_at(s, i));
    assert(spec_u64_at(w, 4) == spec_u64_at(s, i + 4));
    assert(spec_u64_at(w, 12) == spec_u64_at(s, i + 12));
    assert(spec_u64_at(w, 20) == spec_u64_at(s, i + 20));
    assert(spec_u64_at(w, 28) == spec_u64_at(s, i + 28));
    assert(spec_u64_at(w, 36) == spec_u64_at(s, i + 36));
    assert(spec_u64_at(w, 44) == spec_u64_at(s, i + 44));
    assert(spec_u64_at(w, 52) == spec_u64_at(s, i + 52));
    assert(spec_u64_at(w, 60) == spec_u64_at(s, i + 60));
    assert(w[68] == s[i + 68] && w[69] == s[i + 69]);
    assert(spec_u16_at(w, 70) == spec_u16_at(s, i + 70));
}

/// ROOT, 32-bit width: 40 bytes on disk.
#[derive(Clone, Copy, Debug, PartialEq, Eq, Structural)]
pub struct AnsiRoot {
    pub reserved1: u32,
    pub file_eof_index: u32,
    pub amap_last_index: u32,
    pub amap_free_size: u32,
    pub pmap_free_size: u32,
    pub node_btree: AnsiBlockRef,
    pub block_btree: AnsiBlockRef,
    pub amap_is_valid: AmapStatus,
    pub reserved2: u8,
    pub reserved3: u16,
}

impl AnsiRoot {
    pub fn new(
        file_eof_index: u32,
        amap_last_index: u32,
        amap_free_size: u32,
        pmap_free_size: u32,
        node_btree: AnsiBlockRef,
        block_btree: AnsiBlockRef,
        amap_is_valid: AmapStatus,
    ) -> (r: Self)
        ensures
            r == (AnsiRoot {
                reserved1: 0u32,
                file_eof_index,
                amap_last_index,
                amap_free_size,
                pmap_free_size,
                node_btree,
                block_btree,
                amap_is_valid,
                reserved2: 0u8,
                reserved3: 0u16,
            }),
    {
        AnsiRoot {
            reserved1: 0,
            file_eof_index,
            amap_last_index,
            amap_free_size,
            pmap_free_size,
            node_btree,
            block_btree,
            amap_is_valid,
            reserved2: 0,
            reserved3: 0,
        }
    }

    pub fn file_eof_index(&self) -> (r: u32)
        ensures
            r == self.file_eof_index,
    {
        self.file_eof_index
    }

    pub fn amap_free_size(&self) -> (r: u32)
        ensures
            r == self.amap_free_size,
    {
        self.amap_free_size
    }

    pub fn node_btree(&self) -> (r: AnsiBlockRef)
        ensures
            r == self.node_btree,
    {
        self.node_btree
    }

    pub fn block_btree(&self) -> (r: AnsiBlockRef)
        ensures
            r == self.block_btree,
    {
        self.block_btree
    }

    pub fn amap_is_valid(&self) -> (r: AmapStatus)
        ensures
            r == self.amap_is_valid,
    {
        self.amap_is_valid
    }

    /// After a successful rebuild: the recomputed free total is recorded
    /// and the allocation maps are marked valid again.
    pub fn reset_free_size(&mut self, free_bytes: u32)
        ensures
            *final(self) == (AnsiRoot {
                amap_free_size: free_bytes,
                amap_is_valid: AmapStatus::Valid,
                ..*old(self)
            }),
    {
        self.amap_free_size = free_bytes;
        self.amap_is_valid = AmapStatus::Valid;
    }
}

/// The root held in 40 bytes at offset `i` of `s`.
pub open spec fn spec_parse_ansi_root(s: Seq<u8>, i: int) -> AnsiRoot
    recommends
        0 <= i,
        i + 40 <= s.len(),
{
    AnsiRoot {
        reserved1: spec_u32_at(s, i),
        file_eof_index: spec_u32_at(s, i + 4),
        amap_last_index: spec_u32_at(s, i + 8),
        amap_free_size: spec_u32_at(s, i + 12),
        pmap_free_size: spec_u32_at(s, i + 16),
        node_btree: spec_parse_ansi_block_ref(s, i + 20),
        block_btree: spec_parse_ansi_block_ref(s, i + 28),
        amap_is_valid: AmapStatus::spec_from_u8(s[i + 36]),
        reserved2: s[i + 37],
        reserved3: spec_u16_at(s, i + 38),
    }
}

pub open spec fn spec_ansi_root_bytes(r: AnsiRoot) -> Seq<u8> {
    spec_u32_bytes(r.reserved1) + spec_u32_bytes(r.file_eof_index) + spec_u32_bytes(
        r.amap_last_index,
    ) + spec_u32_bytes(r.amap_free_size) + spec_u32_bytes(r.pmap_free_size)
        + spec_ansi_block_ref_bytes(r.node_btree) + spec_ansi_block_ref_bytes(r.block_btree)
        + seq![r.amap_is_valid.to_u8_spec(), r.reserved2] + spec_u16_bytes(r.reserved3)
}

pub fn parse_ansi_root(b: &[u8], off: usize) -> (r: AnsiRoot)
    requires
        off + 40 <= b@.len(),
    ensures
        r == spec_parse_ansi_root(b@, off as int),
{
    let n: usize = b.len();
    AnsiRoot {
        reserved1: read_u32(b, off),
        file_eof_index: read_u32(b, off + 4),
        amap_last_index: read_u32(b, off + 8),
        amap_free_size: read_u32(b, off + 12),
        pmap_free_size: read_u32(b, off + 16),
        node_btree: parse_ansi_block_ref(b, off + 20),
        block_btree: parse_ansi_block_ref(b, off + 28),
        amap_is_valid: AmapStatus::from_u8(read_u8(b, off + 36)),
        reserved2: read_u8(b, off + 37),
        reserved3: read_u16(b, off + 38),
    }
}

pub fn serialize_ansi_root(r: &AnsiRoot, out: &mut Vec<u8>)
    ensures
        final(out)@ == old(out)@ + spec_ansi_root_bytes(*r),
        (final(out)@).len() == old(out)@.len() + ANSI_ROOT_SIZE,
{
    write_u32(out, r.reserved1);
    write_u32(out, r.file_eof_index);
    write_u32(out, r.amap_last_index);
    write_u32(out, r.amap_free_size);
    write_u32(out, r.pmap_free_size);
    serialize_ansi_block_ref(&r.node_btree, out);
    serialize_ansi_block_ref(&r.block_btree, out);
    write_u8(out, r.amap_is_valid.to_u8());
    write_u8(out, r.reserved2);
    write_u16(out, r.reserved3);
    proof {
        assert(out@ =~= old(out)@ + spec_ansi_root_bytes(*r));
    }
}

/// Parsing the serialized bytes of a root restores it.
pub proof fn lemma_ansi_root_round_trip(r: AnsiRoot)
    ensures
        spec_parse_ansi_root(spec_ansi_root_bytes(r), 0) == r,
{
    let s = spec_ansi_root_bytes(r);
    assert(s.len() == 40);
    lemma_u32_round_trip(r.reserved1);
    lemma_u32_round_trip(r.file_eof_index);
    lemma_u32_round_trip(r.amap_last_index);
    lemma_u32_round_trip(r.amap_free_size);
    lemma_u32_round_trip(r.pmap_free_size);
    lemma_u32_round_trip(r.node_btree.block.raw_spec());
    lemma_u32_round_trip(r.node_btree.index);
    lemma_u32_round_trip(r.block_btree.block.raw_spec());
    lemma_u32_round_trip(r.block_btree.index);
    lemma_u16_round_trip(r.reserved3);
    assert(spec_u32_at(s, 0) == r.reserved1);
    assert(spec_u32_at(s, 4) == r.file_eof_index);
    assert(spec_u32_at(s, 8) == r.amap_last_index);
    assert(spec_u32_at(s, 12) == r.amap_free_size);
    assert(spec_u32_at(s, 16) == r.pmap_free_size);
    assert(spec_u32_at(s, 20) == r.node_btree.block.raw_spec());
    assert(spec_u32_at(s, 24) == r.node_btree.index);
    assert(spec_u32_at(s, 28) == r.block_btree.block.raw_spec());
    assert(spec_u32_at(s, 32) == r.block_btree.index);
    assert(s[36] == r.amap_is_valid.to_u8_spec());
    assert(s[37] == r.reserved2);
    assert(spec_u16_at(s, 38) == r.reserved3);
}

/// The root parse reads nothing outside its 40-byte window.
pub proof fn lemma_ansi_root_parse_window(s: Seq<u8>, i: int)
    requires
        0 <= i,
        i + 40 <= s.len(),
    ensures
        spec_parse_ansi_root(s, i) == spec_parse_ansi_root(s.subrange(i, i + 40), 0),
{
    let w = s.subrange(i, i + 40);
    assert(spec_u32_at(w, 0) == spec_u32_at(s, i));
    assert(spec_u32_at(w, 4) == spec_u32_at(s, i + 4));
    assert(spec_u32_at(w, 8) == spec_u32_at(s, i + 8));
    assert(spec_u32_at(w, 12) == spec_u32_at(s, i + 12));
    assert(spec_u32_at(w, 16) == spec_u32_at(s, i + 16));
    assert(spec_u32_at(w, 20) == spec_u32_at(s, i + 20));
    assert(spec_u32_at(w, 24) == spec_u32_at(s, i + 24));
    assert(spec_u32_at(w, 28) == spec_u32_at(s, i + 28));
    assert(spec_u32_at(w, 32) == spec_u32_at(s, i + 32));
    assert(w[36] == s[i + 36] && w[37] == s[i + 37]);
    assert(spec_u16_at(w, 38) == spec_u16_at(s, i + 38));
}

} // verus!
