//! BID (Block ID): a bit-packed block identifier. Bit 1 tells an internal
//! (tree) block from a leaf data block, bits 2 and up hold the index, and
//! bit 0 is a mutation counter that equality and lookups ignore.

use vstd::prelude::*;
use crate::error::{NdbError, NdbResult};

verus! {

/// The largest index a 64-bit block id can carry (62 usable bits).
pub const MAX_UNICODE_BLOCK_INDEX: u64 = 0x3FFF_FFFF_FFFF_FFFF;

/// The largest index a 32-bit block id can carry (30 usable bits).
pub const MAX_ANSI_BLOCK_INDEX: u32 = 0x3FFF_FFFF;

/// A 64-bit block id, stored little-endian on disk.
#[derive(Clone, Copy, Debug, Default, PartialEq, Eq, Structural)]
pub struct UnicodeBlockId(pub u64);

impl UnicodeBlockId {
    /// The raw 64-bit value, as stored on disk.
    pub open spec fn raw_spec(&self) -> u64 {
        self.0
    }

    pub open spec fn is_internal_spec(&self) -> bool {
        self.raw_spec() & 0x2 == 0x2
    }

    pub open spec fn index_spec(&self) -> u64 {
        self.raw_spec() >> 2
    }

    /// The raw value with the mutation bit cleared: the form used as a
    /// B-tree search key and in the cyclic codec key.
    pub open spec fn masked_spec(&self) -> u64 {
        self.raw_spec() & 0xFFFF_FFFF_FFFF_FFFE
    }

    /// Packs `index` above the `is_internal` flag; the mutation bit starts
    /// clear. Indices beyond the 62 usable bits are rejected.
    pub fn new(is_internal: bool, index: u64) -> (r: NdbResult<Self>)
        ensures
            index <= MAX_UNICODE_BLOCK_INDEX ==> (r matches Ok(b)
                && b.index_spec() == index
                && b.is_internal_spec() == is_internal
                && b.raw_spec() & 0x1 == 0),
            index > MAX_UNICODE_BLOCK_INDEX ==> r == NdbResult::<Self>::Err(
                NdbError::InvalidUnicodeBlockIndex(index),
            ),
    {
        if index > MAX_UNICODE_BLOCK_INDEX {
            return Err(NdbError::InvalidUnicodeBlockIndex(index));
        }
        let tag: u64 = if is_internal { 0x2 } else { 0x0 };
        let raw = (index << 2u64) | tag;
        proof {
            assert((((index << 2u64) | 0x2u64) >> 2u64) == index
                && (((index << 2u64) | 0x0u64) >> 2u64) == index
                && (((index << 2u64) | 0x2u64) & 0x2 == 0x2)
                && (((index << 2u64) | 0x0u64) & 0x2 == 0x0)
                && (((index << 2u64) | 0x2u64) & 0x1 == 0)
                && (((index << 2u64) | 0x0u64) & 0x1 == 0)) by (bit_vector)
                requires
                    index <= 0x3FFF_FFFF_FFFF_FFFFu64,
            ;
        }
        Ok(UnicodeBlockId(raw))
    }

    pub fn is_internal(&self) -> (r: bool)
        ensures
            r == self.is_internal_spec(),
    {
        self.0 & 0x2 == 0x2
    }

    pub fn index(&self) -> (r: u64)
        ensures
            r == self.index_spec(),
    {
        self.0 >> 2u64
    }

    /// Rebuilds an id from its raw on-disk value.
    pub fn from_raw(value: u64) -> (r: Self)
        ensures
            r.raw_spec() == value,
    {
        UnicodeBlockId(value)
    }

    pub fn to_raw(&self) -> (r: u64)
        ensures
            r == self.raw_spec(),
    {
        self.0
    }

    /// The raw value with the mutation bit masked off.
    pub fn masked(&self) -> (r: u64)
        ensures
            r == self.masked_spec(),
    {
        self.0 & 0xFFFF_FFFF_FFFF_FFFE
    }
}

/// A 32-bit block id, stored little-endian on disk.
#[derive(Clone, Copy, Debug, Default, PartialEq, Eq, Structural)]
pub struct AnsiBlockId(pub u32);

impl AnsiBlockId {
    /// The raw 32-bit value, as stored on disk.
    pub open spec fn raw_spec(&self) -> u32 {
        self.0
    }

    pub open spec fn is_internal_spec(&self) -> bool {
        self.raw_spec() & 0x2 == 0x2
    }

    pub open spec fn index_spec(&self) -> u32 {
        self.raw_spec() >> 2
    }

    /// The raw value with the mutation bit cleared: the form used as a
    /// B-tree search key and in the cyclic codec key.
    pub open spec fn masked_spec(&self) -> u32 {
        self.raw_spec() & 0xFFFF_FFFE
    }

    /// Packs `index` above the `is_internal` flag; the mutation bit starts
    /// clear. Indices beyond the 30 usable bits are rejected.
    pub fn new(is_internal: bool, index: u32) -> (r: NdbResult<Self>)
        ensures
            index <= MAX_ANSI_BLOCK_INDEX ==> (r matches Ok(b)
                && b.index_spec() == index
                && b.is_internal_spec() == is_internal
                && b.raw_spec() & 0x1 == 0),
            index > MAX_ANSI_BLOCK_INDEX ==> r == NdbResult::<Self>::Err(
                NdbError::InvalidAnsiBlockIndex(index),
            ),
    {
        if index > MAX_ANSI_BLOCK_INDEX {
            return Err(NdbError::InvalidAnsiBlockIndex(index));
        }
        let tag: u32 = if is_internal { 0x2 } else { 0x0 };
        let raw = (index << 2u32) | tag;
        proof {
            assert((((index << 2u32) | 0x2u32) >> 2u32) == index
                && (((index << 2u32) | 0x0u32) >> 2u32) == index
                && (((index << 2u32) | 0x2u32) & 0x2 == 0x2)
                && (((index << 2u32) | 0x0u32) & 0x2 == 0x0)
                && (((index << 2u32) | 0x2u32) & 0x1 == 0)
                && (((index << 2u32) | 0x0u32) & 0x1 == 0)) by (bit_vector)
                requires
                    index <= 0x3FFF_FFFFu32,
            ;
        }
        Ok(AnsiBlockId(raw))
    }

    pub fn is_internal(&self) -> (r: bool)
        ensures
            r == self.is_internal_spec(),
    {
        self.0 & 0x2 == 0x2
    }

    pub fn index(&self) -> (r: u32)
        ensures
            r == self.index_spec(),
    {
        self.0 >> 2u32
    }

    /// Rebuilds an id from its raw on-disk value.
    pub fn from_raw(value: u32) -> (r: Self)
        ensures
            r.raw_spec() == value,
    {
        AnsiBlockId(value)
    }

    pub fn to_raw(&self) -> (r: u32)
        ensures
            r == self.raw_spec(),
    {
        self.0
    }

    /// The raw value with the mutation bit masked off.
    pub fn masked(&self) -> (r: u32)
        ensures
            r == self.masked_spec(),
    {
        self.0 & 0xFFFF_FFFE
    }
}

} // verus!
