//! The sub-node tree: a per-node map from child node ids to block ids,
//! stored as SL (leaf) and SI (intermediate) blocks. Descent through an
//! intermediate block keeps the last entry of the prefix whose node ids
//! are at most the target — not the greatest such entry overall.

use vstd::prelude::*;
use crate::bytes::{read_u8, read_u16, read_u32, read_u64, spec_u16_at, spec_u32_at, spec_u64_at};
use crate::crc::{spec_crc, compute_crc};
use crate::node_id::NodeId;
use crate::block_id::{UnicodeBlockId, AnsiBlockId};
use crate::block::{
    MAX_BLOCK_SIZE, UNICODE_BLOCK_TRAILER_SIZE, ANSI_BLOCK_TRAILER_SIZE, spec_block_size,
    block_size, BlockTrailer, UnicodeBlockTrailer, AnsiBlockTrailer,
    spec_parse_unicode_block_trailer, spec_parse_ansi_block_trailer, parse_unicode_block_trailer,
    parse_ansi_block_trailer,
};
use crate::btree::{
    UnicodeBlockBTree, AnsiBlockBTree, UnicodeBlockBTreeEntry, AnsiBlockBTreeEntry,
};
use crate::error::{NdbError, NdbResult};

verus! {

broadcast use vstd::slice::group_slice_axioms;

/// The header of a sub-node tree block: type byte 0x02, level (0 for SL,
/// more for SI) and entry count; the 64-bit width adds four zero padding
/// bytes.
#[derive(Clone, Copy, Debug, Default, PartialEq, Eq, Structural)]
pub struct UnicodeSubNodeTreeBlockHeader {
    pub level: u8,
    pub entry_count: u16,
}

impl UnicodeSubNodeTreeBlockHeader {
    pub fn new(level: u8, entry_count: u16) -> (r: Self)
        ensures
            r == (UnicodeSubNodeTreeBlockHeader { level, entry_count }),
    {
        UnicodeSubNodeTreeBlockHeader { level, entry_count }
    }

    pub fn level(&self) -> (r: u8)
        ensures
            r == self.level,
    {
        self.level
    }

    pub fn entry_count(&self) -> (r: u16)
        ensures
            r == self.entry_count,
    {
        self.entry_count
    }
}

/// The 8-byte header at `i`: type byte 0x02 and zero padding required.
pub open spec fn spec_parse_unicode_sub_node_header(s: Seq<u8>, i: int) -> NdbResult<
    UnicodeSubNodeTreeBlockHeader,
>
    recommends
        0 <= i,
        i + 8 <= s.len(),
{
    if s[i] != 0x02 {
        Err(NdbError::InvalidInternalBlockType(s[i]))
    } else if spec_u32_at(s, i + 4) != 0 {
        Err(NdbError::InvalidSubNodeBlockPadding(spec_u32_at(s, i + 4)))
    } else {
        Ok((UnicodeSubNodeTreeBlockHeader { level: s[i + 1], entry_count: spec_u16_at(s, i + 2) }))
    }
}

pub fn parse_unicode_sub_node_header(b: &[u8], off: usize) -> (r: NdbResult<
    UnicodeSubNodeTreeBlockHeader,
>)
    requires
        off + 8 <= b@.len(),
    ensures
        r == spec_parse_unicode_sub_node_header(b@, off as int),
{
    let n: usize = b.len();
    let tb = read_u8(b, off);
    if tb != 0x02 {
        return Err(NdbError::InvalidInternalBlockType(tb));
    }
    let level = read_u8(b, off + 1);
    let entry_count = read_u16(b, off + 2);
    let padding = read_u32(b, off + 4);
    if padding != 0 {
        return Err(NdbError::InvalidSubNodeBlockPadding(padding));
    }
    Ok(UnicodeSubNodeTreeBlockHeader { level, entry_count })
}

/// The header of a sub-node tree block, 32-bit width: 4 bytes, no padding.
#[derive(Clone, Copy, Debug, Default, PartialEq, Eq, Structural)]
pub struct AnsiSubNodeTreeBlockHeader {
    pub level: u8,
    pub entry_count: u16,
}

impl AnsiSubNodeTreeBlockHeader {
    pub fn new(level: u8, entry_count: u16) -> (r: Self)
        ensures
            r == (AnsiSubNodeTreeBlockHeader { level, entry_count }),
    {
        AnsiSubNodeTreeBlockHeader { level, entry_count }
    }

    pub fn level(&self) -> (r: u8)
        ensures
            r == self.level,
    {
        self.level
    }

    pub fn entry_count(&self) -> (r: u16)
        ensures
            r == self.entry_count,
    {
        self.entry_count
    }
}

pub open spec fn spec_parse_ansi_sub_node_header(s: Seq<u8>, i: int) -> NdbResult<
    AnsiSubNodeTreeBlockHeader,
>
    recommends
        0 <= i,
        i + 4 <= s.len(),
{
    if s[i] != 0x02 {
        Err(NdbError::InvalidInternalBlockType(s[i]))
    } else {
        Ok((AnsiSubNodeTreeBlockHeader { level: s[i + 1], entry_count: spec_u16_at(s, i + 2) }))
    }
}

pub fn parse_ansi_sub_node_header(b: &[u8], off: usize) -> (r: NdbResult<
    AnsiSubNodeTreeBlockHeader,
>)
    requires
        off + 4 <= b@.len(),
    ensures
        r == spec_parse_ansi_sub_node_header(b@, off as int),
{
    let n: usize = b.len();
    let tb = read_u8(b, off);
    if tb != 0x02 {
        return Err(NdbError::InvalidInternalBlockType(tb));
    }
    let level = read_u8(b, off + 1);
    let entry_count = read_u16(b, off + 2);
    Ok(AnsiSubNodeTreeBlockHeader { level, entry_count })
}

/// SIENTRY: a child node id and the block holding its subtree.
#[derive(Clone, Copy, Debug, Default, PartialEq, Eq, Structural)]
pub struct IntermediateSubNodeTreeEntry<Block> {
    pub node: NodeId,
    pub block: Block,
}

impl<Block: Copy> IntermediateSubNodeTreeEntry<Block> {
    pub fn new(node: NodeId, block: Block) -> (r: Self)
        ensures
            r == (IntermediateSubNodeTreeEntry { node, block }),
    {
        IntermediateSubNodeTreeEntry { node, block }
    }

    pub fn node(&self) -> (r: NodeId)
        ensures
            r == self.node,
    {
        self.node
    }

    pub fn block(&self) -> (r: Block)
        ensures
            r == self.block,
    {
        self.block
    }
}

pub type UnicodeIntermediateSubNodeTreeEntry = IntermediateSubNodeTreeEntry<UnicodeBlockId>;

pub type AnsiIntermediateSubNodeTreeEntry = IntermediateSubNodeTreeEntry<AnsiBlockId>;

/// SLENTRY: a child node id, its data block, and an optional nested
/// sub-node block (all-zero bits on disk mean none).
#[derive(Clone, Copy, Debug, Default, PartialEq, Eq, Structural)]
pub struct LeafSubNodeTreeEntry<Block> {
    pub node: NodeId,
    pub block: Block,
    pub sub_node: Option<Block>,
}

impl<Block: Copy> LeafSubNodeTreeEntry<Block> {
    pub fn new(node: NodeId, block: Block, sub_node: Option<Block>) -> (r: Self)
        ensures
            r == (LeafSubNodeTreeEntry { node, block, sub_node }),
    {
        LeafSubNodeTreeEntry { node, block, sub_node }
    }

    pub fn node(&self) -> (r: NodeId)
        ensures
            r == self.node,
    {
        self.node
    }

    pub fn block(&self) -> (r: Block)
        ensures
            r == self.block,
    {
        self.block
    }

    pub fn sub_node(&self) -> (r: Option<Block>)
        ensures
            r == self.sub_node,
    {
        self.sub_node
    }
}

pub type UnicodeLeafSubNodeTreeEntry = LeafSubNodeTreeEntry<UnicodeBlockId>;

pub type AnsiLeafSubNodeTreeEntry = LeafSubNodeTreeEntry<AnsiBlockId>;

/// SLBLOCK / SIBLOCK: a header, its entries, and a trailer whose block id
/// must be internal.
#[derive(Clone, Debug, PartialEq, Eq)]
pub struct SubNodeTreeBlock<Header, Entry, Trailer> {
    pub header: Header,
    pub entries: Vec<Entry>,
    pub trailer: Trailer,
}

/// The mathematical content of a sub-node tree block.
#[verifier::ext_equal]
pub ghost struct SubNodeTreeBlockModel<Header, Entry, Trailer> {
    pub header: Header,
    pub entries: Seq<Entry>,
    pub trailer: Trailer,
}

impl<Header, Entry, Trailer> View for SubNodeTreeBlock<Header, Entry, Trailer> {
    type V = SubNodeTreeBlockModel<Header, Entry, Trailer>;

    open spec fn view(&self) -> SubNodeTreeBlockModel<Header, Entry, Trailer> {
        SubNodeTreeBlockModel { header: self.header, entries: self.entries@, trailer: self.trailer }
    }
}

impl<Header, Entry, Trailer: BlockTrailer> SubNodeTreeBlock<Header, Entry, Trailer> {
    /// A sub-node tree block's trailer must carry an internal block id.
    pub fn new(header: Header, entries: Vec<Entry>, trailer: Trailer) -> (r: NdbResult<Self>)
        ensures
            r matches Ok(blk) ==> (trailer.is_internal_spec() && blk@ == (SubNodeTreeBlockModel {
                header,
                entries: entries@,
                trailer,
            })),
            r matches Err(e) ==> (!trailer.is_internal_spec() && e == trailer.id_error_spec()),
    {
        match trailer.verify_block_id(true) {
            Ok(_) => Ok(SubNodeTreeBlock { header, entries, trailer }),
            Err(e) => Err(e),
        }
    }
}

pub type UnicodeIntermediateSubNodeTreeBlock = SubNodeTreeBlock<
    UnicodeSubNodeTreeBlockHeader,
    UnicodeIntermediateSubNodeTreeEntry,
    UnicodeBlockTrailer,
>;

pub type UnicodeLeafSubNodeTreeBlock = SubNodeTreeBlock<
    UnicodeSubNodeTreeBlockHeader,
    UnicodeLeafSubNodeTreeEntry,
    UnicodeBlockTrailer,
>;

pub type AnsiIntermediateSubNodeTreeBlock = SubNodeTreeBlock<
    AnsiSubNodeTreeBlockHeader,
    AnsiIntermediateSubNodeTreeEntry,
    AnsiBlockTrailer,
>;

pub type AnsiLeafSubNodeTreeBlock = SubNodeTreeBlock<
    AnsiSubNodeTreeBlockHeader,
    AnsiLeafSubNodeTreeEntry,
    AnsiBlockTrailer,
>;

pub open spec fn spec_unicode_si_entries(s: Seq<u8>, off: int, count: int) -> Seq<
    UnicodeIntermediateSubNodeTreeEntry,
> {
    Seq::new(count as nat, |k: int|
        (IntermediateSubNodeTreeEntry {
            node: NodeId((spec_u64_at(s, off + 16 * k) & 0xFFFF_FFFF) as u32),
            block: UnicodeBlockId(spec_u64_at(s, off + 16 * k + 8)),
        }))
}

pub open spec fn spec_unicode_sl_entries(s: Seq<u8>, off: int, count: int) -> Seq<
    UnicodeLeafSubNodeTreeEntry,
> {
    Seq::new(count as nat, |k: int|
        {
            let sv = spec_u64_at(s, off + 24 * k + 16);
            (LeafSubNodeTreeEntry {
                node: NodeId((spec_u64_at(s, off + 24 * k) & 0xFFFF_FFFF) as u32),
                block: UnicodeBlockId(spec_u64_at(s, off + 24 * k + 8)),
                sub_node: if sv & 0xFFFF_FFFF_FFFF_FFFE != 0 {
                    Some(UnicodeBlockId(sv))
                } else {
                    None
                },
            })
        })
}

pub open spec fn spec_ansi_si_entries(s: Seq<u8>, off: int, count: int) -> Seq<
    AnsiIntermediateSubNodeTreeEntry,
> {
    Seq::new(count as nat, |k: int|
        (IntermediateSubNodeTreeEntry {
            node: NodeId(spec_u32_at(s, off + 8 * k)),
            block: AnsiBlockId(spec_u32_at(s, off + 8 * k + 4)),
        }))
}

pub open spec fn spec_ansi_sl_entries(s: Seq<u8>, off: int, count: int) -> Seq<
    AnsiLeafSubNodeTreeEntry,
> {
    Seq::new(count as nat, |k: int|
        {
            let sv = spec_u32_at(s, off + 12 * k + 8);
            (LeafSubNodeTreeEntry {
                node: NodeId(spec_u32_at(s, off + 12 * k)),
                block: AnsiBlockId(spec_u32_at(s, off + 12 * k + 4)),
                sub_node: if sv & 0xFFFF_FFFE != 0 {
                    Some(AnsiBlockId(sv))
                } else {
                    None
                },
            })
        })
}

/// A parsed sub-node tree block: SI fan-out or SL leaf.
#[derive(Clone, Debug, PartialEq, Eq)]
pub enum UnicodeSubNodeTree {
    Intermediate(UnicodeIntermediateSubNodeTreeBlock),
    Leaf(UnicodeLeafSubNodeTreeBlock),
}

pub ghost enum UnicodeSubNodeTreeModel {
    Intermediate(
        SubNodeTreeBlockModel<
            UnicodeSubNodeTreeBlockHeader,
            UnicodeIntermediateSubNodeTreeEntry,
            UnicodeBlockTrailer,
        >,
    ),
    Leaf(
        SubNodeTreeBlockModel<
            UnicodeSubNodeTreeBlockHeader,
            UnicodeLeafSubNodeTreeEntry,
            UnicodeBlockTrailer,
        >,
    ),
}

impl View for UnicodeSubNodeTree {
    type V = UnicodeSubNodeTreeModel;

    open spec fn view(&self) -> UnicodeSubNodeTreeModel {
        match self {
            UnicodeSubNodeTree::Intermediate(t) => UnicodeSubNodeTreeModel::Intermediate(t@),
            UnicodeSubNodeTree::Leaf(t) => UnicodeSubNodeTreeModel::Leaf(t@),
        }
    }
}

/// The sub-node tree block whose footprint starts at `off` and whose
/// logical size is `size`: the 0x02 header chooses SL (level 0) or SI,
/// the entries must fit the payload, the trailer must be internal, and
/// the payload CRC must match.
pub open spec fn spec_parse_unicode_sub_node_tree(s: Seq<u8>, off: int, size: u16) -> NdbResult<
    UnicodeSubNodeTreeModel,
> {
    if !(8 <= size <= MAX_BLOCK_SIZE - UNICODE_BLOCK_TRAILER_SIZE) {
        Err(NdbError::InvalidBlockSize(size))
    } else {
        let fp = spec_block_size((size + 16) as u16) as int;
        if !(0 <= off && off + fp <= s.len()) {
            Err(NdbError::InvalidBlockSize(size))
        } else {
            match spec_parse_unicode_sub_node_header(s, off) {
                Err(e) => Err(e),
                Ok(h) => {
                    let esize = if h.level > 0 {
                        16int
                    } else {
                        24int
                    };
                    if h.entry_count * esize > size - 8 {
                        Err(NdbError::InvalidInternalBlockEntryCount(h.entry_count))
                    } else {
                        match spec_parse_unicode_block_trailer(s, off + fp - 16) {
                            Err(e) => Err(e),
                            Ok(t) => if !t.block_id.is_internal_spec() {
                                Err(
                                    NdbError::InvalidUnicodeBlockTrailerId(
                                        t.block_id.masked_spec(),
                                    ),
                                )
                            } else {
                                let c = spec_crc(0, s.subrange(off, off + size));
                                if c != t.crc {
                                    Err(NdbError::InvalidBlockCrc(c))
                                } else if h.level > 0 {
                                    Ok(
                                        UnicodeSubNodeTreeModel::Intermediate(
                                            (SubNodeTreeBlockModel {
                                                header: h,
                                                entries: spec_unicode_si_entries(
                                                    s,
                                                    off + 8,
                                                    h.entry_count as int,
                                                ),
                                                trailer: t,
                                            }),
                                        ),
                                    )
                                } else {
                                    Ok(
                                        UnicodeSubNodeTreeModel::Leaf(
                                            (SubNodeTreeBlockModel {
                                                header: h,
                                                entries: spec_unicode_sl_entries(
                                                    s,
                                                    off + 8,
                                                    h.entry_count as int,
                                                ),
                                                trailer: t,
                                            }),
                                        ),
                                    )
                                }
                            },
                        }
                    }
                },
            }
        }
    }
}

pub fn parse_unicode_sub_node_tree(b: &[u8], off: usize, size: u16) -> (r: NdbResult<
    UnicodeSubNodeTree,
>)
    ensures
        (r matches Ok(p) && spec_parse_unicode_sub_node_tree(b@, off as int, size) matches Ok(m)
            && p@ == m) || (r matches Err(e) && spec_parse_unicode_sub_node_tree(
            b@,
            off as int,
            size,
        ) == NdbResult::<UnicodeSubNodeTreeModel>::Err(e)),
    {
    let n: usize = b.len();
    if size < 8 || size > MAX_BLOCK_SIZE - UNICODE_BLOCK_TRAILER_SIZE {
        return Err(NdbError::InvalidBlockSize(size));
    }
    let fp: usize = block_size(size + 16) as usize;
    if off > n || fp > n - off {
        return Err(NdbError::InvalidBlockSize(size));
    }
    let h = match parse_unicode_sub_node_header(b, off) {
        Ok(h) => h,
        Err(e) => {
            return Err(e);
        },
    };
    let esize: usize = if h.level > 0 {
        16
    } else {
        24
    };
    if h.entry_count as usize * esize > size as usize - 8 {
        return Err(NdbError::InvalidInternalBlockEntryCount(h.entry_count));
    }
    let t = match parse_unicode_block_trailer(b, off + fp - 16) {
        Ok(t) => t,
        Err(e) => {
            return Err(e);
        },
    };
    if !t.block_id.is_internal() {
        return Err(NdbError::InvalidUnicodeBlockTrailerId(t.block_id.masked()));
    }
    let c = compute_crc(0, vstd::slice::slice_subrange(b, off, off + size as usize));
    if c != t.crc {
        return Err(NdbError::InvalidBlockCrc(c));
    }
    let count = h.entry_count as usize;
    if h.level > 0 {
        let mut entries: Vec<UnicodeIntermediateSubNodeTreeEntry> = Vec::new();
        let mut k: usize = 0;
        while k < count
            invariant
                k <= count,
                off + 8 + count * 16 <= b@.len(),
                entries@ =~= spec_unicode_si_entries(b@, off + 8 as int, k as int),
            decreases count - k,
        {
            let bn: usize = b.len();
            let node = NodeId::from_raw((read_u64(b, off + 8 + 16 * k) & 0xFFFF_FFFF) as u32);
            let block = UnicodeBlockId::from_raw(read_u64(b, off + 8 + 16 * k + 8));
            entries.push(IntermediateSubNodeTreeEntry { node, block });
            k = k + 1;
            proof {
                assert(entries@ =~= spec_unicode_si_entries(b@, off + 8 as int, k as int));
            }
        }
        proof {
            assert(entries@ =~= spec_unicode_si_entries(b@, off + 8 as int, count as int));
        }
        Ok(
            UnicodeSubNodeTree::Intermediate(
                SubNodeTreeBlock { header: h, entries, trailer: t },
            ),
        )
    } else {
        let mut entries: Vec<UnicodeLeafSubNodeTreeEntry> = Vec::new();
        let mut k: usize = 0;
        while k < count
            invariant
                k <= count,
                off + 8 + count * 24 <= b@.len(),
                entries@ =~= spec_unicode_sl_entries(b@, off + 8 as int, k as int),
            decreases count - k,
        {
            let bn: usize = b.len();
            let node = NodeId::from_raw((read_u64(b, off + 8 + 24 * k) & 0xFFFF_FFFF) as u32);
            let block = UnicodeBlockId::from_raw(read_u64(b, off + 8 + 24 * k + 8));
            let sv = read_u64(b, off + 8 + 24 * k + 16);
            let sub_node = if sv & 0xFFFF_FFFF_FFFF_FFFE != 0 {
                Some(UnicodeBlockId::from_raw(sv))
            } else {
                None
            };
            entries.push(LeafSubNodeTreeEntry { node, block, sub_node });
            k = k + 1;
            proof {
                assert(entries@ =~= spec_unicode_sl_entries(b@, off + 8 as int, k as int));
            }
        }
        proof {
            assert(entries@ =~= spec_unicode_sl_entries(b@, off + 8 as int, count as int));
        }
        Ok(UnicodeSubNodeTree::Leaf(SubNodeTreeBlock { header: h, entries, trailer: t }))
    }
}

/// A parsed sub-node tree block, 32-bit width.
#[derive(Clone, Debug, PartialEq, Eq)]
pub enum AnsiSubNodeTree {
    Intermediate(AnsiIntermediateSubNodeTreeBlock),
    Leaf(AnsiLeafSubNodeTreeBlock),
}

pub ghost enum AnsiSubNodeTreeModel {
    Intermediate(
        SubNodeTreeBlockModel<
            AnsiSubNodeTreeBlockHeader,
            AnsiIntermediateSubNodeTreeEntry,
            AnsiBlockTrailer,
        >,
    ),
    Leaf(
        SubNodeTreeBlockModel<
            AnsiSubNodeTreeBlockHeader,
            AnsiLeafSubNodeTreeEntry,
            AnsiBlockTrailer,
        >,
    ),
}

impl View for AnsiSubNodeTree {
    type V = AnsiSubNodeTreeModel;

    open spec fn view(&self) -> AnsiSubNodeTreeModel {
        match self {
            AnsiSubNodeTree::Intermediate(t) => AnsiSubNodeTreeModel::Intermediate(t@),
            AnsiSubNodeTree::Leaf(t) => AnsiSubNodeTreeModel::Leaf(t@),
        }
    }
}

/// The sub-node tree block at `off`, 32-bit width.
pub open spec fn spec_parse_ansi_sub_node_tree(s: Seq<u8>, off: int, size: u16) -> NdbResult<
    AnsiSubNodeTreeModel,
> {
    if !(4 <= size <= MAX_BLOCK_SIZE - ANSI_BLOCK_TRAILER_SIZE) {
        Err(NdbError::InvalidBlockSize(size))
    } else {
        let fp = spec_block_size((size + 12) as u16) as int;
        if !(0 <= off && off + fp <= s.len()) {
            Err(NdbError::InvalidBlockSize(size))
        } else {
            match spec_parse_ansi_sub_node_header(s, off) {
                Err(e) => Err(e),
                Ok(h) => {
                    let esize = if h.level > 0 {
                        8int
                    } else {
                        12int
                    };
                    if h.entry_count * esize > size - 4 {
                        Err(NdbError::InvalidInternalBlockEntryCount(h.entry_count))
                    } else {
                        match spec_parse_ansi_block_trailer(s, off + fp - 12) {
                            Err(e) => Err(e),
                            Ok(t) => if !t.block_id.is_internal_spec() {
                                Err(NdbError::InvalidAnsiBlockTrailerId(t.block_id.masked_spec()))
                            } else {
                                let c = spec_crc(0, s.subrange(off, off + size));
                                if c != t.crc {
                                    Err(NdbError::InvalidBlockCrc(c))
                                } else if h.level > 0 {
                                    Ok(
                                        AnsiSubNodeTreeModel::Intermediate(
                                            (SubNodeTreeBlockModel {
                                                header: h,
                                                entries: spec_ansi_si_entries(
                                                    s,
                                                    off + 4,
                                                    h.entry_count as int,
                                                ),
                                                trailer: t,
                                            }),
                                        ),
                                    )
                                } else {
                                    Ok(
                                        AnsiSubNodeTreeModel::Leaf(
                                            (SubNodeTreeBlockModel {
                                                header: h,
                                                entries: spec_ansi_sl_entries(
                                                    s,
                                                    off + 4,
                                                    h.entry_count as int,
                                                ),
                                                trailer: t,
                                            }),
                                        ),
                                    )
                                }
                            },
                        }
                    }
                },
            }
        }
    }
}

pub fn parse_ansi_sub_node_tree(b: &[u8], off: usize, size: u16) -> (r: NdbResult<AnsiSubNodeTree>)
    ensures
        (r matches Ok(p) && spec_parse_ansi_sub_node_tree(b@, off as int, size) matches Ok(m)
            && p@ == m) || (r matches Err(e) && spec_parse_ansi_sub_node_tree(b@, off as int, size)
            == NdbResult::<AnsiSubNodeTreeModel>::Err(e)),
    {
    let n: usize = b.len();
    if size < 4 || size > MAX_BLOCK_SIZE - ANSI_BLOCK_TRAILER_SIZE {
        return Err(NdbError::InvalidBlockSize(size));
    }
    let fp: usize = block_size(size + 12) as usize;
    if off > n || fp > n - off {
        return Err(NdbError::InvalidBlockSize(size));
    }
    let h = match parse_ansi_sub_node_header(b, off) {
        Ok(h) => h,
        Err(e) => {
            return Err(e);
        },
    };
    let esize: usize = if h.level > 0 {
        8
    } else {
        12
    };
    if h.entry_count as usize * esize > size as usize - 4 {
        return Err(NdbError::InvalidInternalBlockEntryCount(h.entry_count));
    }
    let t = match parse_ansi_block_trailer(b, off + fp - 12) {
        Ok(t) => t,
        Err(e) => {
            return Err(e);
        },
    };
    if !t.block_id.is_internal() {
        return Err(NdbError::InvalidAnsiBlockTrailerId(t.block_id.masked()));
    }
    let c = compute_crc(0, vstd::slice::slice_subrange(b, off, off + size as usize));
    if c != t.crc {
        return Err(NdbError::InvalidBlockCrc(c));
    }
    let count = h.entry_count as usize;
    if h.level > 0 {
        let mut entries: Vec<AnsiIntermediateSubNodeTreeEntry> = Vec::new();
        let mut k: usize = 0;
        while k < count
            invariant
                k <= count,
                off + 4 + count * 8 <= b@.len(),
                entries@ =~= spec_ansi_si_entries(b@, off + 4 as int, k as int),
            decreases count - k,
        {
            let bn: usize = b.len();
            let node = NodeId::from_raw(read_u32(b, off + 4 + 8 * k));
            let block = AnsiBlockId::from_raw(read_u32(b, off + 4 + 8 * k + 4));
            entries.push(IntermediateSubNodeTreeEntry { node, block });
            k = k + 1;
            proof {
                assert(entries@ =~= spec_ansi_si_entries(b@, off + 4 as int, k as int));
            }
        }
        proof {
            assert(entries@ =~= spec_ansi_si_entries(b@, off + 4 as int, count as int));
        }
        Ok(AnsiSubNodeTree::Intermediate(SubNodeTreeBlock { header: h, entries, trailer: t }))
    } else {
        let mut entries: Vec<AnsiLeafSubNodeTreeEntry> = Vec::new();
        let mut k: usize = 0;
        while k < count
            invariant
                k <= count,
                off + 4 + count * 12 <= b@.len(),
                entries@ =~= spec_ansi_sl_entries(b@, off + 4 as int, k as int),
            decreases count - k,
        {
            let bn: usize = b.len();
            let node = NodeId::from_raw(read_u32(b, off + 4 + 12 * k));
            let block = AnsiBlockId::from_raw(read_u32(b, off + 4 + 12 * k + 4));
            let sv = read_u32(b, off + 4 + 12 * k + 8);
            let sub_node = if sv & 0xFFFF_FFFE != 0 {
                Some(AnsiBlockId::from_raw(sv))
            } else {
                None
            };
            entries.push(LeafSubNodeTreeEntry { node, block, sub_node });
            k = k + 1;
            proof {
                assert(entries@ =~= spec_ansi_sl_entries(b@, off + 4 as int, k as int));
            }
        }
        proof {
            assert(entries@ =~= spec_ansi_sl_entries(b@, off + 4 as int, count as int));
        }
        Ok(AnsiSubNodeTree::Leaf(SubNodeTreeBlock { header: h, entries, trailer: t }))
    }
}


/// The length of the longest prefix whose node ids are at most `nid`:
/// exactly what scanning entries in order while they are at most the
/// target visits. On an unsorted block this differs from the greatest
/// such entry overall, and the format's descent uses the prefix rule.
pub open spec fn spec_unicode_si_prefix_len(
    entries: Seq<UnicodeIntermediateSubNodeTreeEntry>,
    nid: u32,
) -> int
    decreases entries.len(),
{
    if entries.len() == 0 || entries[0].node.raw_spec() > nid {
        0
    } else {
        1 + spec_unicode_si_prefix_len(entries.skip(1), nid)
    }
}

pub proof fn lemma_unicode_si_prefix_len_bounds(
    entries: Seq<UnicodeIntermediateSubNodeTreeEntry>,
    nid: u32,
)
    ensures
        0 <= spec_unicode_si_prefix_len(entries, nid) <= entries.len(),
    decreases entries.len(),
{
    if entries.len() > 0 && entries[0].node.raw_spec() <= nid {
        lemma_unicode_si_prefix_len_bounds(entries.skip(1), nid);
    }
}

fn unicode_si_prefix_len(entries: &Vec<UnicodeIntermediateSubNodeTreeEntry>, nid: u32) -> (r:
    usize)
    ensures
        r as int == spec_unicode_si_prefix_len(entries@, nid),
        r <= entries@.len(),
{
    let n = entries.len();
    proof {
        assert(entries@.skip(0) =~= entries@);
    }
    let mut i: usize = 0;
    let mut plen: usize = 0;
    let mut stopped = false;
    while i < n
        invariant
            i <= n,
            n == entries@.len(),
            plen <= i,
            stopped ==> spec_unicode_si_prefix_len(entries@, nid) == plen,
            !stopped ==> (plen == i && spec_unicode_si_prefix_len(entries@, nid) == i
                + spec_unicode_si_prefix_len(entries@.skip(i as int), nid)),
        decreases n - i,
    {
        if !stopped {
            proof {
                let rest = entries@.skip(i as int);
                assert(rest[0] == entries@[i as int]);
                assert(rest.skip(1) =~= entries@.skip(i + 1 as int));
            }
            if entries[i].node.raw() <= nid {
                plen = i + 1;
            } else {
                stopped = true;
            }
        }
        i = i + 1;
    }
    proof {
        if !stopped {
            assert(entries@.skip(n as int).len() == 0);
        }
    }
    plen
}

/// The first leaf entry whose node id equals the target.
pub open spec fn spec_find_unicode_sl(
    entries: Seq<UnicodeLeafSubNodeTreeEntry>,
    nid: u32,
) -> NdbResult<UnicodeBlockId>
    decreases entries.len(),
{
    if entries.len() == 0 {
        Err(NdbError::SubNodeNotFound(NodeId(nid)))
    } else if entries[0].node.raw_spec() == nid {
        Ok(entries[0].block)
    } else {
        spec_find_unicode_sl(entries.skip(1), nid)
    }
}

fn find_unicode_sl(entries: &Vec<UnicodeLeafSubNodeTreeEntry>, nid: u32) -> (r: NdbResult<
    UnicodeBlockId,
>)
    ensures
        r == spec_find_unicode_sl(entries@, nid),
{
    let n = entries.len();
    proof {
        assert(entries@.skip(0) =~= entries@);
    }
    let mut i: usize = 0;
    while i < n
        invariant
            i <= n,
            n == entries@.len(),
            spec_find_unicode_sl(entries@, nid) == spec_find_unicode_sl(
                entries@.skip(i as int),
                nid,
            ),
        decreases n - i,
    {
        proof {
            let rest = entries@.skip(i as int);
            assert(rest[0] == entries@[i as int]);
            assert(rest.skip(1) =~= entries@.skip(i + 1 as int));
        }
        let e = entries[i];
        if e.node.raw() == nid {
            return Ok(e.block);
        }
        i = i + 1;
    }
    proof {
        assert(entries@.skip(n as int).len() == 0);
    }
    Err(NdbError::SubNodeNotFound(NodeId::from_raw(nid)))
}

/// Reading the sub-node block a block-B-tree entry points at.
pub open spec fn spec_read_unicode_sub_node_tree(
    s: Seq<u8>,
    entry: UnicodeBlockBTreeEntry,
) -> NdbResult<UnicodeSubNodeTreeModel> {
    spec_parse_unicode_sub_node_tree(s, entry.block.index as int, entry.size)
}

impl UnicodeSubNodeTree {
    /// Reads the sub-node tree block `block` points at out of the file
    /// image.
    pub fn read(b: &[u8], block: &UnicodeBlockBTreeEntry) -> (r: NdbResult<Self>)
        ensures
            (r matches Ok(t) && spec_read_unicode_sub_node_tree(b@, *block) matches Ok(m) && t@
                == m) || (r matches Err(e) && spec_read_unicode_sub_node_tree(b@, *block)
                == NdbResult::<UnicodeSubNodeTreeModel>::Err(e)),
        {
        let n: usize = b.len();
        if block.size < 8 || block.size > MAX_BLOCK_SIZE - UNICODE_BLOCK_TRAILER_SIZE {
            return Err(NdbError::InvalidBlockSize(block.size));
        }
        if block.block.index > n as u64 {
            return Err(NdbError::InvalidBlockSize(block.size));
        }
        parse_unicode_sub_node_tree(b, block.block.index as usize, block.size)
    }
}

/// Descending lookup of a sub-node: the prefix rule routes through an SI
/// block, an SL block is scanned for equality, and levels strictly
/// decrease on descent.
pub open spec fn spec_find_unicode_sub_node(
    s: Seq<u8>,
    bb_root: crate::block_ref::UnicodeBlockRef,
    t: UnicodeSubNodeTreeModel,
    nid: u32,
    bound: u16,
) -> NdbResult<UnicodeBlockId>
    decreases bound,
{
    match t {
        UnicodeSubNodeTreeModel::Leaf(lb) => spec_find_unicode_sl(lb.entries, nid),
        UnicodeSubNodeTreeModel::Intermediate(ib) => if ib.header.level as u16 >= bound {
            Err(NdbError::InvalidBTreePageLevel(ib.header.level))
        } else {
            let plen = spec_unicode_si_prefix_len(ib.entries, nid);
            if plen == 0 {
                Err(NdbError::SubNodeNotFound(NodeId(nid)))
            } else {
                match UnicodeBlockBTree::spec_find(
                    s,
                    bb_root,
                    ib.entries[plen - 1].block.masked_spec(),
                ) {
                    Err(e) => Err(e),
                    Ok(bbe) => match spec_read_unicode_sub_node_tree(s, bbe) {
                        Err(e) => Err(e),
                        Ok(child) => spec_find_unicode_sub_node(
                            s,
                            bb_root,
                            child,
                            nid,
                            ib.header.level as u16,
                        ),
                    },
                }
            }
        },
    }
}

fn find_unicode_sub_node_from(
    b: &[u8],
    block_btree: &UnicodeBlockBTree,
    t: &UnicodeSubNodeTree,
    nid: u32,
    bound: u16,
) -> (r: NdbResult<UnicodeBlockId>)
    ensures
        r == spec_find_unicode_sub_node(b@, block_btree.root, t@, nid, bound),
    decreases bound,
{
    match t {
        UnicodeSubNodeTree::Leaf(lb) => find_unicode_sl(&lb.entries, nid),
        UnicodeSubNodeTree::Intermediate(ib) => {
            if ib.header.level as u16 >= bound {
                return Err(NdbError::InvalidBTreePageLevel(ib.header.level));
            }
            let plen = unicode_si_prefix_len(&ib.entries, nid);
            if plen == 0 {
                return Err(NdbError::SubNodeNotFound(NodeId::from_raw(nid)));
            }
            proof {
                lemma_unicode_si_prefix_len_bounds(ib.entries@, nid);
            }
            let key = ib.entries[plen - 1].block.masked();
            let bbe = match block_btree.find_entry(b, key) {
                Ok(bbe) => bbe,
                Err(e) => {
                    return Err(e);
                },
            };
            let child = match UnicodeSubNodeTree::read(b, &bbe) {
                Ok(c) => c,
                Err(e) => {
                    return Err(e);
                },
            };
            find_unicode_sub_node_from(b, block_btree, &child, nid, ib.header.level as u16)
        },
    }
}

/// All leaf entries reachable from a sub-node tree node, in entry order.
pub open spec fn spec_unicode_sub_node_entries(
    s: Seq<u8>,
    bb_root: crate::block_ref::UnicodeBlockRef,
    t: UnicodeSubNodeTreeModel,
    bound: u16,
) -> NdbResult<Seq<UnicodeLeafSubNodeTreeEntry>>
    decreases bound, 0int,
{
    match t {
        UnicodeSubNodeTreeModel::Leaf(lb) => Ok(lb.entries),
        UnicodeSubNodeTreeModel::Intermediate(ib) => if ib.header.level as u16 >= bound {
            Err(NdbError::InvalidBTreePageLevel(ib.header.level))
        } else {
            spec_unicode_sub_node_entries_children(s, bb_root, ib.entries, 0, ib.header.level as u16)
        },
    }
}

pub open spec fn spec_unicode_sub_node_entries_children(
    s: Seq<u8>,
    bb_root: crate::block_ref::UnicodeBlockRef,
    entries: Seq<UnicodeIntermediateSubNodeTreeEntry>,
    i: int,
    bound: u16,
) -> NdbResult<Seq<UnicodeLeafSubNodeTreeEntry>>
    decreases bound, entries.len() - i + 1,
{
    if i < 0 || i >= entries.len() {
        Ok(Seq::empty())
    } else {
        match UnicodeBlockBTree::spec_find(s, bb_root, entries[i].block.masked_spec()) {
            Err(e) => Err(e),
            Ok(bbe) => match spec_read_unicode_sub_node_tree(s, bbe) {
                Err(e) => Err(e),
                Ok(child) => match spec_unicode_sub_node_entries(s, bb_root, child, bound) {
                    Err(e) => Err(e),
                    Ok(w) => match spec_unicode_sub_node_entries_children(
                        s,
                        bb_root,
                        entries,
                        i + 1,
                        bound,
                    ) {
                        Err(e) => Err(e),
                        Ok(rest) => Ok(w + rest),
                    },
                },
            },
        }
    }
}

#[verifier::rlimit(100)]
fn unicode_sub_node_entries_into(
    b: &[u8],
    block_btree: &UnicodeBlockBTree,
    t: &UnicodeSubNodeTree,
    bound: u16,
    out: &mut Vec<UnicodeLeafSubNodeTreeEntry>,
) -> (r: NdbResult<()>)
    ensures
        r matches Ok(_) ==> (spec_unicode_sub_node_entries(b@, block_btree.root, t@, bound)
            matches Ok(ws) && final(out)@ == old(out)@ + ws),
        r matches Err(e) ==> spec_unicode_sub_node_entries(b@, block_btree.root, t@, bound)
            == NdbResult::<Seq<UnicodeLeafSubNodeTreeEntry>>::Err(e),
    decreases bound, 0int,
{
    match t {
        UnicodeSubNodeTree::Leaf(lb) => {
            let mut k: usize = 0;
            let cnt = lb.entries.len();
            while k < cnt
                invariant
                    k <= cnt,
                    cnt == lb.entries@.len(),
                    out@ == old(out)@ + lb.entries@.subrange(0, k as int),
                decreases cnt - k,
            {
                out.push(lb.entries[k]);
                k = k + 1;
                proof {
                    assert(out@ =~= old(out)@ + lb.entries@.subrange(0, k as int));
                }
            }
            proof {
                assert(lb.entries@.subrange(0, cnt as int) =~= lb.entries@);
            }
            Ok(())
        },
        UnicodeSubNodeTree::Intermediate(ib) => {
            if ib.header.level as u16 >= bound {
                return Err(NdbError::InvalidBTreePageLevel(ib.header.level));
            }
            let level: u16 = ib.header.level as u16;
            let count = ib.entries.len();
            let ghost es = ib.entries@;
            let ghost done0: Seq<UnicodeLeafSubNodeTreeEntry> = Seq::empty();
            let ghost mut done: Seq<UnicodeLeafSubNodeTreeEntry> = done0;
            let mut k: usize = 0;
            while k < count
                invariant
                    k <= count,
                    count == es.len(),
                    es == ib.entries@,
                    level == ib.header.level as u16,
                    level < bound,
                    t@ == UnicodeSubNodeTreeModel::Intermediate(ib@),
                    out@ == old(out)@ + done,
                    spec_unicode_sub_node_entries_children(b@, block_btree.root, es, 0, level)
                        == (match spec_unicode_sub_node_entries_children(
                        b@,
                        block_btree.root,
                        es,
                        k as int,
                        level,
                    ) {
                        Err(e) => NdbResult::<Seq<UnicodeLeafSubNodeTreeEntry>>::Err(e),
                        Ok(rest) => NdbResult::<Seq<UnicodeLeafSubNodeTreeEntry>>::Ok(done + rest),
                    }),
                decreases bound, count - k + 1,
            {
                proof {
                    assert(es[k as int] == ib.entries@[k as int]);
                }
                let key = ib.entries[k].block.masked();
                let bbe = match block_btree.find_entry(b, key) {
                    Ok(bbe) => bbe,
                    Err(e) => {
                        proof {
                            assert(spec_unicode_sub_node_entries_children(
                                b@,
                                block_btree.root,
                                es,
                                k as int,
                                level,
                            ) == NdbResult::<Seq<UnicodeLeafSubNodeTreeEntry>>::Err(e));
                        }
                        return Err(e);
                    },
                };
                let child = match UnicodeSubNodeTree::read(b, &bbe) {
                    Ok(c) => c,
                    Err(e) => {
                        proof {
                            assert(spec_unicode_sub_node_entries_children(
                                b@,
                                block_btree.root,
                                es,
                                k as int,
                                level,
                            ) == NdbResult::<Seq<UnicodeLeafSubNodeTreeEntry>>::Err(e));
                        }
                        return Err(e);
                    },
                };
                match unicode_sub_node_entries_into(b, block_btree, &child, level, out) {
                    Ok(_) => {},
                    Err(e) => {
                        proof {
                            assert(spec_unicode_sub_node_entries_children(
                                b@,
                                block_btree.root,
                                es,
                                k as int,
                                level,
                            ) == NdbResult::<Seq<UnicodeLeafSubNodeTreeEntry>>::Err(e));
                        }
                        return Err(e);
                    },
                }
                proof {
                    let w = spec_unicode_sub_node_entries(b@, block_btree.root, child@, level)->Ok_0;
                    done = done + w;
                    assert(out@ =~= old(out)@ + done);
                    assert(forall|x: Seq<UnicodeLeafSubNodeTreeEntry>,
                        y: Seq<UnicodeLeafSubNodeTreeEntry>, z: Seq<UnicodeLeafSubNodeTreeEntry>|
                        #[trigger] ((x + y) + z) =~= x + (y + z));
                }
                k = k + 1;
            }
            proof {
                assert(spec_unicode_sub_node_entries_children(
                    b@,
                    block_btree.root,
                    es,
                    count as int,
                    level,
                ) == NdbResult::<Seq<UnicodeLeafSubNodeTreeEntry>>::Ok(
                    Seq::<UnicodeLeafSubNodeTreeEntry>::empty(),
                ));
                assert(done + Seq::<UnicodeLeafSubNodeTreeEntry>::empty() =~= done);
            }
            Ok(())
        },
    }
}

impl UnicodeSubNodeTree {
    /// Looks up the data block id for `node`, descending by the prefix
    /// rule.
    pub fn find_entry(&self, b: &[u8], block_btree: &UnicodeBlockBTree, node: NodeId) -> (r:
        NdbResult<UnicodeBlockId>)
        ensures
            r == spec_find_unicode_sub_node(b@, block_btree.root, self@, node.raw_spec(), 256),
    {
        find_unicode_sub_node_from(b, block_btree, self, node.raw(), 256)
    }

    /// All leaf entries of this sub-node tree, in entry order.
    pub fn entries(&self, b: &[u8], block_btree: &UnicodeBlockBTree) -> (r: NdbResult<
        Vec<UnicodeLeafSubNodeTreeEntry>,
    >)
        ensures
            (r matches Ok(v) && spec_unicode_sub_node_entries(b@, block_btree.root, self@, 256)
                matches Ok(ws) && v@ == ws) || (r matches Err(e) && spec_unicode_sub_node_entries(
                b@,
                block_btree.root,
                self@,
                256,
            ) == NdbResult::<Seq<UnicodeLeafSubNodeTreeEntry>>::Err(e)),
        {
        let mut out: Vec<UnicodeLeafSubNodeTreeEntry> = Vec::new();
        match unicode_sub_node_entries_into(b, block_btree, self, 256, &mut out) {
            Ok(_) => {
                proof {
                    assert(Seq::<UnicodeLeafSubNodeTreeEntry>::empty()
                        + spec_unicode_sub_node_entries(b@, block_btree.root, self@, 256)->Ok_0
                        =~= spec_unicode_sub_node_entries(b@, block_btree.root, self@, 256)->Ok_0);
                }
                Ok(out)
            },
            Err(e) => Err(e),
        }
    }
}

/// The prefix rule, 32-bit width.
pub open spec fn spec_ansi_si_prefix_len(
    entries: Seq<AnsiIntermediateSubNodeTreeEntry>,
    nid: u32,
) -> int
    decreases entries.len(),
{
    if entries.len() == 0 || entries[0].node.raw_spec() > nid {
        0
    } else {
        1 + spec_ansi_si_prefix_len(entries.skip(1), nid)
    }
}

pub proof fn lemma_ansi_si_prefix_len_bounds(entries: Seq<AnsiIntermediateSubNodeTreeEntry>, nid: u32)
    ensures
        0 <= spec_ansi_si_prefix_len(entries, nid) <= entries.len(),
    decreases entries.len(),
{
    if entries.len() > 0 && entries[0].node.raw_spec() <= nid {
        lemma_ansi_si_prefix_len_bounds(entries.skip(1), nid);
    }
}

fn ansi_si_prefix_len(entries: &Vec<AnsiIntermediateSubNodeTreeEntry>, nid: u32) -> (r: usize)
    ensures
        r as int == spec_ansi_si_prefix_len(entries@, nid),
        r <= entries@.len(),
{
    let n = entries.len();
    proof {
        assert(entries@.skip(0) =~= entries@);
    }
    let mut i: usize = 0;
    let mut plen: usize = 0;
    let mut stopped = false;
    while i < n
        invariant
            i <= n,
            n == entries@.len(),
            plen <= i,
            stopped ==> spec_ansi_si_prefix_len(entries@, nid) == plen,
            !stopped ==> (plen == i && spec_ansi_si_prefix_len(entries@, nid) == i
                + spec_ansi_si_prefix_len(entries@.skip(i as int), nid)),
        decreases n - i,
    {
        if !stopped {
            proof {
                let rest = entries@.skip(i as int);
                assert(rest[0] == entries@[i as int]);
                assert(rest.skip(1) =~= entries@.skip(i + 1 as int));
            }
            if entries[i].node.raw() <= nid {
                plen = i + 1;
            } else {
                stopped = true;
            }
        }
        i = i + 1;
    }
    proof {
        if !stopped {
            assert(entries@.skip(n as int).len() == 0);
        }
    }
    plen
}

/// The first leaf entry whose node id equals the target, 32-bit width.
pub open spec fn spec_find_ansi_sl(entries: Seq<AnsiLeafSubNodeTreeEntry>, nid: u32) -> NdbResult<
    AnsiBlockId,
>
    decreases entries.len(),
{
    if entries.len() == 0 {
        Err(NdbError::SubNodeNotFound(NodeId(nid)))
    } else if entries[0].node.raw_spec() == nid {
        Ok(entries[0].block)
    } else {
        spec_find_ansi_sl(entries.skip(1), nid)
    }
}

fn find_ansi_sl(entries: &Vec<AnsiLeafSubNodeTreeEntry>, nid: u32) -> (r: NdbResult<AnsiBlockId>)
    ensures
        r == spec_find_ansi_sl(entries@, nid),
{
    let n = entries.len();
    proof {
        assert(entries@.skip(0) =~= entries@);
    }
    let mut i: usize = 0;
    while i < n
        invariant
            i <= n,
            n == entries@.len(),
            spec_find_ansi_sl(entries@, nid) == spec_find_ansi_sl(entries@.skip(i as int), nid),
        decreases n - i,
    {
        proof {
            let rest = entries@.skip(i as int);
            assert(rest[0] == entries@[i as int]);
            assert(rest.skip(1) =~= entries@.skip(i + 1 as int));
        }
        let e = entries[i];
        if e.node.raw() == nid {
            return Ok(e.block);
        }
        i = i + 1;
    }
    proof {
        assert(entries@.skip(n as int).len() == 0);
    }
    Err(NdbError::SubNodeNotFound(NodeId::from_raw(nid)))
}

/// Reading the sub-node block a block-B-tree entry points at, 32-bit
/// width.
pub open spec fn spec_read_ansi_sub_node_tree(s: Seq<u8>, entry: AnsiBlockBTreeEntry) -> NdbResult<
    AnsiSubNodeTreeModel,
> {
    spec_parse_ansi_sub_node_tree(s, entry.block.index as int, entry.size)
}

impl AnsiSubNodeTree {
    /// Reads the sub-node tree block `block` points at out of the file
    /// image.
    pub fn read(b: &[u8], block: &AnsiBlockBTreeEntry) -> (r: NdbResult<Self>)
        ensures
            (r matches Ok(t) && spec_read_ansi_sub_node_tree(b@, *block) matches Ok(m) && t@ == m)
                || (r matches Err(e) && spec_read_ansi_sub_node_tree(b@, *block) == NdbResult::<
            AnsiSubNodeTreeModel,
            >::Err(e)),
        {
        let n: usize = b.len();
        if block.size < 4 || block.size > MAX_BLOCK_SIZE - ANSI_BLOCK_TRAILER_SIZE {
            return Err(NdbError::InvalidBlockSize(block.size));
        }
        if block.block.index as u64 > n as u64 {
            return Err(NdbError::InvalidBlockSize(block.size));
        }
        parse_ansi_sub_node_tree(b, block.block.index as usize, block.size)
    }
}

/// Descending lookup of a sub-node, 32-bit width.
pub open spec fn spec_find_ansi_sub_node(
    s: Seq<u8>,
    bb_root: crate::block_ref::AnsiBlockRef,
    t: AnsiSubNodeTreeModel,
    nid: u32,
    bound: u16,
) -> NdbResult<AnsiBlockId>
    decreases bound,
{
    match t {
        AnsiSubNodeTreeModel::Leaf(lb) => spec_find_ansi_sl(lb.entries, nid),
        AnsiSubNodeTreeModel::Intermediate(ib) => if ib.header.level as u16 >= bound {
            Err(NdbError::InvalidBTreePageLevel(ib.header.level))
        } else {
            let plen = spec_ansi_si_prefix_len(ib.entries, nid);
            if plen == 0 {
                Err(NdbError::SubNodeNotFound(NodeId(nid)))
            } else {
                match AnsiBlockBTree::spec_find(
                    s,
                    bb_root,
                    ib.entries[plen - 1].block.masked_spec(),
                ) {
                    Err(e) => Err(e),
                    Ok(bbe) => match spec_read_ansi_sub_node_tree(s, bbe) {
                        Err(e) => Err(e),
                        Ok(child) => spec_find_ansi_sub_node(
                            s,
                            bb_root,
                            child,
                            nid,
                            ib.header.level as u16,
                        ),
                    },
                }
            }
        },
    }
}

fn find_ansi_sub_node_from(
    b: &[u8],
    block_btree: &AnsiBlockBTree,
    t: &AnsiSubNodeTree,
    nid: u32,
    bound: u16,
) -> (r: NdbResult<AnsiBlockId>)
    ensures
        r == spec_find_ansi_sub_node(b@, block_btree.root, t@, nid, bound),
    decreases bound,
{
    match t {
        AnsiSubNodeTree::Leaf(lb) => find_ansi_sl(&lb.entries, nid),
        AnsiSubNodeTree::Intermediate(ib) => {
            if ib.header.level as u16 >= bound {
                return Err(NdbError::InvalidBTreePageLevel(ib.header.level));
            }
            let plen = ansi_si_prefix_len(&ib.entries, nid);
            if plen == 0 {
                return Err(NdbError::SubNodeNotFound(NodeId::from_raw(nid)));
            }
            proof {
                lemma_ansi_si_prefix_len_bounds(ib.entries@, nid);
            }
            let key = ib.entries[plen - 1].block.masked();
            let bbe = match block_btree.find_entry(b, key) {
                Ok(bbe) => bbe,
                Err(e) => {
                    return Err(e);
                },
            };
            let child = match AnsiSubNodeTree::read(b, &bbe) {
                Ok(c) => c,
                Err(e) => {
                    return Err(e);
                },
            };
            find_ansi_sub_node_from(b, block_btree, &child, nid, ib.header.level as u16)
        },
    }
}

/// All leaf entries reachable from a sub-node tree node, 32-bit width.
pub open spec fn spec_ansi_sub_node_entries(
    s: Seq<u8>,
    bb_root: crate::block_ref::AnsiBlockRef,
    t: AnsiSubNodeTreeModel,
    bound: u16,
) -> NdbResult<Seq<AnsiLeafSubNodeTreeEntry>>
    decreases bound, 0int,
{
    match t {
        AnsiSubNodeTreeModel::Leaf(lb) => Ok(lb.entries),
        AnsiSubNodeTreeModel::Intermediate(ib) => if ib.header.level as u16 >= bound {
            Err(NdbError::InvalidBTreePageLevel(ib.header.level))
        } else {
            spec_ansi_sub_node_entries_children(s, bb_root, ib.entries, 0, ib.header.level as u16)
        },
    }
}

pub open spec fn spec_ansi_sub_node_entries_children(
    s: Seq<u8>,
    bb_root: crate::block_ref::AnsiBlockRef,
    entries: Seq<AnsiIntermediateSubNodeTreeEntry>,
    i: int,
    bound: u16,
) -> NdbResult<Seq<AnsiLeafSubNodeTreeEntry>>
    decreases bound, entries.len() - i + 1,
{
    if i < 0 || i >= entries.len() {
        Ok(Seq::empty())
    } else {
        match AnsiBlockBTree::spec_find(s, bb_root, entries[i].block.masked_spec()) {
            Err(e) => Err(e),
            Ok(bbe) => match spec_read_ansi_sub_node_tree(s, bbe) {
                Err(e) => Err(e),
                Ok(child) => match spec_ansi_sub_node_entries(s, bb_root, child, bound) {
                    Err(e) => Err(e),
                    Ok(w) => match spec_ansi_sub_node_entries_children(
                        s,
                        bb_root,
                        entries,
                        i + 1,
                        bound,
                    ) {
                        Err(e) => Err(e),
                        Ok(rest) => Ok(w + rest),
                    },
                },
            },
        }
    }
}

#[verifier::rlimit(100)]
fn ansi_sub_node_entries_into(
    b: &[u8],
    block_btree: &AnsiBlockBTree,
    t: &AnsiSubNodeTree,
    bound: u16,
    out: &mut Vec<AnsiLeafSubNodeTreeEntry>,
) -> (r: NdbResult<()>)
    ensures
        r matches Ok(_) ==> (spec_ansi_sub_node_entries(b@, block_btree.root, t@, bound)
            matches Ok(ws) && final(out)@ == old(out)@ + ws),
        r matches Err(e) ==> spec_ansi_sub_node_entries(b@, block_btree.root, t@, bound)
            == NdbResult::<Seq<AnsiLeafSubNodeTreeEntry>>::Err(e),
    decreases bound, 0int,
{
    match t {
        AnsiSubNodeTree::Leaf(lb) => {
            let mut k: usize = 0;
            let cnt = lb.entries.len();
            while k < cnt
                invariant
                    k <= cnt,
                    cnt == lb.entries@.len(),
                    out@ == old(out)@ + lb.entries@.subrange(0, k as int),
                decreases cnt - k,
            {
                out.push(lb.entries[k]);
                k = k + 1;
                proof {
                    assert(out@ =~= old(out)@ + lb.entries@.subrange(0, k as int));
                }
            }
            proof {
                assert(lb.entries@.subrange(0, cnt as int) =~= lb.entries@);
            }
            Ok(())
        },
        AnsiSubNodeTree::Intermediate(ib) => {
            if ib.header.level as u16 >= bound {
                return Err(NdbError::InvalidBTreePageLevel(ib.header.level));
            }
            let level: u16 = ib.header.level as u16;
            let count = ib.entries.len();
            let ghost es = ib.entries@;
            let ghost done0: Seq<AnsiLeafSubNodeTreeEntry> = Seq::empty();
            let ghost mut done: Seq<AnsiLeafSubNodeTreeEntry> = done0;
            let mut k: usize = 0;
            while k < count
                invariant
                    k <= count,
                    count == es.len(),
                    es == ib.entries@,
                    level == ib.header.level as u16,
                    level < bound,
                    t@ == AnsiSubNodeTreeModel::Intermediate(ib@),
                    out@ == old(out)@ + done,
                    spec_ansi_sub_node_entries_children(b@, block_btree.root, es, 0, level) == (
                    match spec_ansi_sub_node_entries_children(
                        b@,
                        block_btree.root,
                        es,
                        k as int,
                        level,
                    ) {
                        Err(e) => NdbResult::<Seq<AnsiLeafSubNodeTreeEntry>>::Err(e),
                        Ok(rest) => NdbResult::<Seq<AnsiLeafSubNodeTreeEntry>>::Ok(done + rest),
                    }),
                decreases bound, count - k + 1,
            {
                proof {
                    assert(es[k as int] == ib.entries@[k as int]);
                }
                let key = ib.entries[k].block.masked();
                let bbe = match block_btree.find_entry(b, key) {
                    Ok(bbe) => bbe,
                    Err(e) => {
                        proof {
                            assert(spec_ansi_sub_node_entries_children(
                                b@,
                                block_btree.root,
                                es,
                                k as int,
                                level,
                            ) == NdbResult::<Seq<AnsiLeafSubNodeTreeEntry>>::Err(e));
                        }
                        return Err(e);
                    },
                };
                let child = match AnsiSubNodeTree::read(b, &bbe) {
                    Ok(c) => c,
                    Err(e) => {
                        proof {
                            assert(spec_ansi_sub_node_entries_children(
                                b@,
                                block_btree.root,
                                es,
                                k as int,
                                level,
                            ) == NdbResult::<Seq<AnsiLeafSubNodeTreeEntry>>::Err(e));
                        }
                        return Err(e);
                    },
                };
                match ansi_sub_node_entries_into(b, block_btree, &child, level, out) {
                    Ok(_) => {},
                    Err(e) => {
                        proof {
                            assert(spec_ansi_sub_node_entries_children(
                                b@,
                                block_btree.root,
                                es,
                                k as int,
                                level,
                            ) == NdbResult::<Seq<AnsiLeafSubNodeTreeEntry>>::Err(e));
                        }
                        return Err(e);
                    },
                }
                proof {
                    let w = spec_ansi_sub_node_entries(b@, block_btree.root, child@, level)->Ok_0;
                    done = done + w;
                    assert(out@ =~= old(out)@ + done);
                    assert(forall|x: Seq<AnsiLeafSubNodeTreeEntry>, y: Seq<AnsiLeafSubNodeTreeEntry>,
                        z: Seq<AnsiLeafSubNodeTreeEntry>| #[trigger] ((x + y) + z) =~= x + (y + z));
                }
                k = k + 1;
            }
            proof {
                assert(spec_ansi_sub_node_entries_children(
                    b@,
                    block_btree.root,
                    es,
                    count as int,
                    level,
                ) == NdbResult::<Seq<AnsiLeafSubNodeTreeEntry>>::Ok(
                    Seq::<AnsiLeafSubNodeTreeEntry>::empty(),
                ));
                assert(done + Seq::<AnsiLeafSubNodeTreeEntry>::empty() =~= done);
            }
            Ok(())
        },
    }
}

impl AnsiSubNodeTree {
    /// Looks up the data block id for `node`, descending by the prefix
    /// rule.
    pub fn find_entry(&self, b: &[u8], block_btree: &AnsiBlockBTree, node: NodeId) -> (r:
        NdbResult<AnsiBlockId>)
        ensures
            r == spec_find_ansi_sub_node(b@, block_btree.root, self@, node.raw_spec(), 256),
    {
        find_ansi_sub_node_from(b, block_btree, self, node.raw(), 256)
    }

    /// All leaf entries of this sub-node tree, in entry order.
    pub fn entries(&self, b: &[u8], block_btree: &AnsiBlockBTree) -> (r: NdbResult<
        Vec<AnsiLeafSubNodeTreeEntry>,
    >)
        ensures
            (r matches Ok(v) && spec_ansi_sub_node_entries(b@, block_btree.root, self@, 256)
                matches Ok(ws) && v@ == ws) || (r matches Err(e) && spec_ansi_sub_node_entries(
                b@,
                block_btree.root,
                self@,
                256,
            ) == NdbResult::<Seq<AnsiLeafSubNodeTreeEntry>>::Err(e)),
        {
        let mut out: Vec<AnsiLeafSubNodeTreeEntry> = Vec::new();
        match ansi_sub_node_entries_into(b, block_btree, self, 256, &mut out) {
            Ok(_) => {
                proof {
                    assert(Seq::<AnsiLeafSubNodeTreeEntry>::empty() + spec_ansi_sub_node_entries(
                        b@,
                        block_btree.root,
                        self@,
                        256,
                    )->Ok_0 =~= spec_ansi_sub_node_entries(b@, block_btree.root, self@, 256)->Ok_0);
                }
                Ok(out)
            },
            Err(e) => Err(e),
        }
    }
}


/// The 8 header bytes of a sub-node tree block, in on-disk order.
pub open spec fn spec_unicode_sub_node_header_bytes(h: UnicodeSubNodeTreeBlockHeader) -> Seq<u8> {
    seq![0x02u8, h.level] + crate::bytes::spec_u16_bytes(h.entry_count)
        + crate::bytes::spec_u32_bytes(0)
}

pub fn serialize_unicode_sub_node_header(h: &UnicodeSubNodeTreeBlockHeader, out: &mut Vec<u8>)
    ensures
        final(out)@ == old(out)@ + spec_unicode_sub_node_header_bytes(*h),
{
    crate::bytes::write_u8(out, 0x02);
    crate::bytes::write_u8(out, h.level);
    crate::bytes::write_u16(out, h.entry_count);
    crate::bytes::write_u32(out, 0);
    proof {
        assert(out@ =~= old(out)@ + spec_unicode_sub_node_header_bytes(*h));
    }
}

/// The 4 header bytes of a sub-node tree block, 32-bit width.
pub open spec fn spec_ansi_sub_node_header_bytes(h: AnsiSubNodeTreeBlockHeader) -> Seq<u8> {
    seq![0x02u8, h.level] + crate::bytes::spec_u16_bytes(h.entry_count)
}

pub fn serialize_ansi_sub_node_header(h: &AnsiSubNodeTreeBlockHeader, out: &mut Vec<u8>)
    ensures
        final(out)@ == old(out)@ + spec_ansi_sub_node_header_bytes(*h),
{
    crate::bytes::write_u8(out, 0x02);
    crate::bytes::write_u8(out, h.level);
    crate::bytes::write_u16(out, h.entry_count);
    proof {
        assert(out@ =~= old(out)@ + spec_ansi_sub_node_header_bytes(*h));
    }
}

pub open spec fn spec_unicode_si_entries_bytes(es: Seq<UnicodeIntermediateSubNodeTreeEntry>) -> Seq<
    u8,
>
    decreases es.len(),
{
    if es.len() == 0 {
        Seq::empty()
    } else {
        spec_unicode_si_entries_bytes(es.drop_last()) + crate::bytes::spec_u64_bytes(
            es.last().node.raw_spec() as u64,
        ) + crate::bytes::spec_u64_bytes(es.last().block.raw_spec())
    }
}

pub open spec fn spec_unicode_sl_entries_bytes(es: Seq<UnicodeLeafSubNodeTreeEntry>) -> Seq<u8>
    decreases es.len(),
{
    if es.len() == 0 {
        Seq::empty()
    } else {
        spec_unicode_sl_entries_bytes(es.drop_last()) + crate::bytes::spec_u64_bytes(
            es.last().node.raw_spec() as u64,
        ) + crate::bytes::spec_u64_bytes(es.last().block.raw_spec())
            + crate::bytes::spec_u64_bytes(
            match es.last().sub_node {
                Some(b) => b.raw_spec(),
                None => 0u64,
            },
        )
    }
}

proof fn lemma_unicode_si_entries_bytes_len(es: Seq<UnicodeIntermediateSubNodeTreeEntry>)
    ensures
        spec_unicode_si_entries_bytes(es).len() == 16 * es.len(),
    decreases es.len(),
{
    if es.len() > 0 {
        lemma_unicode_si_entries_bytes_len(es.drop_last());
    }
}

proof fn lemma_unicode_sl_entries_bytes_len(es: Seq<UnicodeLeafSubNodeTreeEntry>)
    ensures
        spec_unicode_sl_entries_bytes(es).len() == 24 * es.len(),
    decreases es.len(),
{
    if es.len() > 0 {
        lemma_unicode_sl_entries_bytes_len(es.drop_last());
    }
}

/// The on-disk image of a sub-node tree block: header, entries, zero
/// padding to the footprint, and a trailer stamped with the data length
/// and the CRC of header plus entries.
pub open spec fn spec_unicode_sub_node_tree_bytes(m: UnicodeSubNodeTreeModel) -> Seq<u8> {
    let data = match m {
        UnicodeSubNodeTreeModel::Intermediate(ib) => spec_unicode_sub_node_header_bytes(ib.header)
            + spec_unicode_si_entries_bytes(ib.entries),
        UnicodeSubNodeTreeModel::Leaf(lb) => spec_unicode_sub_node_header_bytes(lb.header)
            + spec_unicode_sl_entries_bytes(lb.entries),
    };
    let t = match m {
        UnicodeSubNodeTreeModel::Intermediate(ib) => ib.trailer,
        UnicodeSubNodeTreeModel::Leaf(lb) => lb.trailer,
    };
    let size = data.len() as u16;
    let fp = spec_block_size((size + 16) as u16) as int;
    data + crate::bytes::zero_bytes(fp - 16 - size) + crate::block::spec_unicode_block_trailer_bytes(
        (UnicodeBlockTrailer {
            size,
            signature: t.signature,
            crc: crate::crc::spec_crc(0, data),
            block_id: t.block_id,
        }),
    )
}

impl UnicodeSubNodeTree {
    /// Appends the block's on-disk image; the trailer is restamped with
    /// the written length and CRC.
    pub fn write_to(&self, out: &mut Vec<u8>)
        requires
            (self@ matches UnicodeSubNodeTreeModel::Intermediate(ib) ==> ib.entries.len() <= 510),
            (self@ matches UnicodeSubNodeTreeModel::Leaf(lb) ==> lb.entries.len() <= 340),
        ensures
            final(out)@ == old(out)@ + spec_unicode_sub_node_tree_bytes(self@),
    {
        match self {
            UnicodeSubNodeTree::Intermediate(ib) => {
                let mut data: Vec<u8> = Vec::new();
                serialize_unicode_sub_node_header(&ib.header, &mut data);
                let n = ib.entries.len();
                let mut k: usize = 0;
                while k < n
                    invariant
                        k <= n,
                        n == ib.entries@.len(),
                        data@ == spec_unicode_sub_node_header_bytes(ib.header)
                            + spec_unicode_si_entries_bytes(ib.entries@.subrange(0, k as int)),
                    decreases n - k,
                {
                    crate::bytes::write_u64(&mut data, ib.entries[k].node.raw() as u64);
                    crate::bytes::write_u64(&mut data, ib.entries[k].block.to_raw());
                    k = k + 1;
                    proof {
                        let p = ib.entries@.subrange(0, k as int);
                        assert(p.drop_last() =~= ib.entries@.subrange(0, k - 1 as int));
                        assert(p.last() == ib.entries@[k - 1 as int]);
                        assert(data@ =~= spec_unicode_sub_node_header_bytes(ib.header)
                            + spec_unicode_si_entries_bytes(p));
                    }
                }
                proof {
                    assert(ib.entries@.subrange(0, n as int) =~= ib.entries@);
                    lemma_unicode_si_entries_bytes_len(ib.entries@);
                }
                let size: u16 = (8 + 16 * n) as u16;
                let c = compute_crc(0, data.as_slice());
                let fp: usize = block_size(size + 16) as usize;
                proof {
                    crate::block::lemma_block_size_bounds((size + 16) as u16);
                }
                let pad: usize = fp - 16 - size as usize;
                let t = UnicodeBlockTrailer {
                    size,
                    signature: ib.trailer.signature,
                    crc: c,
                    block_id: ib.trailer.block_id,
                };
                out.append(&mut data);
                crate::bytes::write_zeros(out, pad);
                crate::block::serialize_unicode_block_trailer(&t, out);
                proof {
                    assert(self@ == UnicodeSubNodeTreeModel::Intermediate(ib@));
                    assert(out@ =~= old(out)@ + spec_unicode_sub_node_tree_bytes(self@));
                }
            },
            UnicodeSubNodeTree::Leaf(lb) => {
                let mut data: Vec<u8> = Vec::new();
                serialize_unicode_sub_node_header(&lb.header, &mut data);
                let n = lb.entries.len();
                let mut k: usize = 0;
                while k < n
                    invariant
                        k <= n,
                        n == lb.entries@.len(),
                        data@ == spec_unicode_sub_node_header_bytes(lb.header)
                            + spec_unicode_sl_entries_bytes(lb.entries@.subrange(0, k as int)),
                    decreases n - k,
                {
                    crate::bytes::write_u64(&mut data, lb.entries[k].node.raw() as u64);
                    crate::bytes::write_u64(&mut data, lb.entries[k].block.to_raw());
                    let sv: u64 = match lb.entries[k].sub_node {
                        Some(b) => b.to_raw(),
                        None => 0,
                    };
                    crate::bytes::write_u64(&mut data, sv);
                    k = k + 1;
                    proof {
                        let p = lb.entries@.subrange(0, k as int);
                        assert(p.drop_last() =~= lb.entries@.subrange(0, k - 1 as int));
                        assert(p.last() == lb.entries@[k - 1 as int]);
                        assert(data@ =~= spec_unicode_sub_node_header_bytes(lb.header)
                            + spec_unicode_sl_entries_bytes(p));
                    }
                }
                proof {
                    assert(lb.entries@.subrange(0, n as int) =~= lb.entries@);
                    lemma_unicode_sl_entries_bytes_len(lb.entries@);
                }
                let size: u16 = (8 + 24 * n) as u16;
                let c = compute_crc(0, data.as_slice());
                let fp: usize = block_size(size + 16) as usize;
                proof {
                    crate::block::lemma_block_size_bounds((size + 16) as u16);
                }
                let pad: usize = fp - 16 - size as usize;
                let t = UnicodeBlockTrailer {
                    size,
                    signature: lb.trailer.signature,
                    crc: c,
                    block_id: lb.trailer.block_id,
                };
                out.append(&mut data);
                crate::bytes::write_zeros(out, pad);
                crate::block::serialize_unicode_block_trailer(&t, out);
                proof {
                    assert(self@ == UnicodeSubNodeTreeModel::Leaf(lb@));
                    assert(out@ =~= old(out)@ + spec_unicode_sub_node_tree_bytes(self@));
                }
            },
        }
    }
}

pub open spec fn spec_ansi_si_entries_bytes(es: Seq<AnsiIntermediateSubNodeTreeEntry>) -> Seq<u8>
    decreases es.len(),
{
    if es.len() == 0 {
        Seq::empty()
    } else {
        spec_ansi_si_entries_bytes(es.drop_last()) + crate::bytes::spec_u32_bytes(
            es.last().node.raw_spec(),
        ) + crate::bytes::spec_u32_bytes(es.last().block.raw_spec())
    }
}

pub open spec fn spec_ansi_sl_entries_bytes(es: Seq<AnsiLeafSubNodeTreeEntry>) -> Seq<u8>
    decreases es.len(),
{
    if es.len() == 0 {
        Seq::empty()
    } else {
        spec_ansi_sl_entries_bytes(es.drop_last()) + crate::bytes::spec_u32_bytes(
            es.last().node.raw_spec(),
        ) + crate::bytes::spec_u32_bytes(es.last().block.raw_spec()) + crate::bytes::spec_u32_bytes(
            match es.last().sub_node {
                Some(b) => b.raw_spec(),
                None => 0u32,
            },
        )
    }
}

proof fn lemma_ansi_si_entries_bytes_len(es: Seq<AnsiIntermediateSubNodeTreeEntry>)
    ensures
        spec_ansi_si_entries_bytes(es).len() == 8 * es.len(),
    decreases es.len(),
{
    if es.len() > 0 {
        lemma_ansi_si_entries_bytes_len(es.drop_last());
    }
}

proof fn lemma_ansi_sl_entries_bytes_len(es: Seq<AnsiLeafSubNodeTreeEntry>)
    ensures
        spec_ansi_sl_entries_bytes(es).len() == 12 * es.len(),
    decreases es.len(),
{
    if es.len() > 0 {
        lemma_ansi_sl_entries_bytes_len(es.drop_last());
    }
}

/// The on-disk image of a sub-node tree block, 32-bit width.
pub open spec fn spec_ansi_sub_node_tree_bytes(m: AnsiSubNodeTreeModel) -> Seq<u8> {
    let data = match m {
        AnsiSubNodeTreeModel::Intermediate(ib) => spec_ansi_sub_node_header_bytes(ib.header)
            + spec_ansi_si_entries_bytes(ib.entries),
        AnsiSubNodeTreeModel::Leaf(lb) => spec_ansi_sub_node_header_bytes(lb.header)
            + spec_ansi_sl_entries_bytes(lb.entries),
    };
    let t = match m {
        AnsiSubNodeTreeModel::Intermediate(ib) => ib.trailer,
        AnsiSubNodeTreeModel::Leaf(lb) => lb.trailer,
    };
    let size = data.len() as u16;
    let fp = spec_block_size((size + 12) as u16) as int;
    data + crate::bytes::zero_bytes(fp - 12 - size) + crate::block::spec_ansi_block_trailer_bytes(
        (AnsiBlockTrailer {
            size,
            signature: t.signature,
            block_id: t.block_id,
            crc: crate::crc::spec_crc(0, data),
        }),
    )
}

impl AnsiSubNodeTree {
    /// Appends the block's on-disk image, 32-bit width.
    pub fn write_to(&self, out: &mut Vec<u8>)
        requires
            (self@ matches AnsiSubNodeTreeModel::Intermediate(ib) ==> ib.entries.len() <= 1022),
            (self@ matches AnsiSubNodeTreeModel::Leaf(lb) ==> lb.entries.len() <= 681),
        ensures
            final(out)@ == old(out)@ + spec_ansi_sub_node_tree_bytes(self@),
    {
        match self {
            AnsiSubNodeTree::Intermediate(ib) => {
                let mut data: Vec<u8> = Vec::new();
                serialize_ansi_sub_node_header(&ib.header, &mut data);
                let n = ib.entries.len();
                let mut k: usize = 0;
                while k < n
                    invariant
                        k <= n,
                        n == ib.entries@.len(),
                        data@ == spec_ansi_sub_node_header_bytes(ib.header)
                            + spec_ansi_si_entries_bytes(ib.entries@.subrange(0, k as int)),
                    decreases n - k,
                {
                    crate::bytes::write_u32(&mut data, ib.entries[k].node.raw());
                    crate::bytes::write_u32(&mut data, ib.entries[k].block.to_raw());
                    k = k + 1;
                    proof {
                        let p = ib.entries@.subrange(0, k as int);
                        assert(p.drop_last() =~= ib.entries@.subrange(0, k - 1 as int));
                        assert(p.last() == ib.entries@[k - 1 as int]);
                        assert(data@ =~= spec_ansi_sub_node_header_bytes(ib.header)
                            + spec_ansi_si_entries_bytes(p));
                    }
                }
                proof {
                    assert(ib.entries@.subrange(0, n as int) =~= ib.entries@);
                    lemma_ansi_si_entries_bytes_len(ib.entries@);
                }
                let size: u16 = (4 + 8 * n) as u16;
                let c = compute_crc(0, data.as_slice());
                let fp: usize = block_size(size + 12) as usize;
                proof {
                    crate::block::lemma_block_size_bounds((size + 12) as u16);
                }
                let pad: usize = fp - 12 - size as usize;
                let t = AnsiBlockTrailer {
                    size,
                    signature: ib.trailer.signature,
                    block_id: ib.trailer.block_id,
                    crc: c,
                };
                out.append(&mut data);
                crate::bytes::write_zeros(out, pad);
                crate::block::serialize_ansi_block_trailer(&t, out);
                proof {
                    assert(self@ == AnsiSubNodeTreeModel::Intermediate(ib@));
                    assert(out@ =~= old(out)@ + spec_ansi_sub_node_tree_bytes(self@));
                }
            },
            AnsiSubNodeTree::Leaf(lb) => {
                let mut data: Vec<u8> = Vec::new();
                serialize_ansi_sub_node_header(&lb.header, &mut data);
                let n = lb.entries.len();
                let mut k: usize = 0;
                while k < n
                    invariant
                        k <= n,
                        n == lb.entries@.len(),
                        data@ == spec_ansi_sub_node_header_bytes(lb.header)
                            + spec_ansi_sl_entries_bytes(lb.entries@.subrange(0, k as int)),
                    decreases n - k,
                {
                    crate::bytes::write_u32(&mut data, lb.entries[k].node.raw());
                    crate::bytes::write_u32(&mut data, lb.entries[k].block.to_raw());
                    let sv: u32 = match lb.entries[k].sub_node {
                        Some(b) => b.to_raw(),
                        None => 0,
                    };
                    crate::bytes::write_u32(&mut data, sv);
                    k = k + 1;
                    proof {
                        let p = lb.entries@.subrange(0, k as int);
                        assert(p.drop_last() =~= lb.entries@.subrange(0, k - 1 as int));
                        assert(p.last() == lb.entries@[k - 1 as int]);
                        assert(data@ =~= spec_ansi_sub_node_header_bytes(lb.header)
                            + spec_ansi_sl_entries_bytes(p));
                    }
                }
                proof {
                    assert(lb.entries@.subrange(0, n as int) =~= lb.entries@);
                    lemma_ansi_sl_entries_bytes_len(lb.entries@);
                }
                let size: u16 = (4 + 12 * n) as u16;
                let c = compute_crc(0, data.as_slice());
                let fp: usize = block_size(size + 12) as usize;
                proof {
                    crate::block::lemma_block_size_bounds((size + 12) as u16);
                }
                let pad: usize = fp - 12 - size as usize;
                let t = AnsiBlockTrailer {
                    size,
                    signature: lb.trailer.signature,
                    block_id: lb.trailer.block_id,
                    crc: c,
                };
                out.append(&mut data);
                crate::bytes::write_zeros(out, pad);
                crate::block::serialize_ansi_block_trailer(&t, out);
                proof {
                    assert(self@ == AnsiSubNodeTreeModel::Leaf(lb@));
                    assert(out@ =~= old(out)@ + spec_ansi_sub_node_tree_bytes(self@));
                }
            },
        }
    }
}

} // verus!
