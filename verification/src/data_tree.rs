//! The data tree: leaf data blocks stitched into one logical byte stream
//! by intermediate blocks (level 1 and level 2) that fan out child block
//! ids. Flattening resolves each child through the block B-tree and yields
//! the leaf blocks in entry order.

use vstd::prelude::*;
use crate::bytes::{read_u8, read_u16, read_u32, read_u64, spec_u16_at, spec_u32_at, spec_u64_at};
use crate::crc::{spec_crc, compute_crc};
use crate::encode::NdbCryptMethod;
use crate::block_id::{UnicodeBlockId, AnsiBlockId};
use crate::block::{
    MAX_BLOCK_SIZE, UNICODE_BLOCK_TRAILER_SIZE, ANSI_BLOCK_TRAILER_SIZE, spec_block_size,
    block_size, UnicodeBlockTrailer, AnsiBlockTrailer, spec_parse_unicode_block_trailer,
    spec_parse_ansi_block_trailer, parse_unicode_block_trailer, parse_ansi_block_trailer,
    UnicodeDataBlock, AnsiDataBlock, UnicodeDataBlockModel, AnsiDataBlockModel,
    spec_parse_unicode_data_block, spec_parse_ansi_data_block, parse_unicode_data_block,
    parse_ansi_data_block,
};
use crate::btree::{
    UnicodeBlockBTree, AnsiBlockBTree, UnicodeBlockBTreeEntry, AnsiBlockBTreeEntry,
};
use crate::error::{NdbError, NdbResult};

verus! {

broadcast use vstd::slice::group_slice_axioms;

/// The 8-byte header of an intermediate data-tree block: type byte 0x01,
/// level (1 for X, 2 for XX), entry count, and the total payload bytes
/// reachable through the subtree.
#[derive(Clone, Copy, Debug, Default, PartialEq, Eq, Structural)]
pub struct DataTreeBlockHeader {
    pub level: u8,
    pub entry_count: u16,
    pub total_size: u32,
}

impl DataTreeBlockHeader {
    pub fn new(level: u8, entry_count: u16, total_size: u32) -> (r: Self)
        ensures
            r == (DataTreeBlockHeader { level, entry_count, total_size }),
    {
        DataTreeBlockHeader { level, entry_count, total_size }
    }

    pub fn total_size(&self) -> (r: u32)
        ensures
            r == self.total_size,
    {
        self.total_size
    }

    pub fn level(&self) -> (r: u8)
        ensures
            r == self.level,
    {
        self.level
    }

    pub fn entry_count(&self) -> (r: u16)
        ensures
            r == self.entry_count,
    {
        self.entry_count
    }
}

/// The header decoded from 8 bytes at offset `i`: the type byte must be
/// 0x01.
pub open spec fn spec_parse_data_tree_block_header(s: Seq<u8>, i: int) -> NdbResult<
    DataTreeBlockHeader,
>
    recommends
        0 <= i,
        i + 8 <= s.len(),
{
    if s[i] != 0x01 {
        Err(NdbError::InvalidInternalBlockType(s[i]))
    } else {
        Ok(
            (DataTreeBlockHeader {
                level: s[i + 1],
                entry_count: spec_u16_at(s, i + 2),
                total_size: spec_u32_at(s, i + 4),
            }),
        )
    }
}

pub fn parse_data_tree_block_header(b: &[u8], off: usize) -> (r: NdbResult<DataTreeBlockHeader>)
    requires
        off + 8 <= b@.len(),
    ensures
        r == spec_parse_data_tree_block_header(b@, off as int),
{
    let n: usize = b.len();
    let tb = read_u8(b, off);
    if tb != 0x01 {
        return Err(NdbError::InvalidInternalBlockType(tb));
    }
    let level = read_u8(b, off + 1);
    let entry_count = read_u16(b, off + 2);
    let total_size = read_u32(b, off + 4);
    Ok(DataTreeBlockHeader { level, entry_count, total_size })
}

/// One child of an intermediate data-tree block: a block id.
#[derive(Clone, Copy, Debug, Default, PartialEq, Eq, Structural)]
pub struct UnicodeDataTreeEntry(pub UnicodeBlockId);

impl UnicodeDataTreeEntry {
    pub fn new(block: UnicodeBlockId) -> (r: Self)
        ensures
            r == UnicodeDataTreeEntry(block),
    {
        UnicodeDataTreeEntry(block)
    }

    pub fn block(&self) -> (r: UnicodeBlockId)
        ensures
            r == self.0,
    {
        self.0
    }
}

/// One child of an intermediate data-tree block, 32-bit width.
#[derive(Clone, Copy, Debug, Default, PartialEq, Eq, Structural)]
pub struct AnsiDataTreeEntry(pub AnsiBlockId);

impl AnsiDataTreeEntry {
    pub fn new(block: AnsiBlockId) -> (r: Self)
        ensures
            r == AnsiDataTreeEntry(block),
    {
        AnsiDataTreeEntry(block)
    }

    pub fn block(&self) -> (r: AnsiBlockId)
        ensures
            r == self.0,
    {
        self.0
    }
}

/// The mathematical content of an intermediate data-tree block.
#[verifier::ext_equal]
pub ghost struct UnicodeDataTreeBlockModel {
    pub header: DataTreeBlockHeader,
    pub entries: Seq<UnicodeDataTreeEntry>,
    pub trailer: UnicodeBlockTrailer,
}

/// An intermediate data-tree block (X or XX), 64-bit width.
#[derive(Clone, Debug, PartialEq, Eq)]
pub struct UnicodeDataTreeBlock {
    pub header: DataTreeBlockHeader,
    pub entries: Vec<UnicodeDataTreeEntry>,
    pub trailer: UnicodeBlockTrailer,
}

impl View for UnicodeDataTreeBlock {
    type V = UnicodeDataTreeBlockModel;

    open spec fn view(&self) -> UnicodeDataTreeBlockModel {
        UnicodeDataTreeBlockModel {
            header: self.header,
            entries: self.entries@,
            trailer: self.trailer,
        }
    }
}

impl UnicodeDataTreeBlock {
    /// An intermediate block's trailer must carry an internal block id.
    pub fn new(
        header: DataTreeBlockHeader,
        entries: Vec<UnicodeDataTreeEntry>,
        trailer: UnicodeBlockTrailer,
    ) -> (r: NdbResult<Self>)
        ensures
            !trailer.block_id.is_internal_spec() ==> r == NdbResult::<Self>::Err(
                NdbError::InvalidUnicodeBlockTrailerId(trailer.block_id.masked_spec()),
            ),
            trailer.block_id.is_internal_spec() ==> (r matches Ok(blk) && blk@ == (
            UnicodeDataTreeBlockModel { header, entries: entries@, trailer })),
    {
        if !trailer.block_id.is_internal() {
            return Err(NdbError::InvalidUnicodeBlockTrailerId(trailer.block_id.masked()));
        }
        Ok(UnicodeDataTreeBlock { header, entries, trailer })
    }

    pub fn header(&self) -> (r: &DataTreeBlockHeader)
        ensures
            *r == self.header,
    {
        &self.header
    }

    pub fn entries(&self) -> (r: &Vec<UnicodeDataTreeEntry>)
        ensures
            r@ == self@.entries,
    {
        &self.entries
    }

    pub fn trailer(&self) -> (r: &UnicodeBlockTrailer)
        ensures
            *r == self.trailer,
    {
        &self.trailer
    }
}

pub open spec fn spec_unicode_data_tree_entries(s: Seq<u8>, off: int, count: int) -> Seq<
    UnicodeDataTreeEntry,
> {
    Seq::new(count as nat, |k: int| UnicodeDataTreeEntry(UnicodeBlockId(spec_u64_at(s, off + 8 * k))))
}

/// The intermediate data-tree block whose footprint starts at `off` and
/// whose logical size (from the block B-tree) is `size`: the 0x01 header,
/// `entry_count` child ids that must fit in the payload, an internal
/// trailer, and the payload CRC.
pub open spec fn spec_parse_unicode_data_tree_block(s: Seq<u8>, off: int, size: u16) -> NdbResult<
    UnicodeDataTreeBlockModel,
> {
    if !(8 <= size <= MAX_BLOCK_SIZE - UNICODE_BLOCK_TRAILER_SIZE) {
        Err(NdbError::InvalidBlockSize(size))
    } else {
        let fp = spec_block_size((size + 16) as u16) as int;
        if !(0 <= off && off + fp <= s.len()) {
            Err(NdbError::InvalidBlockSize(size))
        } else {
            match spec_parse_data_tree_block_header(s, off) {
                Err(e) => Err(e),
                Ok(h) => if h.entry_count * 8 > size - 8 {
                    Err(NdbError::InvalidInternalBlockEntryCount(h.entry_count))
                } else {
                    match spec_parse_unicode_block_trailer(s, off + fp - 16) {
                        Err(e) => Err(e),
                        Ok(t) => if !t.block_id.is_internal_spec() {
                            Err(NdbError::InvalidUnicodeBlockTrailerId(t.block_id.masked_spec()))
                        } else {
                            let c = spec_crc(0, s.subrange(off, off + size));
                            if c != t.crc {
                                Err(NdbError::InvalidBlockCrc(c))
                            } else {
                                Ok(
                                    (UnicodeDataTreeBlockModel {
                                        header: h,
                                        entries: spec_unicode_data_tree_entries(
                                            s,
                                            off + 8,
                                            h.entry_count as int,
                                        ),
                                        trailer: t,
                                    }),
                                )
                            }
                        },
                    }
                },
            }
        }
    }
}

pub fn parse_unicode_data_tree_block(b: &[u8], off: usize, size: u16) -> (r: NdbResult<
    UnicodeDataTreeBlock,
>)
    ensures
        (r matches Ok(p) && spec_parse_unicode_data_tree_block(b@, off as int, size) matches Ok(m)
            && p@ == m) || (r matches Err(e) && spec_parse_unicode_data_tree_block(
            b@,
            off as int,
            size,
        ) == NdbResult::<UnicodeDataTreeBlockModel>::Err(e)),
        r matches Ok(p) ==> spec_crc(0, b@.subrange(off as int, off + size as int))
            == p.trailer.crc,
    {
    let n: usize = b.len();
    if size < 8 || size > MAX_BLOCK_SIZE - UNICODE_BLOCK_TRAILER_SIZE {
        return Err(NdbError::InvalidBlockSize(size));
    }
    let fp: usize = block_size(size + 16) as usize;
    if off > n || fp > n - off {
        return Err(NdbError::InvalidBlockSize(size));
    }
    let h = match parse_data_tree_block_header(b, off) {
        Ok(h) => h,
        Err(e) => {
            return Err(e);
        },
    };
    if h.entry_count as usize * 8 > size as usize - 8 {
        return Err(NdbError::InvalidInternalBlockEntryCount(h.entry_count));
    }
    let t = match parse_unicode_block_trailer(b, off + fp - 16) {
        Ok(t) => t,
        Err(e) => {
            return Err(e);
        },
    };
    if !t.block_id.is_internal() {
        return Err(NdbError::InvalidUnicodeBlockTrailerId(t.block_id.masked()));
    }
    let c = compute_crc(0, vstd::slice::slice_subrange(b, off, off + size as usize));
    if c != t.crc {
        return Err(NdbError::InvalidBlockCrc(c));
    }
    let count = h.entry_count as usize;
    let mut entries: Vec<UnicodeDataTreeEntry> = Vec::new();
    let mut k: usize = 0;
    while k < count
        invariant
            k <= count,
            off + 8 + count * 8 <= b@.len(),
            entries@ =~= spec_unicode_data_tree_entries(b@, off + 8 as int, k as int),
        decreases count - k,
    {
        let bn: usize = b.len();
        entries.push(UnicodeDataTreeEntry(UnicodeBlockId::from_raw(read_u64(b, off + 8 + 8 * k))));
        k = k + 1;
        proof {
            assert(entries@ =~= spec_unicode_data_tree_entries(b@, off + 8 as int, k as int));
        }
    }
    proof {
        assert(entries@ =~= spec_unicode_data_tree_entries(b@, off + 8 as int, count as int));
    }
    Ok(UnicodeDataTreeBlock { header: h, entries, trailer: t })
}

/// The mathematical content of an intermediate data-tree block, 32-bit
/// width.
#[verifier::ext_equal]
pub ghost struct AnsiDataTreeBlockModel {
    pub header: DataTreeBlockHeader,
    pub entries: Seq<AnsiDataTreeEntry>,
    pub trailer: AnsiBlockTrailer,
}

/// An intermediate data-tree block (X or XX), 32-bit width.
#[derive(Clone, Debug, PartialEq, Eq)]
pub struct AnsiDataTreeBlock {
    pub header: DataTreeBlockHeader,
    pub entries: Vec<AnsiDataTreeEntry>,
    pub trailer: AnsiBlockTrailer,
}

impl View for AnsiDataTreeBlock {
    type V = AnsiDataTreeBlockModel;

    open spec fn view(&self) -> AnsiDataTreeBlockModel {
        AnsiDataTreeBlockModel { header: self.header, entries: self.entries@, trailer: self.trailer }
    }
}

impl AnsiDataTreeBlock {
    /// An intermediate block's trailer must carry an internal block id.
    pub fn new(
        header: DataTreeBlockHeader,
        entries: Vec<AnsiDataTreeEntry>,
        trailer: AnsiBlockTrailer,
    ) -> (r: NdbResult<Self>)
        ensures
            !trailer.block_id.is_internal_spec() ==> r == NdbResult::<Self>::Err(
                NdbError::InvalidAnsiBlockTrailerId(trailer.block_id.masked_spec()),
            ),
            trailer.block_id.is_internal_spec() ==> (r matches Ok(blk) && blk@ == (
            AnsiDataTreeBlockModel { header, entries: entries@, trailer })),
    {
        if !trailer.block_id.is_internal() {
            return Err(NdbError::InvalidAnsiBlockTrailerId(trailer.block_id.masked()));
        }
        Ok(AnsiDataTreeBlock { header, entries, trailer })
    }

    pub fn header(&self) -> (r: &DataTreeBlockHeader)
        ensures
            *r == self.header,
    {
        &self.header
    }

    pub fn entries(&self) -> (r: &Vec<AnsiDataTreeEntry>)
        ensures
            r@ == self@.entries,
    {
        &self.entries
    }

    pub fn trailer(&self) -> (r: &AnsiBlockTrailer)
        ensures
            *r == self.trailer,
    {
        &self.trailer
    }
}

pub open spec fn spec_ansi_data_tree_entries(s: Seq<u8>, off: int, count: int) -> Seq<
    AnsiDataTreeEntry,
> {
    Seq::new(count as nat, |k: int| AnsiDataTreeEntry(AnsiBlockId(spec_u32_at(s, off + 4 * k))))
}

/// The intermediate data-tree block at `off`, 32-bit width.
pub open spec fn spec_parse_ansi_data_tree_block(s: Seq<u8>, off: int, size: u16) -> NdbResult<
    AnsiDataTreeBlockModel,
> {
    if !(8 <= size <= MAX_BLOCK_SIZE - ANSI_BLOCK_TRAILER_SIZE) {
        Err(NdbError::InvalidBlockSize(size))
    } else {
        let fp = spec_block_size((size + 12) as u16) as int;
        if !(0 <= off && off + fp <= s.len()) {
            Err(NdbError::InvalidBlockSize(size))
        } else {
            match spec_parse_data_tree_block_header(s, off) {
                Err(e) => Err(e),
                Ok(h) => if h.entry_count * 4 > size - 8 {
                    Err(NdbError::InvalidInternalBlockEntryCount(h.entry_count))
                } else {
                    match spec_parse_ansi_block_trailer(s, off + fp - 12) {
                        Err(e) => Err(e),
                        Ok(t) => if !t.block_id.is_internal_spec() {
                            Err(NdbError::InvalidAnsiBlockTrailerId(t.block_id.masked_spec()))
                        } else {
                            let c = spec_crc(0, s.subrange(off, off + size));
                            if c != t.crc {
                                Err(NdbError::InvalidBlockCrc(c))
                            } else {
                                Ok(
                                    (AnsiDataTreeBlockModel {
                                        header: h,
                                        entries: spec_ansi_data_tree_entries(
                                            s,
                                            off + 8,
                                            h.entry_count as int,
                                        ),
                                        trailer: t,
                                    }),
                                )
                            }
                        },
                    }
                },
            }
        }
    }
}

pub fn parse_ansi_data_tree_block(b: &[u8], off: usize, size: u16) -> (r: NdbResult<
    AnsiDataTreeBlock,
>)
    ensures
        (r matches Ok(p) && spec_parse_ansi_data_tree_block(b@, off as int, size) matches Ok(m)
            && p@ == m) || (r matches Err(e) && spec_parse_ansi_data_tree_block(
            b@,
            off as int,
            size,
        ) == NdbResult::<AnsiDataTreeBlockModel>::Err(e)),
        r matches Ok(p) ==> spec_crc(0, b@.subrange(off as int, off + size as int))
            == p.trailer.crc,
    {
    let n: usize = b.len();
    if size < 8 || size > MAX_BLOCK_SIZE - ANSI_BLOCK_TRAILER_SIZE {
        return Err(NdbError::InvalidBlockSize(size));
    }
    let fp: usize = block_size(size + 12) as usize;
    if off > n || fp > n - off {
        return Err(NdbError::InvalidBlockSize(size));
    }
    let h = match parse_data_tree_block_header(b, off) {
        Ok(h) => h,
        Err(e) => {
            return Err(e);
        },
    };
    if h.entry_count as usize * 4 > size as usize - 8 {
        return Err(NdbError::InvalidInternalBlockEntryCount(h.entry_count));
    }
    let t = match parse_ansi_block_trailer(b, off + fp - 12) {
        Ok(t) => t,
        Err(e) => {
            return Err(e);
        },
    };
    if !t.block_id.is_internal() {
        return Err(NdbError::InvalidAnsiBlockTrailerId(t.block_id.masked()));
    }
    let c = compute_crc(0, vstd::slice::slice_subrange(b, off, off + size as usize));
    if c != t.crc {
        return Err(NdbError::InvalidBlockCrc(c));
    }
    let count = h.entry_count as usize;
    let mut entries: Vec<AnsiDataTreeEntry> = Vec::new();
    let mut k: usize = 0;
    while k < count
        invariant
            k <= count,
            off + 8 + count * 4 <= b@.len(),
            entries@ =~= spec_ansi_data_tree_entries(b@, off + 8 as int, k as int),
        decreases count - k,
    {
        let bn: usize = b.len();
        entries.push(AnsiDataTreeEntry(AnsiBlockId::from_raw(read_u32(b, off + 8 + 4 * k))));
        k = k + 1;
        proof {
            assert(entries@ =~= spec_ansi_data_tree_entries(b@, off + 8 as int, k as int));
        }
    }
    proof {
        assert(entries@ =~= spec_ansi_data_tree_entries(b@, off + 8 as int, count as int));
    }
    Ok(AnsiDataTreeBlock { header: h, entries, trailer: t })
}

/// A parsed node of the data tree: a fan-out block or a leaf data block.
#[derive(Clone, Debug, PartialEq, Eq)]
pub enum UnicodeDataTree {
    Intermediate(UnicodeDataTreeBlock),
    Leaf(UnicodeDataBlock),
}

pub ghost enum UnicodeDataTreeModel {
    Intermediate(UnicodeDataTreeBlockModel),
    Leaf(UnicodeDataBlockModel),
}

impl View for UnicodeDataTree {
    type V = UnicodeDataTreeModel;

    open spec fn view(&self) -> UnicodeDataTreeModel {
        match self {
            UnicodeDataTree::Intermediate(t) => UnicodeDataTreeModel::Intermediate(t@),
            UnicodeDataTree::Leaf(t) => UnicodeDataTreeModel::Leaf(t@),
        }
    }
}

/// Reading the block a block-B-tree entry points at: an internal block id
/// names a fan-out block, an external one a leaf data block.
pub open spec fn spec_read_unicode_data_tree(
    s: Seq<u8>,
    encoding: NdbCryptMethod,
    entry: UnicodeBlockBTreeEntry,
) -> NdbResult<UnicodeDataTreeModel> {
    if entry.block.block.is_internal_spec() {
        match spec_parse_unicode_data_tree_block(s, entry.block.index as int, entry.size) {
            Err(e) => Err(e),
            Ok(m) => Ok(UnicodeDataTreeModel::Intermediate(m)),
        }
    } else {
        match spec_parse_unicode_data_block(s, entry.block.index as int, entry.size, encoding) {
            Err(e) => Err(e),
            Ok(m) => Ok(UnicodeDataTreeModel::Leaf(m)),
        }
    }
}

impl UnicodeDataTree {
    /// Reads the block `block` points at out of the file image.
    pub fn read(b: &[u8], encoding: NdbCryptMethod, block: &UnicodeBlockBTreeEntry) -> (r:
        NdbResult<Self>)
        ensures
            (r matches Ok(t) && spec_read_unicode_data_tree(b@, encoding, *block) matches Ok(m)
                && t@ == m) || (r matches Err(e) && spec_read_unicode_data_tree(
                b@,
                encoding,
                *block,
            ) == NdbResult::<UnicodeDataTreeModel>::Err(e)),
        {
        if block.block.block.is_internal() {
            match parse_unicode_data_tree_block_at(b, block.block.index, block.size) {
                Ok(t) => Ok(UnicodeDataTree::Intermediate(t)),
                Err(e) => Err(e),
            }
        } else {
            match parse_unicode_data_block_at(b, block.block.index, block.size, encoding) {
                Ok(t) => Ok(UnicodeDataTree::Leaf(t)),
                Err(e) => Err(e),
            }
        }
    }
}

fn parse_unicode_data_tree_block_at(b: &[u8], off: u64, size: u16) -> (r: NdbResult<
    UnicodeDataTreeBlock,
>)
    ensures
        (r matches Ok(p) && spec_parse_unicode_data_tree_block(b@, off as int, size) matches Ok(m)
            && p@ == m) || (r matches Err(e) && spec_parse_unicode_data_tree_block(
            b@,
            off as int,
            size,
        ) == NdbResult::<UnicodeDataTreeBlockModel>::Err(e)),
    {
    let n: usize = b.len();
    if size < 8 || size > MAX_BLOCK_SIZE - UNICODE_BLOCK_TRAILER_SIZE {
        return Err(NdbError::InvalidBlockSize(size));
    }
    if off > n as u64 {
        return Err(NdbError::InvalidBlockSize(size));
    }
    parse_unicode_data_tree_block(b, off as usize, size)
}

fn parse_unicode_data_block_at(b: &[u8], off: u64, size: u16, encoding: NdbCryptMethod) -> (r:
    NdbResult<UnicodeDataBlock>)
    ensures
        (r matches Ok(p) && spec_parse_unicode_data_block(b@, off as int, size, encoding)
            matches Ok(m) && p@ == m) || (r matches Err(e) && spec_parse_unicode_data_block(
            b@,
            off as int,
            size,
            encoding,
        ) == NdbResult::<UnicodeDataBlockModel>::Err(e)),
    {
    let n: usize = b.len();
    if size < 1 || size > MAX_BLOCK_SIZE - UNICODE_BLOCK_TRAILER_SIZE {
        return Err(NdbError::InvalidBlockSize(size));
    }
    if off > n as u64 {
        return Err(NdbError::InvalidBlockSize(size));
    }
    parse_unicode_data_block(b, off as usize, size, encoding)
}

pub open spec fn spec_unicode_data_blocks_view(v: Seq<UnicodeDataBlock>) -> Seq<
    UnicodeDataBlockModel,
> {
    Seq::new(v.len(), |i: int| v[i]@)
}

/// The leaf blocks reachable from a tree node, in entry order; levels must
/// strictly decrease on descent.
pub open spec fn spec_unicode_data_tree_blocks(
    s: Seq<u8>,
    encoding: NdbCryptMethod,
    bb_root: crate::block_ref::UnicodeBlockRef,
    t: UnicodeDataTreeModel,
    bound: u16,
) -> NdbResult<Seq<UnicodeDataBlockModel>>
    decreases bound, 0int,
{
    match t {
        UnicodeDataTreeModel::Leaf(m) => Ok(seq![m]),
        UnicodeDataTreeModel::Intermediate(tb) => if tb.header.level as u16 >= bound {
            Err(NdbError::InvalidBTreePageLevel(tb.header.level))
        } else {
            spec_unicode_data_tree_children(s, encoding, bb_root, tb.entries, 0, tb.header.level as u16)
        },
    }
}

pub open spec fn spec_unicode_data_tree_children(
    s: Seq<u8>,
    encoding: NdbCryptMethod,
    bb_root: crate::block_ref::UnicodeBlockRef,
    entries: Seq<UnicodeDataTreeEntry>,
    i: int,
    bound: u16,
) -> NdbResult<Seq<UnicodeDataBlockModel>>
    decreases bound, entries.len() - i + 1,
{
    if i < 0 || i >= entries.len() {
        Ok(Seq::empty())
    } else {
        match UnicodeBlockBTree::spec_find(s, bb_root, entries[i].0.masked_spec()) {
            Err(e) => Err(e),
            Ok(bbe) => match spec_read_unicode_data_tree(s, encoding, bbe) {
                Err(e) => Err(e),
                Ok(child) => match spec_unicode_data_tree_blocks(s, encoding, bb_root, child, bound) {
                    Err(e) => Err(e),
                    Ok(w) => match spec_unicode_data_tree_children(
                        s,
                        encoding,
                        bb_root,
                        entries,
                        i + 1,
                        bound,
                    ) {
                        Err(e) => Err(e),
                        Ok(rest) => Ok(w + rest),
                    },
                },
            },
        }
    }
}

#[verifier::rlimit(100)]
fn unicode_data_tree_blocks_into(
    b: &[u8],
    encoding: NdbCryptMethod,
    block_btree: &UnicodeBlockBTree,
    t: &UnicodeDataTree,
    bound: u16,
    out: &mut Vec<UnicodeDataBlock>,
) -> (r: NdbResult<()>)
    ensures
        r matches Ok(_) ==> (spec_unicode_data_tree_blocks(b@, encoding, block_btree.root, t@, bound)
            matches Ok(ws) && spec_unicode_data_blocks_view(final(out)@)
            == spec_unicode_data_blocks_view(old(out)@) + ws),
        r matches Err(e) ==> spec_unicode_data_tree_blocks(b@, encoding, block_btree.root, t@, bound)
            == NdbResult::<Seq<UnicodeDataBlockModel>>::Err(e),
    decreases bound, 0int,
{
    match t {
        UnicodeDataTree::Leaf(m) => {
            out.push(m.clone_block());
            proof {
                assert(spec_unicode_data_blocks_view(out@) =~= spec_unicode_data_blocks_view(
                    old(out)@,
                ) + seq![m@]);
            }
            Ok(())
        },
        UnicodeDataTree::Intermediate(tb) => {
            if tb.header.level as u16 >= bound {
                return Err(NdbError::InvalidBTreePageLevel(tb.header.level));
            }
            let level: u16 = tb.header.level as u16;
            let count = tb.entries.len();
            let ghost es = tb.entries@;
            let ghost done0: Seq<UnicodeDataBlockModel> = Seq::empty();
            let ghost mut done: Seq<UnicodeDataBlockModel> = done0;
            let mut k: usize = 0;
            while k < count
                invariant
                    k <= count,
                    count == es.len(),
                    es == tb.entries@,
                    level == tb.header.level as u16,
                    level < bound,
                    t@ == UnicodeDataTreeModel::Intermediate(tb@),
                    spec_unicode_data_blocks_view(out@) == spec_unicode_data_blocks_view(
                        old(out)@,
                    ) + done,
                    spec_unicode_data_tree_children(b@, encoding, block_btree.root, es, 0, level)
                        == (match spec_unicode_data_tree_children(
                        b@,
                        encoding,
                        block_btree.root,
                        es,
                        k as int,
                        level,
                    ) {
                        Err(e) => NdbResult::<Seq<UnicodeDataBlockModel>>::Err(e),
                        Ok(rest) => NdbResult::<Seq<UnicodeDataBlockModel>>::Ok(done + rest),
                    }),
                decreases bound, count - k + 1,
            {
                let key = tb.entries[k].0.masked();
                proof {
                    assert(es[k as int] == tb.entries@[k as int]);
                }
                let bbe = match block_btree.find_entry(b, key) {
                    Ok(bbe) => bbe,
                    Err(e) => {
                        proof {
                            assert(spec_unicode_data_tree_children(
                                b@,
                                encoding,
                                block_btree.root,
                                es,
                                k as int,
                                level,
                            ) == NdbResult::<Seq<UnicodeDataBlockModel>>::Err(e));
                        }
                        return Err(e);
                    },
                };
                let child = match UnicodeDataTree::read(b, encoding, &bbe) {
                    Ok(c) => c,
                    Err(e) => {
                        proof {
                            assert(spec_unicode_data_tree_children(
                                b@,
                                encoding,
                                block_btree.root,
                                es,
                                k as int,
                                level,
                            ) == NdbResult::<Seq<UnicodeDataBlockModel>>::Err(e));
                        }
                        return Err(e);
                    },
                };
                match unicode_data_tree_blocks_into(b, encoding, block_btree, &child, level, out) {
                    Ok(_) => {},
                    Err(e) => {
                        proof {
                            assert(spec_unicode_data_tree_children(
                                b@,
                                encoding,
                                block_btree.root,
                                es,
                                k as int,
                                level,
                            ) == NdbResult::<Seq<UnicodeDataBlockModel>>::Err(e));
                        }
                        return Err(e);
                    },
                }
                proof {
                    let w = spec_unicode_data_tree_blocks(
                        b@,
                        encoding,
                        block_btree.root,
                        child@,
                        level,
                    )->Ok_0;
                    done = done + w;
                    assert(forall|x: Seq<UnicodeDataBlockModel>, y: Seq<UnicodeDataBlockModel>,
                        z: Seq<UnicodeDataBlockModel>| #[trigger] ((x + y) + z) =~= x + (y + z));
                }
                k = k + 1;
            }
            proof {
                assert(spec_unicode_data_tree_children(
                    b@,
                    encoding,
                    block_btree.root,
                    es,
                    count as int,
                    level,
                ) == NdbResult::<Seq<UnicodeDataBlockModel>>::Ok(
                    Seq::<UnicodeDataBlockModel>::empty(),
                ));
                assert(done + Seq::<UnicodeDataBlockModel>::empty() =~= done);
            }
            Ok(())
        },
    }
}

impl UnicodeDataTree {
    /// The leaf data blocks of this tree, in entry order: the byte stream
    /// is their payloads concatenated.
    pub fn blocks(&self, b: &[u8], encoding: NdbCryptMethod, block_btree: &UnicodeBlockBTree) -> (r:
        NdbResult<Vec<UnicodeDataBlock>>)
        ensures
            (r matches Ok(v) && spec_unicode_data_tree_blocks(
                b@,
                encoding,
                block_btree.root,
                self@,
                256,
            ) matches Ok(ws) && spec_unicode_data_blocks_view(v@) == ws) || (r matches Err(e)
                && spec_unicode_data_tree_blocks(b@, encoding, block_btree.root, self@, 256)
                == NdbResult::<Seq<UnicodeDataBlockModel>>::Err(e)),
        {
        let mut out: Vec<UnicodeDataBlock> = Vec::new();
        match unicode_data_tree_blocks_into(b, encoding, block_btree, self, 256, &mut out) {
            Ok(_) => {
                proof {
                    assert(spec_unicode_data_blocks_view(Seq::<UnicodeDataBlock>::empty())
                        =~= Seq::<UnicodeDataBlockModel>::empty());
                    assert(Seq::<UnicodeDataBlockModel>::empty() + spec_unicode_data_tree_blocks(
                        b@,
                        encoding,
                        block_btree.root,
                        self@,
                        256,
                    )->Ok_0 =~= spec_unicode_data_tree_blocks(
                        b@,
                        encoding,
                        block_btree.root,
                        self@,
                        256,
                    )->Ok_0);
                }
                Ok(out)
            },
            Err(e) => Err(e),
        }
    }
}

impl UnicodeDataBlock {
    /// A field-for-field copy; `Vec<u8>` payloads make the derived clone
    /// opaque to the verifier, so the copy is spelled out.
    pub fn clone_block(&self) -> (r: Self)
        ensures
            r@ == self@,
    {
        UnicodeDataBlock {
            encoding: self.encoding,
            data: vstd::slice::slice_to_vec(self.data.as_slice()),
            trailer: self.trailer,
        }
    }
}

/// A parsed node of the data tree, 32-bit width.
#[derive(Clone, Debug, PartialEq, Eq)]
pub enum AnsiDataTree {
    Intermediate(AnsiDataTreeBlock),
    Leaf(AnsiDataBlock),
}

pub ghost enum AnsiDataTreeModel {
    Intermediate(AnsiDataTreeBlockModel),
    Leaf(AnsiDataBlockModel),
}

impl View for AnsiDataTree {
    type V = AnsiDataTreeModel;

    open spec fn view(&self) -> AnsiDataTreeModel {
        match self {
            AnsiDataTree::Intermediate(t) => AnsiDataTreeModel::Intermediate(t@),
            AnsiDataTree::Leaf(t) => AnsiDataTreeModel::Leaf(t@),
        }
    }
}

/// Reading the block a block-B-tree entry points at, 32-bit width.
pub open spec fn spec_read_ansi_data_tree(
    s: Seq<u8>,
    encoding: NdbCryptMethod,
    entry: AnsiBlockBTreeEntry,
) -> NdbResult<AnsiDataTreeModel> {
    if entry.block.block.is_internal_spec() {
        match spec_parse_ansi_data_tree_block(s, entry.block.index as int, entry.size) {
            Err(e) => Err(e),
            Ok(m) => Ok(AnsiDataTreeModel::Intermediate(m)),
        }
    } else {
        match spec_parse_ansi_data_block(s, entry.block.index as int, entry.size, encoding) {
            Err(e) => Err(e),
            Ok(m) => Ok(AnsiDataTreeModel::Leaf(m)),
        }
    }
}

impl AnsiDataTree {
    /// Reads the block `block` points at out of the file image.
    pub fn read(b: &[u8], encoding: NdbCryptMethod, block: &AnsiBlockBTreeEntry) -> (r: NdbResult<
        Self,
    >)
        ensures
            (r matches Ok(t) && spec_read_ansi_data_tree(b@, encoding, *block) matches Ok(m)
                && t@ == m) || (r matches Err(e) && spec_read_ansi_data_tree(b@, encoding, *block)
                == NdbResult::<AnsiDataTreeModel>::Err(e)),
        {
        if block.block.block.is_internal() {
            match parse_ansi_data_tree_block_at(b, block.block.index, block.size) {
                Ok(t) => Ok(AnsiDataTree::Intermediate(t)),
                Err(e) => Err(e),
            }
        } else {
            match parse_ansi_data_block_at(b, block.block.index, block.size, encoding) {
                Ok(t) => Ok(AnsiDataTree::Leaf(t)),
                Err(e) => Err(e),
            }
        }
    }
}

fn parse_ansi_data_tree_block_at(b: &[u8], off: u32, size: u16) -> (r: NdbResult<AnsiDataTreeBlock>)
    ensures
        (r matches Ok(p) && spec_parse_ansi_data_tree_block(b@, off as int, size) matches Ok(m)
            && p@ == m) || (r matches Err(e) && spec_parse_ansi_data_tree_block(
            b@,
            off as int,
            size,
        ) == NdbResult::<AnsiDataTreeBlockModel>::Err(e)),
    {
    let n: usize = b.len();
    if size < 8 || size > MAX_BLOCK_SIZE - ANSI_BLOCK_TRAILER_SIZE {
        return Err(NdbError::InvalidBlockSize(size));
    }
    if off as u64 > n as u64 {
        return Err(NdbError::InvalidBlockSize(size));
    }
    parse_ansi_data_tree_block(b, off as usize, size)
}

fn parse_ansi_data_block_at(b: &[u8], off: u32, size: u16, encoding: NdbCryptMethod) -> (r:
    NdbResult<AnsiDataBlock>)
    ensures
        (r matches Ok(p) && spec_parse_ansi_data_block(b@, off as int, size, encoding)
            matches Ok(m) && p@ == m) || (r matches Err(e) && spec_parse_ansi_data_block(
            b@,
            off as int,
            size,
            encoding,
        ) == NdbResult::<AnsiDataBlockModel>::Err(e)),
    {
    let n: usize = b.len();
    if size < 1 || size > MAX_BLOCK_SIZE - ANSI_BLOCK_TRAILER_SIZE {
        return Err(NdbError::InvalidBlockSize(size));
    }
    if off as u64 > n as u64 {
        return Err(NdbError::InvalidBlockSize(size));
    }
    parse_ansi_data_block(b, off as usize, size, encoding)
}

pub open spec fn spec_ansi_data_blocks_view(v: Seq<AnsiDataBlock>) -> Seq<AnsiDataBlockModel> {
    Seq::new(v.len(), |i: int| v[i]@)
}

/// The leaf blocks reachable from a tree node, 32-bit width.
pub open spec fn spec_ansi_data_tree_blocks(
    s: Seq<u8>,
    encoding: NdbCryptMethod,
    bb_root: crate::block_ref::AnsiBlockRef,
    t: AnsiDataTreeModel,
    bound: u16,
) -> NdbResult<Seq<AnsiDataBlockModel>>
    decreases bound, 0int,
{
    match t {
        AnsiDataTreeModel::Leaf(m) => Ok(seq![m]),
        AnsiDataTreeModel::Intermediate(tb) => if tb.header.level as u16 >= bound {
            Err(NdbError::InvalidBTreePageLevel(tb.header.level))
        } else {
            spec_ansi_data_tree_children(s, encoding, bb_root, tb.entries, 0, tb.header.level as u16)
        },
    }
}

pub open spec fn spec_ansi_data_tree_children(
    s: Seq<u8>,
    encoding: NdbCryptMethod,
    bb_root: crate::block_ref::AnsiBlockRef,
    entries: Seq<AnsiDataTreeEntry>,
    i: int,
    bound: u16,
) -> NdbResult<Seq<AnsiDataBlockModel>>
    decreases bound, entries.len() - i + 1,
{
    if i < 0 || i >= entries.len() {
        Ok(Seq::empty())
    } else {
        match AnsiBlockBTree::spec_find(s, bb_root, entries[i].0.masked_spec()) {
            Err(e) => Err(e),
            Ok(bbe) => match spec_read_ansi_data_tree(s, encoding, bbe) {
                Err(e) => Err(e),
                Ok(child) => match spec_ansi_data_tree_blocks(s, encoding, bb_root, child, bound) {
                    Err(e) => Err(e),
                    Ok(w) => match spec_ansi_data_tree_children(
                        s,
                        encoding,
                        bb_root,
                        entries,
                        i + 1,
                        bound,
                    ) {
                        Err(e) => Err(e),
                        Ok(rest) => Ok(w + rest),
                    },
                },
            },
        }
    }
}

#[verifier::rlimit(100)]
fn ansi_data_tree_blocks_into(
    b: &[u8],
    encoding: NdbCryptMethod,
    block_btree: &AnsiBlockBTree,
    t: &AnsiDataTree,
    bound: u16,
    out: &mut Vec<AnsiDataBlock>,
) -> (r: NdbResult<()>)
    ensures
        r matches Ok(_) ==> (spec_ansi_data_tree_blocks(b@, encoding, block_btree.root, t@, bound)
            matches Ok(ws) && spec_ansi_data_blocks_view(final(out)@) == spec_ansi_data_blocks_view(
            old(out)@,
        ) + ws),
        r matches Err(e) ==> spec_ansi_data_tree_blocks(b@, encoding, block_btree.root, t@, bound)
            == NdbResult::<Seq<AnsiDataBlockModel>>::Err(e),
    decreases bound, 0int,
{
    match t {
        AnsiDataTree::Leaf(m) => {
            out.push(m.clone_block());
            proof {
                assert(spec_ansi_data_blocks_view(out@) =~= spec_ansi_data_blocks_view(old(out)@)
                    + seq![m@]);
            }
            Ok(())
        },
        AnsiDataTree::Intermediate(tb) => {
            if tb.header.level as u16 >= bound {
                return Err(NdbError::InvalidBTreePageLevel(tb.header.level));
            }
            let level: u16 = tb.header.level as u16;
            let count = tb.entries.len();
            let ghost es = tb.entries@;
            let ghost done0: Seq<AnsiDataBlockModel> = Seq::empty();
            let ghost mut done: Seq<AnsiDataBlockModel> = done0;
            let mut k: usize = 0;
            while k < count
                invariant
                    k <= count,
                    count == es.len(),
                    es == tb.entries@,
                    level == tb.header.level as u16,
                    level < bound,
                    t@ == AnsiDataTreeModel::Intermediate(tb@),
                    spec_ansi_data_blocks_view(out@) == spec_ansi_data_blocks_view(old(out)@)
                        + done,
                    spec_ansi_data_tree_children(b@, encoding, block_btree.root, es, 0, level) == (
                    match spec_ansi_data_tree_children(
                        b@,
                        encoding,
                        block_btree.root,
                        es,
                        k as int,
                        level,
                    ) {
                        Err(e) => NdbResult::<Seq<AnsiDataBlockModel>>::Err(e),
                        Ok(rest) => NdbResult::<Seq<AnsiDataBlockModel>>::Ok(done + rest),
                    }),
                decreases bound, count - k + 1,
            {
                let key = tb.entries[k].0.masked();
                proof {
                    assert(es[k as int] == tb.entries@[k as int]);
                }
                let bbe = match block_btree.find_entry(b, key) {
                    Ok(bbe) => bbe,
                    Err(e) => {
                        proof {
                            assert(spec_ansi_data_tree_children(
                                b@,
                                encoding,
                                block_btree.root,
                                es,
                                k as int,
                                level,
                            ) == NdbResult::<Seq<AnsiDataBlockModel>>::Err(e));
                        }
                        return Err(e);
                    },
                };
                let child = match AnsiDataTree::read(b, encoding, &bbe) {
                    Ok(c) => c,
                    Err(e) => {
                        proof {
                            assert(spec_ansi_data_tree_children(
                                b@,
                                encoding,
                                block_btree.root,
                                es,
                                k as int,
                                level,
                            ) == NdbResult::<Seq<AnsiDataBlockModel>>::Err(e));
                        }
                        return Err(e);
                    },
                };
                match ansi_data_tree_blocks_into(b, encoding, block_btree, &child, level, out) {
                    Ok(_) => {},
                    Err(e) => {
                        proof {
                            assert(spec_ansi_data_tree_children(
                                b@,
                                encoding,
                                block_btree.root,
                                es,
                                k as int,
                                level,
                            ) == NdbResult::<Seq<AnsiDataBlockModel>>::Err(e));
                        }
                        return Err(e);
                    },
                }
                proof {
                    let w = spec_ansi_data_tree_blocks(
                        b@,
                        encoding,
                        block_btree.root,
                        child@,
                        level,
                    )->Ok_0;
                    done = done + w;
                    assert(forall|x: Seq<AnsiDataBlockModel>, y: Seq<AnsiDataBlockModel>,
                        z: Seq<AnsiDataBlockModel>| #[trigger] ((x + y) + z) =~= x + (y + z));
                }
                k = k + 1;
            }
            proof {
                assert(spec_ansi_data_tree_children(
                    b@,
                    encoding,
                    block_btree.root,
                    es,
                    count as int,
                    level,
                ) == NdbResult::<Seq<AnsiDataBlockModel>>::Ok(Seq::<AnsiDataBlockModel>::empty()));
                assert(done + Seq::<AnsiDataBlockModel>::empty() =~= done);
            }
            Ok(())
        },
    }
}

impl AnsiDataTree {
    /// The leaf data blocks of this tree, in entry order.
    pub fn blocks(&self, b: &[u8], encoding: NdbCryptMethod, block_btree: &AnsiBlockBTree) -> (r:
        NdbResult<Vec<AnsiDataBlock>>)
        ensures
            (r matches Ok(v) && spec_ansi_data_tree_blocks(
                b@,
                encoding,
                block_btree.root,
                self@,
                256,
            ) matches Ok(ws) && spec_ansi_data_blocks_view(v@) == ws) || (r matches Err(e)
                && spec_ansi_data_tree_blocks(b@, encoding, block_btree.root, self@, 256)
                == NdbResult::<Seq<AnsiDataBlockModel>>::Err(e)),
        {
        let mut out: Vec<AnsiDataBlock> = Vec::new();
        match ansi_data_tree_blocks_into(b, encoding, block_btree, self, 256, &mut out) {
            Ok(_) => {
                proof {
                    assert(spec_ansi_data_blocks_view(Seq::<AnsiDataBlock>::empty())
                        =~= Seq::<AnsiDataBlockModel>::empty());
                    assert(Seq::<AnsiDataBlockModel>::empty() + spec_ansi_data_tree_blocks(
                        b@,
                        encoding,
                        block_btree.root,
                        self@,
                        256,
                    )->Ok_0 =~= spec_ansi_data_tree_blocks(
                        b@,
                        encoding,
                        block_btree.root,
                        self@,
                        256,
                    )->Ok_0);
                }
                Ok(out)
            },
            Err(e) => Err(e),
        }
    }
}

impl AnsiDataBlock {
    /// A field-for-field copy, as the 64-bit variant spells out.
    pub fn clone_block(&self) -> (r: Self)
        ensures
            r@ == self@,
    {
        AnsiDataBlock {
            encoding: self.encoding,
            data: vstd::slice::slice_to_vec(self.data.as_slice()),
            trailer: self.trailer,
        }
    }
}


/// The 8 bytes of an intermediate block header, in on-disk order.
pub open spec fn spec_data_tree_block_header_bytes(h: DataTreeBlockHeader) -> Seq<u8> {
    seq![0x01u8, h.level] + crate::bytes::spec_u16_bytes(h.entry_count)
        + crate::bytes::spec_u32_bytes(h.total_size)
}

pub fn serialize_data_tree_block_header(h: &DataTreeBlockHeader, out: &mut Vec<u8>)
    ensures
        final(out)@ == old(out)@ + spec_data_tree_block_header_bytes(*h),
{
    crate::bytes::write_u8(out, 0x01);
    crate::bytes::write_u8(out, h.level);
    crate::bytes::write_u16(out, h.entry_count);
    crate::bytes::write_u32(out, h.total_size);
    proof {
        assert(out@ =~= old(out)@ + spec_data_tree_block_header_bytes(*h));
    }
}

pub open spec fn spec_unicode_data_tree_entries_bytes(es: Seq<UnicodeDataTreeEntry>) -> Seq<u8>
    decreases es.len(),
{
    if es.len() == 0 {
        Seq::empty()
    } else {
        spec_unicode_data_tree_entries_bytes(es.drop_last()) + crate::bytes::spec_u64_bytes(
            es.last().0.raw_spec(),
        )
    }
}

proof fn lemma_unicode_data_tree_entries_bytes_len(es: Seq<UnicodeDataTreeEntry>)
    ensures
        spec_unicode_data_tree_entries_bytes(es).len() == 8 * es.len(),
    decreases es.len(),
{
    if es.len() > 0 {
        lemma_unicode_data_tree_entries_bytes_len(es.drop_last());
    }
}

/// The on-disk image of an intermediate data-tree block: header, child
/// ids, zero padding to the footprint, and a trailer stamped with the
/// data length and the CRC of header plus entries.
pub open spec fn spec_unicode_data_tree_block_bytes(m: UnicodeDataTreeBlockModel) -> Seq<u8>
    recommends
        m.entries.len() <= 1021,
{
    let data = spec_data_tree_block_header_bytes(m.header) + spec_unicode_data_tree_entries_bytes(
        m.entries,
    );
    let size = (8 + 8 * m.entries.len()) as u16;
    let fp = spec_block_size((size + 16) as u16) as int;
    data + crate::bytes::zero_bytes(fp - 16 - size) + crate::block::spec_unicode_block_trailer_bytes(
        (UnicodeBlockTrailer {
            size,
            signature: m.trailer.signature,
            crc: crate::crc::spec_crc(0, data),
            block_id: m.trailer.block_id,
        }),
    )
}

impl UnicodeDataTreeBlock {
    /// Appends the block's on-disk image; the trailer is restamped with
    /// the written length and CRC.
    pub fn write_to(&self, out: &mut Vec<u8>)
        requires
            self.entries@.len() <= 1021,
        ensures
            final(out)@ == old(out)@ + spec_unicode_data_tree_block_bytes(self@),
    {
        let mut data: Vec<u8> = Vec::new();
        serialize_data_tree_block_header(&self.header, &mut data);
        let n = self.entries.len();
        let mut k: usize = 0;
        while k < n
            invariant
                k <= n,
                n == self.entries@.len(),
                data@ == spec_data_tree_block_header_bytes(self.header)
                    + spec_unicode_data_tree_entries_bytes(self.entries@.subrange(0, k as int)),
            decreases n - k,
        {
            crate::bytes::write_u64(&mut data, self.entries[k].0.to_raw());
            k = k + 1;
            proof {
                let p = self.entries@.subrange(0, k as int);
                assert(p.drop_last() =~= self.entries@.subrange(0, k - 1 as int));
                assert(p.last() == self.entries@[k - 1 as int]);
                assert(data@ =~= spec_data_tree_block_header_bytes(self.header)
                    + spec_unicode_data_tree_entries_bytes(p));
            }
        }
        proof {
            assert(self.entries@.subrange(0, n as int) =~= self.entries@);
            lemma_unicode_data_tree_entries_bytes_len(self.entries@);
        }
        let size: u16 = (8 + 8 * n) as u16;
        let c = compute_crc(0, data.as_slice());
        let fp: usize = block_size(size + 16) as usize;
        proof {
            crate::block::lemma_block_size_bounds((size + 16) as u16);
        }
        let pad: usize = fp - 16 - size as usize;
        let t = UnicodeBlockTrailer {
            size,
            signature: self.trailer.signature,
            crc: c,
            block_id: self.trailer.block_id,
        };
        out.append(&mut data);
        crate::bytes::write_zeros(out, pad);
        crate::block::serialize_unicode_block_trailer(&t, out);
        proof {
            assert(out@ =~= old(out)@ + spec_unicode_data_tree_block_bytes(self@));
        }
    }
}

pub open spec fn spec_ansi_data_tree_entries_bytes(es: Seq<AnsiDataTreeEntry>) -> Seq<u8>
    decreases es.len(),
{
    if es.len() == 0 {
        Seq::empty()
    } else {
        spec_ansi_data_tree_entries_bytes(es.drop_last()) + crate::bytes::spec_u32_bytes(
            es.last().0.raw_spec(),
        )
    }
}

proof fn lemma_ansi_data_tree_entries_bytes_len(es: Seq<AnsiDataTreeEntry>)
    ensures
        spec_ansi_data_tree_entries_bytes(es).len() == 4 * es.len(),
    decreases es.len(),
{
    if es.len() > 0 {
        lemma_ansi_data_tree_entries_bytes_len(es.drop_last());
    }
}

/// The on-disk image of an intermediate data-tree block, 32-bit width.
pub open spec fn spec_ansi_data_tree_block_bytes(m: AnsiDataTreeBlockModel) -> Seq<u8>
    recommends
        m.entries.len() <= 2043,
{
    let data = spec_data_tree_block_header_bytes(m.header) + spec_ansi_data_tree_entries_bytes(
        m.entries,
    );
    let size = (8 + 4 * m.entries.len()) as u16;
    let fp = spec_block_size((size + 12) as u16) as int;
    data + crate::bytes::zero_bytes(fp - 12 - size) + crate::block::spec_ansi_block_trailer_bytes(
        (AnsiBlockTrailer {
            size,
            signature: m.trailer.signature,
            block_id: m.trailer.block_id,
            crc: crate::crc::spec_crc(0, data),
        }),
    )
}

impl AnsiDataTreeBlock {
    /// Appends the block's on-disk image, 32-bit width.
    pub fn write_to(&self, out: &mut Vec<u8>)
        requires
            self.entries@.len() <= 2043,
        ensures
            final(out)@ == old(out)@ + spec_ansi_data_tree_block_bytes(self@),
    {
        let mut data: Vec<u8> = Vec::new();
        serialize_data_tree_block_header(&self.header, &mut data);
        let n = self.entries.len();
        let mut k: usize = 0;
        while k < n
            invariant
                k <= n,
                n == self.entries@.len(),
                data@ == spec_data_tree_block_header_bytes(self.header)
                    + spec_ansi_data_tree_entries_bytes(self.entries@.subrange(0, k as int)),
            decreases n - k,
        {
            crate::bytes::write_u32(&mut data, self.entries[k].0.to_raw());
            k = k + 1;
            proof {
                let p = self.entries@.subrange(0, k as int);
                assert(p.drop_last() =~= self.entries@.subrange(0, k - 1 as int));
                assert(p.last() == self.entries@[k - 1 as int]);
                assert(data@ =~= spec_data_tree_block_header_bytes(self.header)
                    + spec_ansi_data_tree_entries_bytes(p));
            }
        }
        proof {
            assert(self.entries@.subrange(0, n as int) =~= self.entries@);
            lemma_ansi_data_tree_entries_bytes_len(self.entries@);
        }
        let size: u16 = (8 + 4 * n) as u16;
        let c = compute_crc(0, data.as_slice());
        let fp: usize = block_size(size + 12) as usize;
        proof {
            crate::block::lemma_block_size_bounds((size + 12) as u16);
        }
        let pad: usize = fp - 12 - size as usize;
        let t = AnsiBlockTrailer {
            size,
            signature: self.trailer.signature,
            block_id: self.trailer.block_id,
            crc: c,
        };
        out.append(&mut data);
        crate::bytes::write_zeros(out, pad);
        crate::block::serialize_ansi_block_trailer(&t, out);
        proof {
            assert(out@ =~= old(out)@ + spec_ansi_data_tree_block_bytes(self@));
        }
    }
}


proof fn lemma_unicode_data_tree_entries_bytes_index(es: Seq<UnicodeDataTreeEntry>, k: int)
    requires
        0 <= k < es.len(),
    ensures
        spec_unicode_data_tree_entries_bytes(es).subrange(8 * k, 8 * k + 8)
            == crate::bytes::spec_u64_bytes(es[k].0.raw_spec()),
    decreases es.len(),
{
    lemma_unicode_data_tree_entries_bytes_len(es);
    lemma_unicode_data_tree_entries_bytes_len(es.drop_last());
    if k == es.len() - 1 {
        assert(spec_unicode_data_tree_entries_bytes(es).subrange(8 * k, 8 * k + 8)
            =~= crate::bytes::spec_u64_bytes(es[k].0.raw_spec()));
    } else {
        lemma_unicode_data_tree_entries_bytes_index(es.drop_last(), k);
        assert(spec_unicode_data_tree_entries_bytes(es).subrange(8 * k, 8 * k + 8)
            =~= spec_unicode_data_tree_entries_bytes(es.drop_last()).subrange(8 * k, 8 * k + 8));
        assert(es.drop_last()[k] == es[k]);
    }
}

/// Parsing the serialized image of a fan-out block restores it: the
/// header, the child ids, and the trailer, restamped with the written
/// length and the CRC of header plus entries.
#[verifier::rlimit(100)]
pub proof fn lemma_unicode_data_tree_block_round_trip(m: UnicodeDataTreeBlockModel)
    requires
        m.entries.len() <= 1021,
        m.header.entry_count == m.entries.len(),
        m.trailer.block_id.is_internal_spec(),
    ensures
        spec_parse_unicode_data_tree_block(
            spec_unicode_data_tree_block_bytes(m),
            0,
            (8 + 8 * m.entries.len()) as u16,
        ) matches Ok(m2) && m2.header == m.header && m2.entries == m.entries
            && m2.trailer.signature == m.trailer.signature && m2.trailer.block_id
            == m.trailer.block_id,
{
    let s = spec_unicode_data_tree_block_bytes(m);
    let hb = spec_data_tree_block_header_bytes(m.header);
    let eb = spec_unicode_data_tree_entries_bytes(m.entries);
    let data = hb + eb;
    let count = m.entries.len() as int;
    let size = (8 + 8 * count) as u16;
    let fp = spec_block_size((size + 16) as u16) as int;
    let t = (UnicodeBlockTrailer {
        size,
        signature: m.trailer.signature,
        crc: crate::crc::spec_crc(0, data),
        block_id: m.trailer.block_id,
    });
    lemma_unicode_data_tree_entries_bytes_len(m.entries);
    assert(hb.len() == 8);
    assert(data.len() == size);
    crate::block::lemma_block_size_bounds((size + 16) as u16);
    assert(s.len() == fp);
    assert(s.subrange(fp - 16, fp) =~= crate::block::spec_unicode_block_trailer_bytes(t));
    crate::block::lemma_unicode_block_trailer_parse_window(s, fp - 16);
    crate::block::lemma_unicode_block_trailer_round_trip(t);
    assert(s[0] == 0x01u8 && s[1] == m.header.level);
    crate::bytes::lemma_u16_round_trip(m.header.entry_count);
    crate::bytes::lemma_u32_round_trip(m.header.total_size);
    assert(crate::bytes::spec_u16_at(s, 2) == m.header.entry_count);
    assert(crate::bytes::spec_u32_at(s, 4) == m.header.total_size);
    assert(spec_parse_data_tree_block_header(s, 0) == NdbResult::<DataTreeBlockHeader>::Ok(
        m.header,
    ));
    assert(s.subrange(0, size as int) =~= data);
    assert forall|k: int| 0 <= k < count implies crate::bytes::spec_u64_at(s, 8 + 8 * k)
        == m.entries[k].0.raw_spec() by {
        lemma_unicode_data_tree_entries_bytes_index(m.entries, k);
        crate::bytes::lemma_u64_round_trip(m.entries[k].0.raw_spec());
        let w = crate::bytes::spec_u64_bytes(m.entries[k].0.raw_spec());
        assert(s[8 + 8 * k] == w[0] && s[8 + 8 * k + 1] == w[1] && s[8 + 8 * k + 2] == w[2]
            && s[8 + 8 * k + 3] == w[3] && s[8 + 8 * k + 4] == w[4] && s[8 + 8 * k + 5] == w[5]
            && s[8 + 8 * k + 6] == w[6] && s[8 + 8 * k + 7] == w[7]);
    }
    assert(spec_unicode_data_tree_entries(s, 8, count) =~= m.entries);
}

} // verus!
